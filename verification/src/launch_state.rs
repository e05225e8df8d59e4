//! What each member was launched as, kept from one start to the next.

use vstd::prelude::*;
use vstd::string::*;

use crate::paths;
use crate::paths::joined;
use crate::text;
use crate::text::{copy, is_among, same};

verus! {

/// What a member was launched as.
#[derive(Clone, Debug)]
pub struct LaunchIdentity {
    pub agent: String,
    pub prompt: String,
    pub session_id: Option<String>,
}

/// A copy of an optional text.
pub fn clone_text(s: &Option<String>) -> (r: Option<String>)
    ensures
        r == *s,
{
    match s {
        Some(x) => Some(x.clone()),
        None => None,
    }
}

/// A copy of an identity.
pub fn clone_identity(x: &LaunchIdentity) -> (r: LaunchIdentity)
    ensures
        r == *x,
{
    LaunchIdentity {
        agent: x.agent.clone(),
        prompt: x.prompt.clone(),
        session_id: clone_text(&x.session_id),
    }
}

/// The identities of the members, by name.
#[derive(Debug)]
pub struct LaunchState {
    entries: Vec<(String, LaunchIdentity)>,
}

spec fn map_of(entries: Seq<(String, LaunchIdentity)>) -> Map<Seq<char>, LaunchIdentity>
    decreases entries.len(),
{
    if entries.len() == 0 {
        Map::empty()
    } else {
        map_of(entries.drop_last()).insert(entries.last().0@, entries.last().1)
    }
}

spec fn names_differ(entries: Seq<(String, LaunchIdentity)>) -> bool {
    forall|i: int, j: int|
        0 <= i < j < entries.len() ==> (#[trigger] entries[i]).0@ != (#[trigger] entries[j]).0@
}

proof fn lemma_map_of(entries: Seq<(String, LaunchIdentity)>)
    requires
        names_differ(entries),
    ensures
        forall|k: int|
            0 <= k < entries.len() ==> map_of(entries).contains_key((#[trigger] entries[k]).0@)
                && map_of(entries)[entries[k].0@] == entries[k].1,
        forall|n: Seq<char>| #[trigger]
            map_of(entries).contains_key(n) ==> exists|k: int|
                0 <= k < entries.len() && (#[trigger] entries[k]).0@ == n,
    decreases entries.len(),
{
    if entries.len() > 0 {
        let front = entries.drop_last();
        assert forall|i: int, j: int| 0 <= i < j < front.len() implies (#[trigger] front[i]).0@ != (
        #[trigger] front[j]).0@ by {
            assert(entries[i].0@ != entries[j].0@);
        }
        lemma_map_of(front);
        let m = map_of(entries);
        assert forall|k: int| 0 <= k < entries.len() implies m.contains_key(
            (#[trigger] entries[k]).0@,
        ) && m[entries[k].0@] == entries[k].1 by {
            if k < front.len() {
                assert(front[k] == entries[k]);
                assert(entries[k].0@ != entries[entries.len() - 1].0@);
            }
        }
        assert forall|n: Seq<char>| #[trigger] m.contains_key(n) implies exists|k: int|
            0 <= k < entries.len() && (#[trigger] entries[k]).0@ == n by {
            if n == entries.last().0@ {
                assert(entries[entries.len() - 1].0@ == n);
            } else {
                assert(map_of(front).contains_key(n));
                let k = choose|k: int| 0 <= k < front.len() && (#[trigger] front[k]).0@ == n;
                assert(entries[k].0@ == n);
            }
        }
    }
}

proof fn lemma_update(entries: Seq<(String, LaunchIdentity)>, i: int, e: (String, LaunchIdentity))
    requires
        names_differ(entries),
        0 <= i < entries.len(),
        e.0@ == entries[i].0@,
    ensures
        names_differ(entries.update(i, e)),
        map_of(entries.update(i, e)) == map_of(entries).insert(e.0@, e.1),
    decreases entries.len(),
{
    let new = entries.update(i, e);
    assert forall|a: int, b: int| 0 <= a < b < new.len() implies (#[trigger] new[a]).0@ != (
    #[trigger] new[b]).0@ by {
        assert(entries[a].0@ != entries[b].0@);
    }
    let front = entries.drop_last();
    if i == entries.len() - 1 {
        assert(new.drop_last() == front);
        assert(map_of(new) =~= map_of(entries).insert(e.0@, e.1));
    } else {
        assert forall|a: int, b: int| 0 <= a < b < front.len() implies (#[trigger] front[a]).0@ != (
        #[trigger] front[b]).0@ by {
            assert(entries[a].0@ != entries[b].0@);
        }
        lemma_update(front, i, e);
        assert(new.drop_last() == front.update(i, e));
        assert(entries[i].0@ != entries[entries.len() - 1].0@);
        assert(map_of(new) =~= map_of(entries).insert(e.0@, e.1));
    }
}

impl View for LaunchState {
    type V = Map<Seq<char>, LaunchIdentity>;

    closed spec fn view(&self) -> Map<Seq<char>, LaunchIdentity> {
        map_of(self.entries@)
    }
}

/// The identity of a member, where there is one.
pub open spec fn identity_of(state: Map<Seq<char>, LaunchIdentity>, name: Seq<char>) -> Option<
    LaunchIdentity,
> {
    if state.contains_key(name) {
        Some(state[name])
    } else {
        None
    }
}

/// The session of a member, where one was saved.
pub open spec fn session_of(state: Map<Seq<char>, LaunchIdentity>, name: Seq<char>) -> Option<
    Seq<char>,
> {
    match identity_of(state, name) {
        Some(x) => paths::opt_view(x.session_id),
        None => None,
    }
}

/// The state with another session for a member.
pub open spec fn with_session(
    state: Map<Seq<char>, LaunchIdentity>,
    after: Map<Seq<char>, LaunchIdentity>,
    name: Seq<char>,
    session: Seq<char>,
) -> bool {
    &&& after.dom() == state.dom()
    &&& forall|n: Seq<char>|
        n != name && state.contains_key(n) ==> #[trigger] after[n] == state[n]
    &&& state.contains_key(name) ==> after[name].agent == state[name].agent && after[name].prompt
        == state[name].prompt && paths::opt_view(after[name].session_id) == Some(session)
}

impl LaunchState {
    /// No name occurs twice.
    pub closed spec fn wf(&self) -> bool {
        names_differ(self.entries@)
    }

    /// A state without members.
    pub fn new() -> (r: LaunchState)
        ensures
            r.wf(),
            r@ == Map::<Seq<char>, LaunchIdentity>::empty(),
    {
        LaunchState { entries: Vec::new() }
    }

    fn find(&self, name: &str) -> (r: Option<usize>)
        requires
            self.wf(),
        ensures
            match r {
                Some(i) => i < self.entries@.len() && self.entries@[i as int].0@ == name@,
                None => forall|k: int|
                    0 <= k < self.entries@.len() ==> (#[trigger] self.entries@[k]).0@ != name@,
            },
    {
        let mut i: usize = 0;
        while i < self.entries.len()
            invariant
                i <= self.entries@.len(),
                forall|k: int| 0 <= k < i ==> (#[trigger] self.entries@[k]).0@ != name@,
            decreases self.entries@.len() - i,
        {
            if same(self.entries[i].0.as_str(), name) {
                return Some(i);
            }
            i += 1;
        }
        None
    }

    /// The identity of a member.
    pub fn get(&self, name: &str) -> (r: Option<&LaunchIdentity>)
        requires
            self.wf(),
        ensures
            match r {
                Some(x) => identity_of(self@, name@) == Some(*x),
                None => identity_of(self@, name@) is None,
            },
    {
        proof {
            lemma_map_of(self.entries@);
        }
        match self.find(name) {
            Some(i) => Some(&self.entries[i].1),
            None => None,
        }
    }

    /// Files an identity under a name, in place of an earlier one.
    pub fn insert(&mut self, name: &str, identity: LaunchIdentity)
        requires
            old(self).wf(),
        ensures
            final(self).wf(),
            final(self)@ == old(self)@.insert(name@, identity),
    {
        match self.find(name) {
            Some(i) => {
                let ghost before = self.entries@;
                let e: (String, LaunchIdentity) = (copy(name), identity);
                proof {
                    lemma_update(before, i as int, e);
                }
                self.entries.set(i, e);
                assert(self.entries@ == before.update(i as int, e));
            },
            None => {
                let ghost before = self.entries@;
                self.entries.push((copy(name), identity));
                assert(self.entries@.drop_last() == before);
                assert forall|a: int, b: int| 0 <= a < b < self.entries@.len() implies (
                #[trigger] self.entries@[a]).0@ != (#[trigger] self.entries@[b]).0@ by {
                    if b < before.len() {
                        assert(before[a].0@ != before[b].0@);
                    } else {
                        assert(before[a].0@ != name@);
                    }
                }
            },
        }
    }

    /// Sets the session of a member that has an identity. Returns whether
    /// anything changed.
    pub fn set_session(&mut self, name: &str, session_id: &str) -> (r: bool)
        requires
            old(self).wf(),
        ensures
            final(self).wf(),
            r == (old(self)@.contains_key(name@) && session_of(old(self)@, name@) != Some(
                session_id@,
            )),
            r ==> with_session(old(self)@, final(self)@, name@, session_id@),
            !r ==> final(self)@ == old(self)@,
    {
        let found: Option<LaunchIdentity> = match self.get(name) {
            Some(x) => Some(clone_identity(x)),
            None => None,
        };
        match found {
            Some(x) => {
                let is_same: bool = match &x.session_id {
                    Some(s) => same(s.as_str(), session_id),
                    None => false,
                };
                if is_same {
                    return false;
                }
                let ghost before = self@;
                self.insert(
                    name,
                    LaunchIdentity {
                        agent: x.agent,
                        prompt: x.prompt,
                        session_id: Some(copy(session_id)),
                    },
                );
                assert(self@.dom() =~= before.dom());
                true
            },
            None => false,
        }
    }

    /// The names and identities, in the order in which they were first filed.
    pub fn to_entries(&self) -> (r: Vec<(String, LaunchIdentity)>)
        requires
            self.wf(),
        ensures
            forall|k: int|
                0 <= k < r@.len() ==> identity_of(self@, (#[trigger] r@[k]).0@) == Some(r@[k].1),
            forall|n: Seq<char>| #[trigger]
                self@.contains_key(n) ==> exists|k: int|
                    0 <= k < r@.len() && (#[trigger] r@[k]).0@ == n,
            forall|i: int, j: int|
                0 <= i < j < r@.len() ==> (#[trigger] r@[i]).0@ != (#[trigger] r@[j]).0@,
    {
        let mut out: Vec<(String, LaunchIdentity)> = Vec::new();
        let mut i: usize = 0;
        while i < self.entries.len()
            invariant
                i <= self.entries@.len(),
                out@ == self.entries@.take(i as int),
            decreases self.entries@.len() - i,
        {
            out.push((self.entries[i].0.clone(), clone_identity(&self.entries[i].1)));
            i += 1;
            assert(self.entries@.take(i as int) == self.entries@.take(i - 1).push(
                self.entries@[i - 1],
            ));
        }
        assert(self.entries@.take(i as int) == self.entries@);
        proof {
            lemma_map_of(self.entries@);
        }
        out
    }
}

/// `<root>/.batty/launch-state.json`.
pub open spec fn state_path(project_root: Seq<char>) -> Seq<char> {
    paths::join_path(paths::batty_dir(project_root), "launch-state.json"@)
}

/// Where the launch state of a project is.
pub fn launch_state_path(project_root: &str) -> (r: String)
    ensures
        r@ == state_path(project_root@),
{
    joined(joined(project_root, ".batty").as_str(), "launch-state.json")
}

/// Sets the sessions that were found for members, where they have an identity
/// and another session. Returns whether anything changed.
pub fn sync_launch_state_session_ids(
    state: &mut LaunchState,
    found: &Vec<(String, Option<String>)>,
) -> (r: bool)
    requires
        old(state).wf(),
    ensures
        final(state).wf(),
        is_synced(old(state)@, final(state)@, found@, found@.len() as int),
        r == any_change(old(state)@, found@, found@.len() as int),
{
    let ghost start = state@;
    let mut changed: bool = false;
    let mut i: usize = 0;
    while i < found.len()
        invariant
            i <= found@.len(),
            state.wf(),
            is_synced(start, state@, found@, i as int),
            changed == any_change(start, found@, i as int),
        decreases found@.len() - i,
    {
        let ghost before = state@;
        match &found[i].1 {
            Some(session) => {
                if state.set_session(found[i].0.as_str(), session.as_str()) {
                    changed = true;
                }
            },
            None => {},
        }
        i += 1;
        assert(state@.dom() == start.dom());
    }
    changed
}

/// The session of a member after the first `n` finds.
pub open spec fn synced_session(
    state: Map<Seq<char>, LaunchIdentity>,
    found: Seq<(String, Option<String>)>,
    name: Seq<char>,
    n: int,
) -> Option<Seq<char>>
    decreases n,
{
    if n <= 0 {
        session_of(state, name)
    } else if found[n - 1].0@ == name && found[n - 1].1 is Some {
        paths::opt_view(found[n - 1].1)
    } else {
        synced_session(state, found, name, n - 1)
    }
}

/// Every member has its agent and prompt as before, and the session that was
/// found last.
pub open spec fn is_synced(
    before: Map<Seq<char>, LaunchIdentity>,
    after: Map<Seq<char>, LaunchIdentity>,
    found: Seq<(String, Option<String>)>,
    n: int,
) -> bool {
    &&& after.dom() == before.dom()
    &&& forall|name: Seq<char>|
        before.contains_key(name) ==> (#[trigger] after[name]).agent == before[name].agent
            && after[name].prompt == before[name].prompt && paths::opt_view(after[name].session_id)
            == synced_session(before, found, name, n)
}

/// One of the first `n` finds is news.
pub open spec fn any_change(
    state: Map<Seq<char>, LaunchIdentity>,
    found: Seq<(String, Option<String>)>,
    n: int,
) -> bool
    decreases n,
{
    if n <= 0 {
        false
    } else {
        any_change(state, found, n - 1) || (found[n - 1].1 is Some && state.contains_key(
            found[n - 1].0@,
        ) && synced_session(state, found, found[n - 1].0@, n - 1) != paths::opt_view(
            found[n - 1].1,
        ))
    }
}

/// Sets the session of a member that has an identity. Returns whether the
/// state has to be saved.
pub fn persist_member_session_id(state: &mut LaunchState, member_name: &str, session_id: &str) -> (r:
    bool)
    requires
        old(state).wf(),
    ensures
        final(state).wf(),
        r == (old(state)@.contains_key(member_name@) && session_of(old(state)@, member_name@)
            != Some(session_id@)),
        r ==> with_session(old(state)@, final(state)@, member_name@, session_id@),
        !r ==> final(state)@ == old(state)@,
{
    state.set_session(member_name, session_id)
}

/// Files the identity of a member.
pub fn persist_member_launch_identity(
    state: &mut LaunchState,
    member_name: &str,
    identity: LaunchIdentity,
)
    requires
        old(state).wf(),
    ensures
        final(state).wf(),
        final(state)@ == old(state)@.insert(member_name@, identity),
{
    state.insert(member_name, identity);
}

/// Two members that run this agent share this session.
pub open spec fn is_duplicated(
    state: Map<Seq<char>, LaunchIdentity>,
    adapter: Seq<char>,
    session: Seq<char>,
) -> bool {
    exists|a: Seq<char>, b: Seq<char>|
        a != b && #[trigger] has_session(state, adapter, a, session) && #[trigger] has_session(
            state,
            adapter,
            b,
            session,
        )
}

/// The member runs this agent in this session.
pub open spec fn has_session(
    state: Map<Seq<char>, LaunchIdentity>,
    adapter: Seq<char>,
    name: Seq<char>,
    session: Seq<char>,
) -> bool {
    &&& state.contains_key(name)
    &&& state[name].agent@ == adapter
    &&& paths::opt_view(state[name].session_id) == Some(session)
}

fn runs_in(x: &LaunchIdentity, adapter: &str, session: &str) -> (r: bool)
    ensures
        r == (x.agent@ == adapter@ && paths::opt_view(x.session_id) == Some(session@)),
{
    match &x.session_id {
        Some(s) => same(x.agent.as_str(), adapter) && same(s.as_str(), session),
        None => false,
    }
}

impl LaunchState {
    /// Whether two members share this session, `first` being one of them.
    fn is_shared(&self, adapter: &str, first: usize, session: &str) -> (r: bool)
        requires
            self.wf(),
            first < self.entries@.len(),
            has_session(self@, adapter@, self.entries@[first as int].0@, session@),
        ensures
            r == (exists|k: int|
                k != first && 0 <= k < self.entries@.len() && has_session(
                    self@,
                    adapter@,
                    (#[trigger] self.entries@[k]).0@,
                    session@,
                )),
    {
        proof {
            lemma_map_of(self.entries@);
        }
        let mut k: usize = 0;
        while k < self.entries.len()
            invariant
                k <= self.entries@.len(),
                self@ == map_of(self.entries@),
                forall|j: int|
                    0 <= j < self.entries@.len() ==> self@.contains_key(
                        (#[trigger] self.entries@[j]).0@,
                    ) && self@[self.entries@[j].0@] == self.entries@[j].1,
                forall|j: int|
                    0 <= j < k && j != first ==> !has_session(
                        self@,
                        adapter@,
                        (#[trigger] self.entries@[j]).0@,
                        session@,
                    ),
            decreases self.entries@.len() - k,
        {
            if k != first && runs_in(&self.entries[k].1, adapter, session) {
                assert(has_session(self@, adapter@, self.entries@[k as int].0@, session@));
                return true;
            }
            k += 1;
        }
        false
    }
}

/// The sessions that two members with the default agent share, which neither
/// can go on with; `adapter` is the name of that agent in the state.
pub fn duplicate_claude_session_ids(state: &LaunchState, adapter: &str) -> (r: Vec<String>)
    requires
        state.wf(),
    ensures
        forall|s: Seq<char>| #[trigger] text::views(r@).contains(s) <==> is_duplicated(state@, adapter@, s),
{
    proof {
        lemma_map_of(state.entries@);
    }
    let ghost entries = state.entries@;
    let mut out: Vec<String> = Vec::new();
    let mut i: usize = 0;
    while i < state.entries.len()
        invariant
            i <= entries.len(),
            entries == state.entries@,
            state.wf(),
            state@ == map_of(entries),
            forall|j: int|
                0 <= j < entries.len() ==> state@.contains_key((#[trigger] entries[j]).0@)
                    && state@[entries[j].0@] == entries[j].1,
            forall|s: Seq<char>| #[trigger]
                text::views(out@).contains(s) ==> is_duplicated(state@, adapter@, s),
            forall|s: Seq<char>, j: int|
                0 <= j < i && is_duplicated(state@, adapter@, s) && has_session(
                    state@,
                    adapter@,
                    (#[trigger] entries[j]).0@,
                    s,
                ) ==> #[trigger] text::views(out@).contains(s),
        decreases entries.len() - i,
    {
        let ghost before = out@;
        let x: &LaunchIdentity = &state.entries[i].1;
        let ghost v0 = text::views(before);
        if same(x.agent.as_str(), adapter) {
            match &x.session_id {
                Some(session) => {
                    let ghost given = session@;
                    assert(has_session(state@, adapter@, entries[i as int].0@, given));
                    if state.is_shared(adapter, i, session.as_str()) {
                        proof {
                            let k = choose|k: int|
                                k != i && 0 <= k < entries.len() && has_session(
                                    state@,
                                    adapter@,
                                    (#[trigger] entries[k]).0@,
                                    given,
                                );
                            if k < i {
                                assert(entries[k].0@ != entries[i as int].0@);
                            } else {
                                assert(entries[i as int].0@ != entries[k].0@);
                            }
                            assert(is_duplicated(state@, adapter@, given));
                        }
                        if !is_among(&out, session.as_str()) {
                            out.push(copy(session.as_str()));
                            assert(text::views(out@) == v0.push(given));
                        }
                    } else {
                        assert(!is_duplicated(state@, adapter@, given)) by {
                            lemma_not_shared(*state, adapter@, i as int, given);
                        }
                    }
                },
                None => {},
            }
        }
        proof {
            let v1 = text::views(out@);
            assert forall|s: Seq<char>| v0.contains(s) implies #[trigger] v1.contains(s) by {
                let k = choose|k: int| 0 <= k < v0.len() && v0[k] == s;
                assert(v1[k] == s);
            }
            assert forall|s: Seq<char>| #[trigger] v1.contains(s) implies is_duplicated(
                state@,
                adapter@,
                s,
            ) by {
                let k = choose|k: int| 0 <= k < v1.len() && v1[k] == s;
                if k < v0.len() {
                    assert(v0[k] == s);
                    assert(v0.contains(s));
                }
            }
            assert forall|s: Seq<char>, j: int|
                0 <= j < i + 1 && is_duplicated(state@, adapter@, s) && has_session(
                    state@,
                    adapter@,
                    (#[trigger] entries[j]).0@,
                    s,
                ) implies #[trigger] v1.contains(s) by {
                if j < i {
                    assert(v0.contains(s));
                } else if v1.len() > v0.len() {
                    assert(v1[v0.len() as int] == s);
                }
            }
        }
        i += 1;
    }
    proof {
        assert forall|s: Seq<char>| #[trigger] text::views(out@).contains(s) <==> is_duplicated(
            state@,
            adapter@,
            s,
        ) by {
            if is_duplicated(state@, adapter@, s) {
                let (a, b) = choose|a: Seq<char>, b: Seq<char>|
                    a != b && #[trigger] has_session(state@, adapter@, a, s) && #[trigger] has_session(
                        state@,
                        adapter@,
                        b,
                        s,
                    );
                let k = choose|k: int| 0 <= k < entries.len() && (#[trigger] entries[k]).0@ == a;
                assert(has_session(state@, adapter@, entries[k].0@, s));
            }
        }
    }
    out
}

proof fn lemma_not_shared(state: LaunchState, adapter: Seq<char>, first: int, session: Seq<char>)
    requires
        state.wf(),
        0 <= first < state.entries@.len(),
        !(exists|k: int|
            k != first && 0 <= k < state.entries@.len() && has_session(
                state@,
                adapter,
                (#[trigger] state.entries@[k]).0@,
                session,
            )),
    ensures
        !is_duplicated(state@, adapter, session),
{
    lemma_map_of(state.entries@);
    if is_duplicated(state@, adapter, session) {
        let (a, b) = choose|a: Seq<char>, b: Seq<char>|
            a != b && #[trigger] has_session(state@, adapter, a, session) && #[trigger] has_session(
                state@,
                adapter,
                b,
                session,
            );
        let i = choose|i: int|
            0 <= i < state.entries@.len() && (#[trigger] state.entries@[i]).0@ == a;
        let j = choose|j: int|
            0 <= j < state.entries@.len() && (#[trigger] state.entries@[j]).0@ == b;
        if i != first {
            assert(has_session(state@, adapter, state.entries@[i].0@, session));
        } else {
            assert(j != first);
            assert(has_session(state@, adapter, state.entries@[j].0@, session));
        }
    }
}

} // verus!
