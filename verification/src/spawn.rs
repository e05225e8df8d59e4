//! Launching all members: one after the other, those that have a pane.
//!
//! Launching is the caller's business. Each call of the functions here takes
//! the reply to the launch that the call before asked for, and says whom to
//! launch next.

use vstd::prelude::*;
use vstd::string::*;

use crate::launch_state::{clone_identity, LaunchIdentity, LaunchState};
use crate::launcher;
use crate::team::{MemberInstance, RoleType};
use crate::text;
use crate::text::{copy, is_among, join_strings};

verus! {

/// How far the launching has come.
pub struct SpawnRun {
    /// Who is being launched.
    pub next: usize,
    /// What was decided for those prepared so far.
    pub resume_summaries: Vec<String>,
    /// Who runs now, and as what.
    pub launched: LaunchState,
}

/// How a launch went.
pub enum SpawnReply {
    /// None was asked for yet.
    Start,
    /// It could not be prepared.
    NotPrepared,
    /// It was prepared, and the member did not start.
    NotStarted { summary: String },
    /// The member runs.
    Started { summary: String, identity: LaunchIdentity },
}

/// What to do next.
pub enum SpawnStep {
    /// Launch the member at this position.
    Launch(usize),
    /// Nothing but to record the note, where there is one, and to save who
    /// runs.
    Done { note: Option<String> },
}

/// How far the launching has come, as a value.
#[verifier::ext_equal]
pub struct SpawnView {
    pub next: int,
    pub resume_summaries: Seq<Seq<char>>,
    pub launched: Map<Seq<char>, LaunchIdentity>,
}

impl View for SpawnRun {
    type V = SpawnView;

    open spec fn view(&self) -> SpawnView {
        SpawnView {
            next: self.next as int,
            resume_summaries: text::views(self.resume_summaries@),
            launched: self.launched@,
        }
    }
}

/// The first position from `from` on whose member has a pane.
pub open spec fn next_launchable(ms: Seq<MemberInstance>, panes: Seq<Seq<char>>, from: int) -> Option<
    int,
>
    decreases ms.len() - from,
{
    if from < 0 || from >= ms.len() {
        None
    } else if launcher::is_launchable(ms[from], panes) {
        Some(from)
    } else {
        next_launchable(ms, panes, from + 1)
    }
}

fn find_launchable(members: &Vec<MemberInstance>, panes: &Vec<String>, from: usize) -> (r: Option<
    usize,
>)
    requires
        from <= members@.len(),
    ensures
        match r {
            Some(i) => next_launchable(members@, text::views(panes@), from as int) == Some(
                i as int,
            ) && i < members@.len(),
            None => next_launchable(members@, text::views(panes@), from as int) is None,
        },
{
    let mut i: usize = from;
    while i < members.len()
        invariant
            i <= members@.len(),
            next_launchable(members@, text::views(panes@), from as int) == next_launchable(
                members@,
                text::views(panes@),
                i as int,
            ),
        decreases members@.len() - i,
    {
        if members[i].role_type != RoleType::User && is_among(panes, members[i].name.as_str()) {
            return Some(i);
        }
        i += 1;
    }
    None
}

/// What a reply adds.
pub open spec fn absorbed(run: SpawnView, name: Seq<char>, reply: SpawnReply) -> SpawnView {
    match reply {
        SpawnReply::Start => run,
        SpawnReply::NotPrepared => run,
        SpawnReply::NotStarted { summary } => SpawnView {
            next: run.next,
            resume_summaries: run.resume_summaries.push(summary@),
            launched: run.launched,
        },
        SpawnReply::Started { summary, identity } => SpawnView {
            next: run.next,
            resume_summaries: run.resume_summaries.push(summary@),
            launched: run.launched.insert(name, identity),
        },
    }
}

/// Where to look for the next member after a reply.
pub open spec fn resume_at(run: SpawnView, reply: SpawnReply) -> int {
    if reply is Start {
        0
    } else {
        run.next + 1
    }
}

/// The note on what was decided, where something was.
pub open spec fn resume_note(summaries: Seq<Seq<char>>) -> Option<Seq<char>> {
    if summaries.len() == 0 {
        None
    } else {
        Some("resume: "@ + text::join(summaries, ", "@))
    }
}

/// The run, and what to do, after a reply.
pub open spec fn is_next(
    ms: Seq<MemberInstance>,
    panes: Seq<Seq<char>>,
    run: SpawnView,
    reply: SpawnReply,
    after: SpawnView,
    step: SpawnStep,
) -> bool {
    let seen = absorbed(run, ms[run.next].name@, reply);
    match next_launchable(ms, panes, resume_at(run, reply)) {
        Some(i) => {
            &&& after == (SpawnView { next: i, ..seen })
            &&& step matches SpawnStep::Launch(k) && k == i
        },
        None => {
            &&& after == (SpawnView { next: ms.len() as int, ..seen })
            &&& step matches SpawnStep::Done { note } && crate::paths::opt_view(note)
                == resume_note(seen.resume_summaries)
        },
    }
}

/// A run that has not begun.
pub fn start_spawn() -> (r: SpawnRun)
    ensures
        r.launched.wf(),
        r@ == (SpawnView {
            next: 0,
            resume_summaries: Seq::empty(),
            launched: Map::empty(),
        }),
{
    let r: SpawnRun = SpawnRun {
        next: 0,
        resume_summaries: Vec::new(),
        launched: LaunchState::new(),
    };
    assert(r@ =~= (SpawnView {
        next: 0,
        resume_summaries: Seq::empty(),
        launched: Map::empty(),
    }));
    r
}

/// Takes the reply to the last launch, and says whom to launch next; `panes`
/// names the members with a pane. The user is never launched.
pub fn spawn_all_agents(
    members: &Vec<MemberInstance>,
    panes: &Vec<String>,
    run: SpawnRun,
    reply: SpawnReply,
) -> (r: (SpawnRun, SpawnStep))
    requires
        run.launched.wf(),
        reply is Start || run.next < members@.len(),
    ensures
        r.0.launched.wf(),
        is_next(members@, text::views(panes@), run@, reply, r.0@, r.1),
{
    let count: usize = members.len();
    let from: usize = match &reply {
        SpawnReply::Start => 0,
        _ => run.next + 1,
    };
    let mut resume_summaries: Vec<String> = run.resume_summaries;
    let mut launched: LaunchState = run.launched;
    let ghost s0 = resume_summaries@;
    match &reply {
        SpawnReply::Start => {},
        SpawnReply::NotPrepared => {},
        SpawnReply::NotStarted { summary } => {
            resume_summaries.push(copy(summary.as_str()));
            assert(text::views(resume_summaries@) == text::views(s0).push(summary@));
        },
        SpawnReply::Started { summary, identity } => {
            resume_summaries.push(copy(summary.as_str()));
            assert(text::views(resume_summaries@) == text::views(s0).push(summary@));
            launched.insert(members[run.next].name.as_str(), clone_identity(identity));
        },
    }
    match find_launchable(members, panes, from) {
        Some(i) => {
            let after: SpawnRun = SpawnRun { next: i, resume_summaries, launched };
            (after, SpawnStep::Launch(i))
        },
        None => {
            assert(text::views(resume_summaries@).len() == resume_summaries@.len());
            let note: Option<String> = if resume_summaries.len() == 0 {
                None
            } else {
                Some(copy("resume: ").concat(join_strings(&resume_summaries, ", ").as_str()))
            };
            let after: SpawnRun = SpawnRun { next: count, resume_summaries, launched };
            (after, SpawnStep::Done { note })
        },
    }
}

/// The same for members that run behind shims: a member whose pane could not
/// be turned into a display, or whose shim did not start, counts as not
/// started.
pub fn spawn_all_shim_agents(
    members: &Vec<MemberInstance>,
    panes: &Vec<String>,
    run: SpawnRun,
    reply: SpawnReply,
) -> (r: (SpawnRun, SpawnStep))
    requires
        run.launched.wf(),
        reply is Start || run.next < members@.len(),
    ensures
        r.0.launched.wf(),
        is_next(members@, text::views(panes@), run@, reply, r.0@, r.1),
{
    spawn_all_agents(members, panes, run, reply)
}

// ---------------------------------------------------------------------------
// Laws

/// The run after `k` replies to launches.
pub open spec fn run_after(
    ms: Seq<MemberInstance>,
    panes: Seq<Seq<char>>,
    replies: Seq<SpawnReply>,
    k: int,
) -> SpawnView
    decreases k,
{
    let start = SpawnView { next: 0, resume_summaries: Seq::empty(), launched: Map::empty() };
    if k <= 0 {
        SpawnView {
            next: match next_launchable(ms, panes, 0) {
                Some(i) => i,
                None => ms.len() as int,
            },
            ..start
        }
    } else {
        let run = run_after(ms, panes, replies, k - 1);
        let seen = absorbed(run, ms[run.next].name@, replies[k - 1]);
        SpawnView {
            next: match next_launchable(ms, panes, run.next + 1) {
                Some(i) => i,
                None => ms.len() as int,
            },
            ..seen
        }
    }
}

proof fn lemma_next_launchable(ms: Seq<MemberInstance>, panes: Seq<Seq<char>>, from: int)
    requires
        0 <= from <= ms.len() <= usize::MAX,
    ensures
        match next_launchable(ms, panes, from) {
            Some(i) => from <= i < ms.len() && launcher::launchable(ms, panes, i + 1)
                == launcher::launchable(ms, panes, from).push(i as usize),
            None => launcher::launchable(ms, panes, ms.len() as int) == launcher::launchable(
                ms,
                panes,
                from,
            ),
        },
    decreases ms.len() - from,
{
    if from < ms.len() && !launcher::is_launchable(ms[from], panes) {
        lemma_next_launchable(ms, panes, from + 1);
    }
}

/// The names of those that were started, among the first `k`.
pub open spec fn started_names(
    ms: Seq<MemberInstance>,
    at: Seq<usize>,
    replies: Seq<SpawnReply>,
    k: int,
) -> Set<Seq<char>>
    decreases k,
{
    if k <= 0 {
        Set::empty()
    } else if replies[k - 1] is Started {
        started_names(ms, at, replies, k - 1).insert(ms[at[k - 1] as int].name@)
    } else {
        started_names(ms, at, replies, k - 1)
    }
}

/// Everybody with a pane is launched once, in order, and nobody else: the
/// launch after `k` replies is that of the `k`-th such member, until there is
/// none left. And those that run in the end are those that were started.
pub proof fn law_everybody_with_a_pane_is_launched_once(
    ms: Seq<MemberInstance>,
    panes: Seq<Seq<char>>,
    replies: Seq<SpawnReply>,
    k: int,
)
    requires
        ms.len() <= usize::MAX,
        0 <= k <= launcher::launchable(ms, panes, ms.len() as int).len(),
        k <= replies.len(),
        forall|i: int| 0 <= i < k ==> !((#[trigger] replies[i]) is Start),
    ensures
        ({
            let all = launcher::launchable(ms, panes, ms.len() as int);
            let run = run_after(ms, panes, replies, k);
            &&& k < all.len() ==> run.next == all[k]
            &&& k == all.len() ==> run.next == ms.len()
            &&& run.launched.dom() == started_names(ms, all, replies, k)
        }),
{
    let all = launcher::launchable(ms, panes, ms.len() as int);
    lemma_run(ms, panes, replies, k);
    let run = run_after(ms, panes, replies, k);
    if k < all.len() {
        if run.next == ms.len() {
            assert(launcher::launchable(ms, panes, run.next).len() == k);
            assert(false);
        }
        lemma_prefix(ms, panes, run.next + 1, ms.len() as int);
        assert(launcher::launchable(ms, panes, run.next + 1)[k] == run.next as usize);
    } else {
        if run.next < ms.len() {
            lemma_prefix(ms, panes, run.next + 1, ms.len() as int);
            assert(launcher::launchable(ms, panes, run.next + 1).len() == k + 1);
            assert(false);
        }
    }
}

proof fn lemma_prefix(ms: Seq<MemberInstance>, panes: Seq<Seq<char>>, i: int, n: int)
    requires
        0 <= i <= n <= ms.len(),
    ensures
        launcher::launchable(ms, panes, i).len() <= launcher::launchable(ms, panes, n).len(),
        forall|k: int|
            0 <= k < launcher::launchable(ms, panes, i).len() ==> (#[trigger] launcher::launchable(
                ms,
                panes,
                i,
            )[k]) == launcher::launchable(ms, panes, n)[k],
    decreases n - i,
{
    if i < n {
        lemma_prefix(ms, panes, i, n - 1);
    }
}

proof fn lemma_run(
    ms: Seq<MemberInstance>,
    panes: Seq<Seq<char>>,
    replies: Seq<SpawnReply>,
    k: int,
)
    requires
        ms.len() <= usize::MAX,
        0 <= k <= launcher::launchable(ms, panes, ms.len() as int).len(),
        k <= replies.len(),
        forall|i: int| 0 <= i < k ==> !((#[trigger] replies[i]) is Start),
    ensures
        ({
            let all = launcher::launchable(ms, panes, ms.len() as int);
            let run = run_after(ms, panes, replies, k);
            &&& 0 <= run.next <= ms.len()
            &&& launcher::launchable(ms, panes, run.next).len() == k
            &&& run.next < ms.len() ==> launcher::launchable(ms, panes, run.next + 1).len() == k + 1
                && launcher::launchable(ms, panes, run.next + 1)[k] == run.next as usize
            &&& run.launched.dom() == started_names(ms, all, replies, k)
        }),
    decreases k,
{
    let all = launcher::launchable(ms, panes, ms.len() as int);
    let run = run_after(ms, panes, replies, k);
    if k == 0 {
        lemma_next_launchable(ms, panes, 0);
        lemma_upto(ms, panes, 0);
        assert(run.launched.dom() =~= Set::<Seq<char>>::empty());
    } else {
        lemma_run(ms, panes, replies, k - 1);
        let before = run_after(ms, panes, replies, k - 1);
        if before.next == ms.len() {
            assert(launcher::launchable(ms, panes, before.next).len() == k - 1);
            assert(false);
        }
        lemma_next_launchable(ms, panes, before.next + 1);
        lemma_upto(ms, panes, before.next + 1);
        lemma_prefix(ms, panes, before.next + 1, ms.len() as int);
        assert(all[k - 1] == before.next as usize);
        assert(run.launched.dom() =~= started_names(ms, all, replies, k));
    }
}

/// Nobody with a pane is passed over on the way to the next one.
proof fn lemma_upto(ms: Seq<MemberInstance>, panes: Seq<Seq<char>>, from: int)
    requires
        0 <= from <= ms.len() <= usize::MAX,
    ensures
        match next_launchable(ms, panes, from) {
            Some(i) => launcher::launchable(ms, panes, i) == launcher::launchable(ms, panes, from),
            None => true,
        },
    decreases ms.len() - from,
{
    if from < ms.len() && !launcher::is_launchable(ms[from], panes) {
        lemma_upto(ms, panes, from + 1);
    }
}

} // verus!
