//! Mailboxes in memory.
//!
//! A store maps the path of a mailbox to its two lists of entries: `new`
//! holds what is pending and `cur` what was delivered, both in the order in
//! which they are listed. An entry whose content cannot be read as a message
//! stays in its list but is never handed out.

use vstd::prelude::*;

use crate::inbox::{clone_message, InboxMessage, Listed};
use crate::order;
use crate::order::order_by;
use crate::text::same;

verus! {

/// One file of a mailbox.
#[derive(Debug)]
pub struct MailEntry {
    pub id: String,
    /// Flags follow the id in the name of the file. Only delivered files have
    /// any.
    pub is_flagged: bool,
    /// The message, unless the file holds none.
    pub message: Option<InboxMessage>,
}

/// A message in a list carries the id of its entry.
pub open spec fn is_labelled(entry: MailEntry) -> bool {
    entry.message matches Some(m) ==> m.id@ == entry.id@
}

/// A mailbox with its path.
#[derive(Debug)]
struct Maildir {
    path: String,
    new: Vec<MailEntry>,
    cur: Vec<MailEntry>,
}

/// The two lists of a mailbox.
#[verifier::ext_equal]
pub struct Mailbox {
    pub new: Seq<MailEntry>,
    pub cur: Seq<MailEntry>,
}

/// A mailbox without entries.
pub open spec fn empty_mailbox() -> Mailbox {
    Mailbox { new: Seq::empty(), cur: Seq::empty() }
}

/// All mailboxes.
#[derive(Debug)]
pub struct MailStore {
    boxes: Vec<Maildir>,
}

spec fn lists(m: Maildir) -> Mailbox {
    Mailbox { new: m.new@, cur: m.cur@ }
}

spec fn map_of(boxes: Seq<Maildir>) -> Map<Seq<char>, Mailbox>
    decreases boxes.len(),
{
    if boxes.len() == 0 {
        Map::empty()
    } else {
        map_of(boxes.drop_last()).insert(boxes.last().path@, lists(boxes.last()))
    }
}

spec fn distinct_paths(boxes: Seq<Maildir>) -> bool {
    forall|i: int, j: int|
        0 <= i < j < boxes.len() ==> (#[trigger] boxes[i]).path@ != (#[trigger] boxes[j]).path@
}

spec fn all_labelled(entries: Seq<MailEntry>) -> bool {
    forall|i: int| 0 <= i < entries.len() ==> is_labelled(#[trigger] entries[i])
}

/// No two entries have the same id.
pub open spec fn distinct_ids(entries: Seq<MailEntry>) -> bool {
    forall|i: int, j: int|
        0 <= i < j < entries.len() ==> (#[trigger] entries[i]).id@ != (#[trigger] entries[j]).id@
}

/// What holds of every mailbox of a store.
pub open spec fn is_sound(m: Mailbox) -> bool {
    &&& distinct_ids(m.new)
    &&& forall|i: int| 0 <= i < m.new.len() ==> !(#[trigger] m.new[i]).is_flagged
    &&& forall|i: int| 0 <= i < m.new.len() ==> is_labelled(#[trigger] m.new[i])
    &&& forall|i: int| 0 <= i < m.cur.len() ==> is_labelled(#[trigger] m.cur[i])
}

proof fn lemma_map_of(boxes: Seq<Maildir>)
    requires
        distinct_paths(boxes),
    ensures
        forall|k: int|
            0 <= k < boxes.len() ==> map_of(boxes).contains_key((#[trigger] boxes[k]).path@)
                && map_of(boxes)[boxes[k].path@] == lists(boxes[k]),
        forall|p: Seq<char>| #[trigger]
            map_of(boxes).contains_key(p) ==> exists|k: int|
                0 <= k < boxes.len() && (#[trigger] boxes[k]).path@ == p,
    decreases boxes.len(),
{
    if boxes.len() > 0 {
        let rest = boxes.drop_last();
        lemma_map_of(rest);
        assert forall|k: int| 0 <= k < boxes.len() implies map_of(boxes).contains_key(
            (#[trigger] boxes[k]).path@,
        ) && map_of(boxes)[boxes[k].path@] == lists(boxes[k]) by {
            if k < boxes.len() - 1 {
                assert(rest[k] == boxes[k]);
                assert(boxes[k].path@ != boxes[boxes.len() - 1].path@);
            }
        }
        assert forall|p: Seq<char>| #[trigger] map_of(boxes).contains_key(p) implies exists|k: int|
            0 <= k < boxes.len() && (#[trigger] boxes[k]).path@ == p by {
            if p == boxes.last().path@ {
                assert(boxes[boxes.len() - 1].path@ == p);
            } else {
                assert(map_of(rest).contains_key(p));
                let k = choose|k: int| 0 <= k < rest.len() && (#[trigger] rest[k]).path@ == p;
                assert(boxes[k].path@ == p);
            }
        }
    }
}

proof fn lemma_map_update(boxes: Seq<Maildir>, k: int, b: Maildir)
    requires
        distinct_paths(boxes),
        0 <= k < boxes.len(),
        b.path@ == boxes[k].path@,
    ensures
        distinct_paths(boxes.update(k, b)),
        map_of(boxes.update(k, b)) == map_of(boxes).insert(b.path@, lists(b)),
    decreases boxes.len(),
{
    let after = boxes.update(k, b);
    assert forall|i: int, j: int| 0 <= i < j < after.len() implies (#[trigger] after[i]).path@ != (
    #[trigger] after[j]).path@ by {
        assert(boxes[i].path@ != boxes[j].path@);
    }
    if k == boxes.len() - 1 {
        assert(after.drop_last() == boxes.drop_last());
        assert(map_of(after) =~= map_of(boxes).insert(b.path@, lists(b)));
    } else {
        let rest = boxes.drop_last();
        lemma_map_update(rest, k, b);
        assert(after.drop_last() == rest.update(k, b));
        assert(boxes[k].path@ != boxes[boxes.len() - 1].path@);
        assert(map_of(after) =~= map_of(boxes).insert(b.path@, lists(b)));
    }
}

/// The first entry with this id.
pub open spec fn entry_index(entries: Seq<MailEntry>, id: Seq<char>, from: int) -> Option<int>
    decreases entries.len() - from,
{
    if from < 0 || from >= entries.len() {
        None
    } else if entries[from].id@ == id {
        Some(from)
    } else {
        entry_index(entries, id, from + 1)
    }
}

proof fn lemma_entry_index(entries: Seq<MailEntry>, id: Seq<char>, from: int)
    ensures
        entry_index(entries, id, from) matches Some(i) ==> from <= i < entries.len() && 0 <= i
            && entries[i].id@ == id,
    decreases entries.len() - from,
{
    if 0 <= from < entries.len() && entries[from].id@ != id {
        lemma_entry_index(entries, id, from + 1);
    }
}

/// An entry index as contracts see it.
fn find_entry(entries: &Vec<MailEntry>, id: &str) -> (r: Option<usize>)
    ensures
        crate::merge::multi_repo::index_view(r) == entry_index(entries@, id@, 0),
        r matches Some(i) ==> i < entries@.len(),
{
    let mut i: usize = 0;
    while i < entries.len()
        invariant
            i <= entries@.len(),
            entry_index(entries@, id@, 0) == entry_index(entries@, id@, i as int),
        decreases entries@.len() - i,
    {
        if same(entries[i].id.as_str(), id) {
            return Some(i);
        }
        i += 1;
    }
    None
}

/// A delivered file with this id and no flags, whose name is thus the one
/// that a file gets when it is delivered.
pub open spec fn is_replaced(entry: MailEntry, id: Seq<char>) -> bool {
    !entry.is_flagged && entry.id@ == id
}

/// What is left of delivered files when one with this id is delivered.
pub open spec fn unreplaced(cur: Seq<MailEntry>, id: Seq<char>) -> Seq<MailEntry> {
    cur.filter(|e: MailEntry| !is_replaced(e, id))
}

/// A mailbox after the entry with this id was delivered. Its file takes the
/// place of a delivered one with the same name.
pub open spec fn delivered(m: Mailbox, id: Seq<char>) -> Mailbox {
    match entry_index(m.new, id, 0) {
        Some(i) => Mailbox {
            new: m.new.remove(i),
            cur: unreplaced(m.cur, id).push(m.new[i]),
        },
        None => m,
    }
}

/// A mailbox after the entry with this id was deleted: from `new` where it is
/// there, else from `cur`.
pub open spec fn deleted(m: Mailbox, id: Seq<char>) -> Mailbox {
    match entry_index(m.new, id, 0) {
        Some(i) => Mailbox { new: m.new.remove(i), cur: m.cur },
        None => match entry_index(m.cur, id, 0) {
            Some(i) => Mailbox { new: m.new, cur: m.cur.remove(i) },
            None => m,
        },
    }
}

/// The mailbox has an entry with this id.
pub open spec fn has_entry(m: Mailbox, id: Seq<char>) -> bool {
    entry_index(m.new, id, 0) is Some || entry_index(m.cur, id, 0) is Some
}

impl View for MailStore {
    type V = Map<Seq<char>, Mailbox>;

    closed spec fn view(&self) -> Map<Seq<char>, Mailbox> {
        map_of(self.boxes@)
    }
}

/// The mailbox at a path, empty where there is none.
pub open spec fn mailbox_at(store: Map<Seq<char>, Mailbox>, path: Seq<char>) -> Mailbox {
    if store.contains_key(path) {
        store[path]
    } else {
        empty_mailbox()
    }
}

/// The store with a mailbox at `path`.
pub open spec fn created(store: Map<Seq<char>, Mailbox>, path: Seq<char>) -> Map<
    Seq<char>,
    Mailbox,
> {
    if store.contains_key(path) {
        store
    } else {
        store.insert(path, empty_mailbox())
    }
}

/// `m` is the message `msg` under the id `id`.
pub open spec fn is_filed_as(m: InboxMessage, msg: InboxMessage, id: Seq<char>) -> bool {
    &&& m.id@ == id
    &&& m.from == msg.from
    &&& m.to == msg.to
    &&& m.body == msg.body
    &&& m.msg_type == msg.msg_type
    &&& m.timestamp == msg.timestamp
}

/// An old delivered entry: its message is older than `cutoff`.
pub open spec fn is_older(entry: MailEntry, cutoff: u64) -> bool {
    entry.message matches Some(m) && m.timestamp < cutoff
}

/// What a purge removes: everything, or what is older than `before`.
pub open spec fn is_purged(entry: MailEntry, before: Option<u64>, purge_all: bool) -> bool {
    purge_all || (before matches Some(cutoff) && is_older(entry, cutoff))
}

/// What is left of delivered entries after a purge.
pub open spec fn unpurged(cur: Seq<MailEntry>, before: Option<u64>, purge_all: bool) -> Seq<
    MailEntry,
> {
    cur.filter(|e: MailEntry| !is_purged(e, before, purge_all))
}

impl MailStore {
    /// No path occurs twice, every message carries the id of its entry, and
    /// in each mailbox no id occurs twice among what is pending, and nothing
    /// pending has flags.
    pub closed spec fn wf(&self) -> bool {
        &&& distinct_paths(self.boxes@)
        &&& forall|k: int|
            0 <= k < self.boxes@.len() ==> is_sound(lists(#[trigger] self.boxes@[k]))
    }

    /// Every mailbox of a store is sound.
    pub proof fn lemma_sound(&self, path: Seq<char>)
        requires
            self.wf(),
        ensures
            is_sound(mailbox_at(self@, path)),
    {
        lemma_map_of(self.boxes@);
        if self@.contains_key(path) {
            let k = choose|k: int|
                0 <= k < self.boxes@.len() && (#[trigger] self.boxes@[k]).path@ == path;
            assert(is_sound(lists(self.boxes@[k])));
        }
    }

    /// A store without mailboxes.
    pub fn new() -> (r: MailStore)
        ensures
            r.wf(),
            r@ == Map::<Seq<char>, Mailbox>::empty(),
    {
        MailStore { boxes: Vec::new() }
    }

    fn find(&self, path: &str) -> (r: Option<usize>)
        requires
            self.wf(),
        ensures
            r is Some <==> self@.contains_key(path@),
            r matches Some(k) ==> k < self.boxes@.len() && self.boxes@[k as int].path@ == path@
                && self@[path@] == lists(self.boxes@[k as int]),
    {
        let mut i: usize = 0;
        while i < self.boxes.len()
            invariant
                i <= self.boxes@.len(),
                self.wf(),
                forall|k: int| 0 <= k < i ==> (#[trigger] self.boxes@[k]).path@ != path@,
            decreases self.boxes@.len() - i,
        {
            if same(self.boxes[i].path.as_str(), path) {
                proof {
                    lemma_map_of(self.boxes@);
                    assert(self.boxes@[i as int].path@ == path@);
                }
                return Some(i);
            }
            i += 1;
        }
        proof {
            lemma_map_of(self.boxes@);
        }
        None
    }

    /// Makes sure that a mailbox exists.
    pub fn create(&mut self, path: &str)
        requires
            old(self).wf(),
        ensures
            final(self).wf(),
            final(self)@ == created(old(self)@, path@),
    {
        if self.find(path).is_none() {
            let ghost before = self.boxes@;
            let b = Maildir {
                path: crate::text::copy(path),
                new: Vec::new(),
                cur: Vec::new(),
            };
            self.boxes.push(b);
            proof {
                lemma_map_of(before);
                assert(self.boxes@.drop_last() == before);
                assert(lists(b) =~= empty_mailbox());
                assert(map_of(self.boxes@) =~= created(map_of(before), path@));
                assert forall|i: int, j: int| 0 <= i < j < self.boxes@.len() implies (
                #[trigger] self.boxes@[i]).path@ != (#[trigger] self.boxes@[j]).path@ by {
                    if j == before.len() {
                        assert(map_of(before).contains_key(before[i].path@));
                    } else {
                        assert(before[i].path@ != before[j].path@);
                    }
                }
                assert forall|k: int| 0 <= k < self.boxes@.len() implies is_sound(
                    lists(#[trigger] self.boxes@[k]),
                ) by {
                    if k < before.len() {
                        assert(self.boxes@[k] == before[k]);
                    }
                }
            }
        }
    }

    /// Puts a mailbox in the place of another with the same path.
    fn put(&mut self, k: usize, b: Maildir)
        requires
            old(self).wf(),
            k < old(self).boxes@.len(),
            b.path@ == old(self).boxes@[k as int].path@,
            is_sound(lists(b)),
        ensures
            final(self).wf(),
            final(self)@ == old(self)@.insert(b.path@, lists(b)),
            final(self).boxes@.len() == old(self).boxes@.len(),
    {
        let ghost before = self.boxes@;
        self.boxes.set(k, b);
        proof {
            lemma_map_update(before, k as int, b);
            assert forall|i: int| 0 <= i < self.boxes@.len() implies is_sound(
                lists(#[trigger] self.boxes@[i]),
            ) by {
                if i != k {
                    assert(self.boxes@[i] == before[i]);
                }
            }
        }
    }

    /// Takes a mailbox out, leaving an empty one in its place.
    fn take(&mut self, k: usize) -> (r: Maildir)
        requires
            old(self).wf(),
            k < old(self).boxes@.len(),
        ensures
            final(self).wf(),
            r == old(self).boxes@[k as int],
            is_sound(lists(r)),
            final(self).boxes@.len() == old(self).boxes@.len(),
            final(self).boxes@[k as int].path@ == r.path@,
            final(self)@ == old(self)@.insert(r.path@, empty_mailbox()),
    {
        let ghost before = self.boxes@;
        let mut b = Maildir {
            path: self.boxes[k].path.clone(),
            new: Vec::new(),
            cur: Vec::new(),
        };
        let ghost blank = b;
        assert(lists(blank) =~= empty_mailbox());
        proof {
            lemma_map_update(before, k as int, blank);
        }
        vec_swap(&mut self.boxes, k, &mut b);
        proof {
            assert forall|i: int| 0 <= i < self.boxes@.len() implies is_sound(
                lists(#[trigger] self.boxes@[i]),
            ) by {
                if i != k {
                    assert(self.boxes@[i] == before[i]);
                }
            }
            assert(is_sound(lists(before[k as int])));
        }
        b
    }

    /// Stores a message as pending under the given id, in a mailbox that is
    /// created where it is missing.
    pub fn store_new(&mut self, path: &str, msg: &InboxMessage, id: &str)
        requires
            old(self).wf(),
            entry_index(mailbox_at(old(self)@, path@).new, id@, 0) is None,
        ensures
            final(self).wf(),
            exists|e: MailEntry|
                {
                    &&& e.id@ == id@
                    &&& !e.is_flagged
                    &&& e.message matches Some(m) && is_filed_as(m, *msg, id@)
                    &&& final(self)@ == #[trigger] stored(old(self)@, path@, e)
                },
    {
        self.create(path);
        match self.find(path) {
            Some(k) => {
                let ghost store = self@;
                let mut b: Maildir = self.take(k);
                let mut m: InboxMessage = clone_message(msg);
                m.id = crate::text::copy(id);
                let e = MailEntry {
                    id: crate::text::copy(id),
                    is_flagged: false,
                    message: Some(m),
                };
                let ghost before = b;
                proof {
                    lemma_push_entry(b.new@, e);
                }
                b.new.push(e);
                self.put(k, b);
                proof {
                    assert(lists(b) =~= (Mailbox {
                        new: lists(before).new.push(e),
                        cur: lists(before).cur,
                    }));
                    assert(self@ =~= stored(old(self)@, path@, e));
                }
            },
            None => {
                assert(false);
            },
        }
    }

    /// Tells whether there is a mailbox at `path`.
    pub fn has_mailbox(&self, path: &str) -> (r: bool)
        requires
            self.wf(),
        ensures
            r == self@.contains_key(path@),
    {
        self.find(path).is_some()
    }

    /// Adds an entry as it was found: to `new`, or to `cur` where it was
    /// delivered, with or without flags.
    pub fn load(
        &mut self,
        path: &str,
        id: &str,
        message: Option<InboxMessage>,
        was_delivered: bool,
        is_flagged: bool,
    )
        requires
            old(self).wf(),
            was_delivered || entry_index(mailbox_at(old(self)@, path@).new, id@, 0) is None,
        ensures
            final(self).wf(),
            exists|e: MailEntry|
                {
                    &&& e.id@ == id@
                    &&& e.is_flagged == (was_delivered && is_flagged)
                    &&& e.message is Some <==> message is Some
                    &&& message matches Some(msg) ==> is_filed_as(e.message->Some_0, msg, id@)
                    &&& final(self)@ == #[trigger] loaded(old(self)@, path@, e, was_delivered)
                },
    {
        self.create(path);
        match self.find(path) {
            Some(k) => {
                let mut b: Maildir = self.take(k);
                let labelled: Option<InboxMessage> = match message {
                    Some(msg) => {
                        let mut m: InboxMessage = msg;
                        m.id = crate::text::copy(id);
                        Some(m)
                    },
                    None => None,
                };
                let e = MailEntry {
                    id: crate::text::copy(id),
                    is_flagged: was_delivered && is_flagged,
                    message: labelled,
                };
                let ghost before = b;
                if was_delivered {
                    b.cur.push(e);
                } else {
                    proof {
                        lemma_push_entry(b.new@, e);
                    }
                    b.new.push(e);
                }
                proof {
                    assert(is_sound(lists(before)));
                    assert(is_labelled(e));
                    let m = lists(b);
                    assert forall|i: int| 0 <= i < m.new.len() implies is_labelled(
                        #[trigger] m.new[i],
                    ) by {
                        if i < before.new@.len() {
                            assert(m.new[i] == lists(before).new[i]);
                        }
                    }
                    assert forall|i: int| 0 <= i < m.cur.len() implies is_labelled(
                        #[trigger] m.cur[i],
                    ) by {
                        if i < before.cur@.len() {
                            assert(m.cur[i] == lists(before).cur[i]);
                        }
                    }
                }
                self.put(k, b);
                proof {
                    assert(lists(b) =~= with_loaded(lists(before), e, was_delivered));
                    assert(self@ =~= loaded(old(self)@, path@, e, was_delivered));
                }
            },
            None => {
                assert(false);
            },
        }
    }

    /// Moves the entry with this id from `new` to `cur`, in the place of a
    /// delivered file with the same name; tells whether there was one.
    pub fn move_new_to_cur(&mut self, path: &str, id: &str) -> (r: bool)
        requires
            old(self).wf(),
        ensures
            final(self).wf(),
            r == (entry_index(mailbox_at(old(self)@, path@).new, id@, 0) is Some),
            r ==> final(self)@ == old(self)@.insert(
                path@,
                delivered(mailbox_at(old(self)@, path@), id@),
            ),
            !r ==> final(self)@ == old(self)@,
    {
        match self.find(path) {
            Some(k) => {
                match find_entry(&self.boxes[k].new, id) {
                    Some(i) => {
                        let mut b: Maildir = self.take(k);
                        let ghost before = b;
                        proof {
                            lemma_entry_index(b.new@, id@, 0);
                        }
                        let e: MailEntry = b.new.remove(i);
                        let mut cur: Vec<MailEntry> = without_replaced(b.cur, id);
                        let ghost kept = cur@;
                        cur.push(e);
                        let after = Maildir { path: b.path, new: b.new, cur };
                        proof {
                            lemma_remove_sound(lists(before), i as int);
                            assert(is_labelled(before.new@[i as int]));
                            assert forall|j: int| 0 <= j < after.cur@.len() implies is_labelled(
                                #[trigger] after.cur@[j],
                            ) by {
                                if j < kept.len() {
                                    assert(after.cur@[j] == kept[j]);
                                }
                            }
                        }
                        self.put(k, after);
                        proof {
                            assert(lists(after) =~= delivered(lists(before), id@));
                            assert(self@ =~= old(self)@.insert(
                                path@,
                                delivered(mailbox_at(old(self)@, path@), id@),
                            ));
                        }
                        true
                    },
                    None => false,
                }
            },
            None => false,
        }
    }

    /// Deletes the entry with this id; tells whether there was one.
    pub fn delete(&mut self, path: &str, id: &str) -> (r: bool)
        requires
            old(self).wf(),
        ensures
            final(self).wf(),
            r == has_entry(mailbox_at(old(self)@, path@), id@),
            r ==> final(self)@ == old(self)@.insert(
                path@,
                deleted(mailbox_at(old(self)@, path@), id@),
            ),
            !r ==> final(self)@ == old(self)@,
    {
        match self.find(path) {
            Some(k) => {
                let in_new: Option<usize> = find_entry(&self.boxes[k].new, id);
                let in_cur: Option<usize> = find_entry(&self.boxes[k].cur, id);
                if in_new.is_none() && in_cur.is_none() {
                    return false;
                }
                let mut b: Maildir = self.take(k);
                let ghost before = b;
                match in_new {
                    Some(i) => {
                        b.new.remove(i);
                        proof {
                            lemma_remove_sound(lists(before), i as int);
                        }
                    },
                    None => {
                        if let Some(i) = in_cur {
                            b.cur.remove(i);
                            proof {
                                lemma_remove_labelled(before.cur@, i as int);
                            }
                        }
                    },
                }
                self.put(k, b);
                proof {
                    assert(lists(b) =~= deleted(lists(before), id@));
                    assert(self@ =~= old(self)@.insert(
                        path@,
                        deleted(mailbox_at(old(self)@, path@), id@),
                    ));
                }
                true
            },
            None => false,
        }
    }

    /// Removes delivered entries; returns their number.
    pub fn purge(&mut self, path: &str, before: Option<u64>, purge_all: bool) -> (r: usize)
        requires
            old(self).wf(),
        ensures
            final(self).wf(),
            r == mailbox_at(old(self)@, path@).cur.len() - unpurged(
                mailbox_at(old(self)@, path@).cur,
                before,
                purge_all,
            ).len(),
            old(self)@.contains_key(path@) ==> final(self)@ == old(self)@.insert(
                path@,
                (Mailbox {
                    new: old(self)@[path@].new,
                    cur: unpurged(old(self)@[path@].cur, before, purge_all),
                }),
            ),
            !old(self)@.contains_key(path@) ==> final(self)@ == old(self)@,
    {
        match self.find(path) {
            Some(k) => {
                let mut b: Maildir = self.take(k);
                let ghost old_box = b;
                let ghost keep = |e: MailEntry| !is_purged(e, before, purge_all);
                let n: usize = b.cur.len();
                let mut rest: Vec<MailEntry> = b.cur;
                let mut kept: Vec<MailEntry> = Vec::new();
                let mut i: usize = 0;
                assert(rest@ == old_box.cur@.skip(0));
                assert(kept@ == old_box.cur@.take(0).filter(keep)) by {
                    reveal(Seq::filter);
                }
                while i < n
                    invariant
                        i <= n,
                        n == old_box.cur@.len(),
                        keep == (|e: MailEntry| !is_purged(e, before, purge_all)),
                        all_labelled(old_box.cur@),
                        all_labelled(kept@),
                        rest@ == old_box.cur@.skip(i as int),
                        kept@ == old_box.cur@.take(i as int).filter(keep),
                        kept@.len() <= i,
                    decreases n - i,
                {
                    proof {
                        reveal(Seq::filter);
                        assert(old_box.cur@.take(i + 1).drop_last() == old_box.cur@.take(i as int));
                        assert(rest@[0] == old_box.cur@[i as int]);
                        assert(rest@.remove(0) == old_box.cur@.skip(i + 1));
                    }
                    let e: MailEntry = rest.remove(0);
                    let purged: bool = if purge_all {
                        true
                    } else {
                        match (before, &e.message) {
                            (Some(cutoff), Some(m)) => m.timestamp < cutoff,
                            _ => false,
                        }
                    };
                    assert(purged == is_purged(e, before, purge_all));
                    if !purged {
                        kept.push(e);
                    }
                    i += 1;
                }
                assert(old_box.cur@.take(i as int) == old_box.cur@);
                let removed: usize = n - kept.len();
                let after = Maildir { path: b.path, new: b.new, cur: kept };
                self.put(k, after);
                proof {
                    assert(lists(after) =~= (Mailbox {
                        new: lists(old_box).new,
                        cur: unpurged(lists(old_box).cur, before, purge_all),
                    }));
                    assert(self@ =~= old(self)@.insert(path@, lists(after)));
                }
                removed
            },
            None => {
                assert(empty_mailbox().cur.filter(
                    |e: MailEntry| !is_purged(e, before, purge_all),
                ).len() == 0) by {
                    reveal(Seq::filter);
                }
                0
            },
        }
    }

    /// The number of entries in `new`.
    pub fn count_new(&self, path: &str) -> (r: usize)
        requires
            self.wf(),
        ensures
            r == mailbox_at(self@, path@).new.len(),
    {
        match self.find(path) {
            Some(k) => self.boxes[k].new.len(),
            None => 0,
        }
    }

    /// The ids of the entries in `new` and of those in `cur`.
    pub fn ids(&self, path: &str) -> (r: (Vec<String>, Vec<String>))
        requires
            self.wf(),
        ensures
            crate::text::views(r.0@) == ids_of(mailbox_at(self@, path@).new),
            crate::text::views(r.1@) == ids_of(mailbox_at(self@, path@).cur),
    {
        match self.find(path) {
            Some(k) => (list_ids(&self.boxes[k].new), list_ids(&self.boxes[k].cur)),
            None => {
                let none: Vec<MailEntry> = Vec::new();
                assert(none@ == empty_mailbox().new);
                (list_ids(&none), list_ids(&none))
            },
        }
    }

    /// The messages in `new` and then in `cur`, as they are listed.
    pub fn list(&self, path: &str) -> (r: Vec<Listed>)
        requires
            self.wf(),
        ensures
            r@ == listed(mailbox_at(self@, path@)),
    {
        let mut out: Vec<Listed> = Vec::new();
        match self.find(path) {
            Some(k) => {
                add_readable(&mut out, &self.boxes[k].new, false);
                add_readable(&mut out, &self.boxes[k].cur, true);
                out
            },
            None => {
                assert(out@ =~= listed(empty_mailbox()));
                out
            },
        }
    }

    /// The messages in `new`, as they are listed.
    pub fn list_new(&self, path: &str) -> (r: Vec<Listed>)
        requires
            self.wf(),
        ensures
            r@ == readable(mailbox_at(self@, path@).new, false),
    {
        let mut out: Vec<Listed> = Vec::new();
        match self.find(path) {
            Some(k) => {
                add_readable(&mut out, &self.boxes[k].new, false);
                assert(Seq::<Listed>::empty() + readable(self.boxes@[k as int].new@, false)
                    == readable(self.boxes@[k as int].new@, false));
                out
            },
            None => {
                assert(out@ =~= readable(empty_mailbox().new, false));
                out
            },
        }
    }
}

/// The ids of entries.
pub open spec fn ids_of(entries: Seq<MailEntry>) -> Seq<Seq<char>> {
    Seq::new(entries.len(), |i: int| entries[i].id@)
}

fn list_ids(entries: &Vec<MailEntry>) -> (r: Vec<String>)
    ensures
        crate::text::views(r@) == ids_of(entries@),
{
    let mut out: Vec<String> = Vec::new();
    let mut i: usize = 0;
    while i < entries.len()
        invariant
            i <= entries@.len(),
            crate::text::views(out@) == ids_of(entries@).take(i as int),
        decreases entries@.len() - i,
    {
        let ghost before = out@;
        out.push(crate::text::copy(entries[i].id.as_str()));
        assert(crate::text::views(out@) == crate::text::views(before).push(entries@[i as int].id@));
        i += 1;
    }
    out
}

/// The delivered files that one with this id leaves when it is delivered.
fn without_replaced(cur: Vec<MailEntry>, id: &str) -> (r: Vec<MailEntry>)
    requires
        all_labelled(cur@),
    ensures
        r@ == unreplaced(cur@, id@),
        all_labelled(r@),
{
    let ghost all = cur@;
    let ghost keep = |e: MailEntry| !is_replaced(e, id@);
    let n: usize = cur.len();
    let mut rest: Vec<MailEntry> = cur;
    let mut kept: Vec<MailEntry> = Vec::new();
    let mut i: usize = 0;
    assert(rest@ == all.skip(0));
    assert(kept@ == all.take(0).filter(keep)) by {
        reveal(Seq::filter);
    }
    while i < n
        invariant
            i <= n,
            n == all.len(),
            keep == (|e: MailEntry| !is_replaced(e, id@)),
            all_labelled(all),
            all_labelled(kept@),
            rest@ == all.skip(i as int),
            kept@ == all.take(i as int).filter(keep),
        decreases n - i,
    {
        proof {
            reveal(Seq::filter);
            assert(all.take(i + 1).drop_last() == all.take(i as int));
            assert(rest@[0] == all[i as int]);
            assert(rest@.remove(0) == all.skip(i + 1));
        }
        let e: MailEntry = rest.remove(0);
        if e.is_flagged || !same(e.id.as_str(), id) {
            kept.push(e);
        }
        i += 1;
    }
    assert(all.take(i as int) == all);
    kept
}

fn vec_swap(v: &mut Vec<Maildir>, k: usize, b: &mut Maildir)
    requires
        k < old(v)@.len(),
    ensures
        final(v)@ == old(v)@.update(k as int, *old(b)),
        *final(b) == old(v)@[k as int],
{
    core::mem::swap(&mut v[k], b);
}

proof fn lemma_remove_sound(m: Mailbox, i: int)
    requires
        is_sound(m),
        0 <= i < m.new.len(),
    ensures
        is_sound(Mailbox { new: m.new.remove(i), cur: m.cur }),
{
    let after = m.new.remove(i);
    lemma_remove_labelled(m.new, i);
    assert forall|a: int, b: int| 0 <= a < b < after.len() implies (#[trigger] after[a]).id@ != (
    #[trigger] after[b]).id@ by {
        let a0 = if a < i {
            a
        } else {
            a + 1
        };
        let b0 = if b < i {
            b
        } else {
            b + 1
        };
        assert(after[a] == m.new[a0]);
        assert(after[b] == m.new[b0]);
    }
}

proof fn lemma_no_entry(entries: Seq<MailEntry>, id: Seq<char>, from: int)
    requires
        entry_index(entries, id, from) is None,
        0 <= from,
    ensures
        forall|i: int| from <= i < entries.len() ==> (#[trigger] entries[i]).id@ != id,
    decreases entries.len() - from,
{
    if from < entries.len() {
        lemma_no_entry(entries, id, from + 1);
    }
}

proof fn lemma_push_entry(entries: Seq<MailEntry>, e: MailEntry)
    requires
        distinct_ids(entries),
        entry_index(entries, e.id@, 0) is None,
    ensures
        distinct_ids(entries.push(e)),
{
    lemma_no_entry(entries, e.id@, 0);
}

proof fn lemma_remove_labelled(entries: Seq<MailEntry>, i: int)
    requires
        all_labelled(entries),
        0 <= i < entries.len(),
    ensures
        all_labelled(entries.remove(i)),
{
    assert forall|j: int| 0 <= j < entries.remove(i).len() implies is_labelled(
        #[trigger] entries.remove(i)[j],
    ) by {
        if j < i {
            assert(entries.remove(i)[j] == entries[j]);
        } else {
            assert(entries.remove(i)[j] == entries[j + 1]);
        }
    }
}

/// A store with one more pending entry.
pub open spec fn stored(store: Map<Seq<char>, Mailbox>, path: Seq<char>, e: MailEntry) -> Map<
    Seq<char>,
    Mailbox,
> {
    let m = mailbox_at(store, path);
    store.insert(path, Mailbox { new: m.new.push(e), cur: m.cur })
}

/// A mailbox with one more entry.
pub open spec fn with_loaded(m: Mailbox, e: MailEntry, was_delivered: bool) -> Mailbox {
    if was_delivered {
        Mailbox { new: m.new, cur: m.cur.push(e) }
    } else {
        Mailbox { new: m.new.push(e), cur: m.cur }
    }
}

/// A store with one more entry.
pub open spec fn loaded(
    store: Map<Seq<char>, Mailbox>,
    path: Seq<char>,
    e: MailEntry,
    was_delivered: bool,
) -> Map<Seq<char>, Mailbox> {
    store.insert(path, with_loaded(mailbox_at(store, path), e, was_delivered))
}

/// The messages among `entries`, each with whether it was delivered.
pub open spec fn readable(entries: Seq<MailEntry>, was_delivered: bool) -> Seq<Listed>
    decreases entries.len(),
{
    if entries.len() == 0 {
        Seq::empty()
    } else {
        let rest = readable(entries.drop_last(), was_delivered);
        match entries.last().message {
            Some(m) => rest.push((m, was_delivered)),
            None => rest,
        }
    }
}

/// All messages of a mailbox: the pending ones, then the delivered ones.
pub open spec fn listed(m: Mailbox) -> Seq<Listed> {
    readable(m.new, false) + readable(m.cur, true)
}

fn add_readable(out: &mut Vec<Listed>, entries: &Vec<MailEntry>, was_delivered: bool)
    ensures
        final(out)@ == old(out)@ + readable(entries@, was_delivered),
{
    let ghost start = out@;
    let mut i: usize = 0;
    assert(start + readable(entries@.take(0), was_delivered) == start);
    while i < entries.len()
        invariant
            i <= entries@.len(),
            out@ == start + readable(entries@.take(i as int), was_delivered),
        decreases entries@.len() - i,
    {
        assert(entries@.take(i + 1).drop_last() == entries@.take(i as int));
        if let Some(m) = &entries[i].message {
            out.push((clone_message(m), was_delivered));
        }
        i += 1;
    }
    assert(entries@.take(i as int) == entries@);
}

// ---------------------------------------------------------------------------
// Order of time

/// What messages are ordered by.
pub open spec fn time_keys(ms: Seq<Listed>) -> Seq<(u64, u64)> {
    Seq::new(ms.len(), |i: int| (ms[i].0.timestamp, 0u64))
}

/// The messages in order of time, the oldest first; messages of one second
/// stay in the order in which they stand.
pub open spec fn by_time(ms: Seq<Listed>) -> Seq<Listed> {
    order::pick(ms, order::stable_order(time_keys(ms)))
}

/// Sorts messages by time.
pub fn sort_by_time(ms: &Vec<Listed>) -> (r: Vec<Listed>)
    ensures
        r@ == by_time(ms@),
{
    let mut keys: Vec<(u64, u64)> = Vec::new();
    let mut i: usize = 0;
    while i < ms.len()
        invariant
            i <= ms@.len(),
            keys@ == time_keys(ms@).take(i as int),
        decreases ms@.len() - i,
    {
        keys.push((ms[i].0.timestamp, 0));
        i += 1;
        assert(time_keys(ms@).take(i as int) == time_keys(ms@).take(i - 1).push(
            time_keys(ms@)[i - 1],
        ));
    }
    assert(time_keys(ms@).take(i as int) == time_keys(ms@));
    let order: Vec<usize> = order_by(&keys);
    let mut out: Vec<Listed> = Vec::new();
    let mut k: usize = 0;
    while k < order.len()
        invariant
            k <= order@.len(),
            order@ == order::stable_order(time_keys(ms@)),
            forall|j: int| 0 <= j < order@.len() ==> (#[trigger] order@[j]) < ms@.len(),
            out@ == by_time(ms@).take(k as int),
        decreases order@.len() - k,
    {
        let at: usize = order[k];
        out.push((clone_message(&ms[at].0), ms[at].1));
        k += 1;
        assert(by_time(ms@).take(k as int) == by_time(ms@).take(k - 1).push(by_time(ms@)[k - 1]));
    }
    assert(by_time(ms@).take(k as int) == by_time(ms@));
    out
}

/// Sorting by time keeps every message, once, and puts the older one first.
pub proof fn law_sorting_by_time(ms: Seq<Listed>)
    requires
        ms.len() <= usize::MAX,
    ensures
        by_time(ms).len() == ms.len(),
        forall|i: int, j: int|
            0 <= i < j < ms.len() ==> (#[trigger] by_time(ms)[i]).0.timestamp <= (
            #[trigger] by_time(ms)[j]).0.timestamp,
        forall|x: Listed| #[trigger] ms.contains(x) <==> by_time(ms).contains(x),
{
    let keys = time_keys(ms);
    order::law_stable_order(keys);
    let o = order::stable_order(keys);
    assert forall|i: int, j: int| 0 <= i < j < ms.len() implies (#[trigger] by_time(
        ms,
    )[i]).0.timestamp <= (#[trigger] by_time(ms)[j]).0.timestamp by {
        assert(order::key_le(keys[o[i] as int], keys[o[j] as int]));
    }
    assert forall|x: Listed| #[trigger] ms.contains(x) <==> by_time(ms).contains(x) by {
        if ms.contains(x) {
            let k = choose|k: int| 0 <= k < ms.len() && ms[k] == x;
            assert(o.contains(k as usize));
            let m = choose|m: int| 0 <= m < o.len() && o[m] == k as usize;
            assert(by_time(ms)[m] == x);
        }
        if by_time(ms).contains(x) {
            let m = choose|m: int| 0 <= m < by_time(ms).len() && by_time(ms)[m] == x;
            assert(o[m] < ms.len());
            assert(ms[o[m] as int] == x);
        }
    }
}

/// One more message is sorted in behind those that are not younger, and the
/// order of the others stays.
pub proof fn law_one_more_message(ms: Seq<Listed>, x: Listed)
    requires
        ms.len() < usize::MAX,
    ensures
        exists|k: int|
            {
                &&& 0 <= k <= by_time(ms).len()
                &&& by_time(ms.push(x)) == #[trigger] by_time(ms).insert(k, x)
                &&& forall|i: int|
                    0 <= i < k ==> (#[trigger] by_time(ms)[i]).0.timestamp <= x.0.timestamp
                &&& forall|i: int|
                    k <= i < by_time(ms).len() ==> (#[trigger] by_time(ms)[i]).0.timestamp
                        > x.0.timestamp
            },
{
    let keys = time_keys(ms);
    let key = (x.0.timestamp, 0u64);
    let o = order::stable_order(keys);
    let k = order::rank(keys, o, key) as int;
    order::law_stable_order(keys);
    order::law_one_more_key(keys, key, k);
    assert(time_keys(ms.push(x)) =~= keys.push(key));
    let after = by_time(ms.push(x));
    o.insert_ensures(k, keys.len() as usize);
    by_time(ms).insert_ensures(k, x);
    assert(after.len() == by_time(ms).len() + 1);
    assert forall|i: int| 0 <= i < after.len() implies after[i] == by_time(ms).insert(k, x)[i] by {
        let o1 = o.insert(k, keys.len() as usize);
        if i < k {
            assert(o1[i] == o[i]);
        } else if i > k {
            assert(o1[i] == o[i - 1]);
        }
    }
    assert(after =~= by_time(ms).insert(k, x));
    assert forall|i: int| 0 <= i < k implies (#[trigger] by_time(ms)[i]).0.timestamp
        <= x.0.timestamp by {
        assert(order::key_le(keys[o[i] as int], key));
    }
    assert forall|i: int| k <= i < by_time(ms).len() implies (#[trigger] by_time(
        ms,
    )[i]).0.timestamp > x.0.timestamp by {
        assert(!order::key_le(keys[o[i] as int], key));
    }
}

} // verus!
