//! The inbox of each member: delivery, reading, expiry and purging.
//!
//! Each member has a mailbox at `<inboxes root>/<member>`. What time it is
//! comes in as an argument; the functions without it read the clock.

use vstd::prelude::*;
use vstd::string::*;

use crate::clock;
use crate::clock::{now_unix, Duration};
use crate::inbox;
use crate::inbox::{clone_message, message_signature, InboxMessage, InboxPurgeSummary, Listed};
use crate::mail;
use crate::mail::{sort_by_time, MailEntry, MailStore, Mailbox};
use crate::order;
use crate::paths;
use crate::paths::joined;
use crate::text::{copy, same};

verus! {

/// Where a member's mailbox is.
pub open spec fn inbox_path(inboxes_root: Seq<char>, member: Seq<char>) -> Seq<char> {
    paths::join_path(inboxes_root, member)
}

/// The messages of a list.
pub open spec fn messages_of(ls: Seq<Listed>) -> Seq<InboxMessage> {
    Seq::new(ls.len(), |i: int| ls[i].0)
}

/// The pending messages of a mailbox, the oldest first.
pub open spec fn pending_in(m: Mailbox) -> Seq<InboxMessage> {
    messages_of(mail::by_time(mail::readable(m.new, false)))
}

/// All messages of a mailbox, the oldest first.
pub open spec fn all_in(m: Mailbox) -> Seq<Listed> {
    mail::by_time(mail::listed(m))
}

/// Drops whether each message was delivered.
pub fn strip(ls: Vec<Listed>) -> (r: Vec<InboxMessage>)
    ensures
        r@ == messages_of(ls@),
{
    let mut out: Vec<InboxMessage> = Vec::new();
    let mut i: usize = 0;
    while i < ls.len()
        invariant
            i <= ls@.len(),
            out@ == messages_of(ls@).take(i as int),
        decreases ls@.len() - i,
    {
        out.push(clone_message(&ls[i].0));
        i += 1;
        assert(messages_of(ls@).take(i as int) == messages_of(ls@).take(i - 1).push(
            messages_of(ls@)[i - 1],
        ));
    }
    assert(messages_of(ls@).take(i as int) == messages_of(ls@));
    out
}

/// Creates a member's mailbox where it is missing.
pub fn init_inbox(store: &mut MailStore, inboxes_root: &str, member: &str)
    requires
        old(store).wf(),
    ensures
        final(store).wf(),
        final(store)@ == mail::created(old(store)@, inbox_path(inboxes_root@, member@)),
{
    store.create(joined(inboxes_root, member).as_str());
}

/// The store after `msg` was delivered at `path` under `id`.
pub open spec fn is_delivery(
    before: Map<Seq<char>, Mailbox>,
    after: Map<Seq<char>, Mailbox>,
    path: Seq<char>,
    msg: InboxMessage,
    id: Seq<char>,
) -> bool {
    exists|e: MailEntry|
        {
            &&& e.id@ == id
            &&& !e.is_flagged
            &&& e.message matches Some(m) && mail::is_filed_as(m, msg, id)
            &&& after == #[trigger] mail::stored(before, path, e)
        }
}

/// The id is not in use among the pending messages at `path`.
pub open spec fn is_fresh(store: Map<Seq<char>, Mailbox>, path: Seq<char>, id: Seq<char>) -> bool {
    mail::entry_index(mail::mailbox_at(store, path).new, id, 0) is None
}

/// Delivers a message to the mailbox of its recipient, under an id that is
/// not in use there, and returns that id.
pub fn deliver_to_inbox(store: &mut MailStore, inboxes_root: &str, msg: &InboxMessage, id: &str) -> (r:
    String)
    requires
        old(store).wf(),
        is_fresh(old(store)@, inbox_path(inboxes_root@, msg.to@), id@),
    ensures
        final(store).wf(),
        r@ == id@,
        is_delivery(
            old(store)@,
            final(store)@,
            inbox_path(inboxes_root@, msg.to@),
            *msg,
            id@,
        ),
{
    store.store_new(joined(inboxes_root, msg.to.as_str()).as_str(), msg, id);
    copy(id)
}

/// Reads the pending messages of the mailbox at `path`.
pub fn pending_at(store: &MailStore, path: &str) -> (r: Vec<InboxMessage>)
    requires
        store.wf(),
    ensures
        r@ == pending_in(mail::mailbox_at(store@, path@)),
{
    strip(sort_by_time(&store.list_new(path)))
}

/// Lists the pending messages of a member, the oldest first.
pub fn pending_messages(store: &MailStore, inboxes_root: &str, member: &str) -> (r: Vec<
    InboxMessage,
>)
    requires
        store.wf(),
    ensures
        r@ == pending_in(mail::mailbox_at(store@, inbox_path(inboxes_root@, member@))),
{
    pending_at(store, joined(inboxes_root, member).as_str())
}

/// Counts the pending entries of a member, unreadable ones too.
pub fn pending_message_count(store: &MailStore, inboxes_root: &str, member: &str) -> (r: usize)
    requires
        store.wf(),
    ensures
        r == mail::mailbox_at(store@, inbox_path(inboxes_root@, member@)).new.len(),
{
    store.count_new(joined(inboxes_root, member).as_str())
}

/// Lists all messages of a member, the oldest first, each with whether it was
/// delivered.
pub fn all_messages(store: &MailStore, inboxes_root: &str, member: &str) -> (r: Vec<Listed>)
    requires
        store.wf(),
    ensures
        r@ == all_in(mail::mailbox_at(store@, inbox_path(inboxes_root@, member@))),
{
    sort_by_time(&store.list(joined(inboxes_root, member).as_str()))
}

/// The store after the entry `id` at `path` was marked as delivered.
pub open spec fn marked(
    store: Map<Seq<char>, Mailbox>,
    path: Seq<char>,
    id: Seq<char>,
) -> Map<Seq<char>, Mailbox> {
    store.insert(path, mail::delivered(mail::mailbox_at(store, path), id))
}

/// Marks a pending message as delivered. Fails where none has this id.
pub fn mark_delivered(store: &mut MailStore, inboxes_root: &str, member: &str, id: &str) -> (r:
    Result<(), String>)
    requires
        old(store).wf(),
    ensures
        final(store).wf(),
        r is Err <==> is_fresh(old(store)@, inbox_path(inboxes_root@, member@), id@),
        r is Ok ==> final(store)@ == marked(
            old(store)@,
            inbox_path(inboxes_root@, member@),
            id@,
        ),
        r matches Err(e) ==> e@ == "failed to mark message '"@ + id@ + "' as delivered for '"@
            + member@ + "'"@ && final(store)@ == old(store)@,
{
    if store.move_new_to_cur(joined(inboxes_root, member).as_str(), id) {
        Ok(())
    } else {
        Err(
            copy("failed to mark message '").concat(id).concat("' as delivered for '").concat(
                member,
            ).concat("'"),
        )
    }
}

/// Deletes a message, pending or delivered. Fails where none has this id.
pub fn delete_message(store: &mut MailStore, inboxes_root: &str, member: &str, id: &str) -> (r:
    Result<(), String>)
    requires
        old(store).wf(),
    ensures
        final(store).wf(),
        r is Ok <==> mail::has_entry(
            mail::mailbox_at(old(store)@, inbox_path(inboxes_root@, member@)),
            id@,
        ),
        r is Ok ==> final(store)@ == old(store)@.insert(
            inbox_path(inboxes_root@, member@),
            mail::deleted(
                mail::mailbox_at(old(store)@, inbox_path(inboxes_root@, member@)),
                id@,
            ),
        ),
        r matches Err(e) ==> e@ == "failed to delete message '"@ + id@ + "' from '"@ + member@
            + "' inbox"@ && final(store)@ == old(store)@,
{
    if store.delete(joined(inboxes_root, member).as_str(), id) {
        Ok(())
    } else {
        Err(
            copy("failed to delete message '").concat(id).concat("' from '").concat(member).concat(
                "' inbox",
            ),
        )
    }
}

// ---------------------------------------------------------------------------
// Recent messages

/// The messages dated at or after `cutoff`.
pub open spec fn since(ls: Seq<Listed>, cutoff: u64) -> Seq<InboxMessage>
    decreases ls.len(),
{
    if ls.len() == 0 {
        Seq::empty()
    } else {
        let rest = since(ls.drop_last(), cutoff);
        if ls.last().0.timestamp >= cutoff {
            rest.push(ls.last().0)
        } else {
            rest
        }
    }
}

/// The messages of a mailbox that are at most `max_age` whole seconds old,
/// pending and delivered, the oldest first.
pub open spec fn recent_in(m: Mailbox, now: u64, max_age: Duration) -> Seq<InboxMessage> {
    since(all_in(m), clock::seconds_since(max_age.secs, now))
}

/// Reads the recent messages of a member as of `now`.
pub fn read_recent_messages_at(
    store: &MailStore,
    inboxes_root: &str,
    member: &str,
    now: u64,
    max_age: Duration,
) -> (r: Vec<InboxMessage>)
    requires
        store.wf(),
    ensures
        r@ == recent_in(
            mail::mailbox_at(store@, inbox_path(inboxes_root@, member@)),
            now,
            max_age,
        ),
{
    let cutoff: u64 = now.saturating_sub(max_age.as_secs());
    let all: Vec<Listed> = all_messages(store, inboxes_root, member);
    let mut out: Vec<InboxMessage> = Vec::new();
    let mut i: usize = 0;
    while i < all.len()
        invariant
            i <= all@.len(),
            out@ == since(all@.take(i as int), cutoff),
        decreases all@.len() - i,
    {
        assert(all@.take(i + 1).drop_last() == all@.take(i as int));
        if all[i].0.timestamp >= cutoff {
            out.push(clone_message(&all[i].0));
        }
        i += 1;
    }
    assert(all@.take(i as int) == all@);
    out
}

/// Reads the recent messages of a member, by the clock.
pub fn read_recent_messages(
    store: &MailStore,
    inboxes_root: &str,
    member: &str,
    max_age: Duration,
) -> (r: Vec<InboxMessage>)
    requires
        store.wf(),
    ensures
        exists|now: u64|
            r@ == #[trigger] recent_in(
                mail::mailbox_at(store@, inbox_path(inboxes_root@, member@)),
                now,
                max_age,
            ),
{
    let now: u64 = now_unix();
    read_recent_messages_at(store, inboxes_root, member, now, max_age)
}

/// `existing` says the same as `new_msg`: same sender, same type, same
/// signature.
pub open spec fn is_duplicate(existing: InboxMessage, new_msg: InboxMessage) -> bool {
    &&& existing.from@ == new_msg.from@
    &&& existing.msg_type == new_msg.msg_type
    &&& inbox::signature(existing.body@) == inbox::signature(new_msg.body@)
}

/// The last duplicate of `new_msg` in `ms`.
pub open spec fn last_duplicate(ms: Seq<InboxMessage>, new_msg: InboxMessage) -> Option<
    InboxMessage,
>
    decreases ms.len(),
{
    if ms.len() == 0 {
        None
    } else if is_duplicate(ms.last(), new_msg) {
        Some(ms.last())
    } else {
        last_duplicate(ms.drop_last(), new_msg)
    }
}

/// Finds the most recent duplicate of a message within the window that ends
/// at `now`.
pub fn find_recent_duplicate_at(
    store: &MailStore,
    inboxes_root: &str,
    member: &str,
    new_msg: &InboxMessage,
    now: u64,
    max_age: Duration,
) -> (r: Option<InboxMessage>)
    requires
        store.wf(),
    ensures
        r == last_duplicate(
            recent_in(
                mail::mailbox_at(store@, inbox_path(inboxes_root@, member@)),
                now,
                max_age,
            ),
            *new_msg,
        ),
{
    let signature: u64 = message_signature(new_msg.body.as_str());
    let recent: Vec<InboxMessage> = read_recent_messages_at(
        store,
        inboxes_root,
        member,
        now,
        max_age,
    );
    let mut i: usize = recent.len();
    assert(recent@.take(i as int) == recent@);
    while i > 0
        invariant
            i <= recent@.len(),
            signature == inbox::signature(new_msg.body@),
            recent@ == recent_in(
                mail::mailbox_at(store@, inbox_path(inboxes_root@, member@)),
                now,
                max_age,
            ),
            last_duplicate(recent@, *new_msg) == last_duplicate(recent@.take(i as int), *new_msg),
        decreases i,
    {
        assert(recent@.take(i as int).drop_last() == recent@.take(i - 1));
        let m: &InboxMessage = &recent[i - 1];
        if same(m.from.as_str(), new_msg.from.as_str()) && m.msg_type == new_msg.msg_type
            && message_signature(m.body.as_str()) == signature {
            return Some(clone_message(m));
        }
        i -= 1;
    }
    None
}

/// Finds the most recent duplicate of a message within the window, by the
/// clock.
pub fn find_recent_duplicate(
    store: &MailStore,
    inboxes_root: &str,
    member: &str,
    new_msg: &InboxMessage,
    max_age: Duration,
) -> (r: Option<InboxMessage>)
    requires
        store.wf(),
    ensures
        exists|now: u64|
            r == last_duplicate(
                #[trigger] recent_in(
                    mail::mailbox_at(store@, inbox_path(inboxes_root@, member@)),
                    now,
                    max_age,
                ),
                *new_msg,
            ),
{
    let now: u64 = now_unix();
    find_recent_duplicate_at(store, inboxes_root, member, new_msg, now, max_age)
}

// ---------------------------------------------------------------------------
// Expiry

/// The message is older than `max_age` at `now`.
pub open spec fn is_stale(m: InboxMessage, now: u64, max_age: Duration) -> bool {
    clock::seconds_since(m.timestamp, now) * 1_000_000_000 > max_age.total_nanos()
}

/// The entry holds a stale message.
pub open spec fn is_stale_entry(e: MailEntry, now: u64, max_age: Duration) -> bool {
    e.message matches Some(m) && is_stale(m, now, max_age)
}

/// The stale ones among `ms`.
pub open spec fn stale_of(ms: Seq<InboxMessage>, now: u64, max_age: Duration) -> Seq<InboxMessage> {
    ms.filter(|m: InboxMessage| is_stale(m, now, max_age))
}

/// What is still pending after an expiry.
pub open spec fn unexpired(new: Seq<MailEntry>, now: u64, max_age: Duration) -> Seq<MailEntry> {
    new.filter(|e: MailEntry| !is_stale_entry(e, now, max_age))
}

/// A delivered file whose name one of `ms` gets when it is delivered.
pub open spec fn is_overwritten(e: MailEntry, ms: Seq<InboxMessage>) -> bool {
    exists|j: int| 0 <= j < ms.len() && mail::is_replaced(e, (#[trigger] ms[j]).id@)
}

/// What is left of delivered files when `ms` are delivered.
pub open spec fn not_overwritten(cur: Seq<MailEntry>, ms: Seq<InboxMessage>) -> Seq<MailEntry> {
    cur.filter(|e: MailEntry| !is_overwritten(e, ms))
}

/// The file of a message that was delivered.
pub open spec fn is_file_of(e: MailEntry, m: InboxMessage) -> bool {
    &&& e.id@ == m.id@
    &&& !e.is_flagged
    &&& e.message == Some(m)
}

/// `after` holds `kept`, and then the files of `ms` in their order.
pub open spec fn is_filed_behind(
    after: Seq<MailEntry>,
    kept: Seq<MailEntry>,
    ms: Seq<InboxMessage>,
) -> bool {
    &&& after.len() == kept.len() + ms.len()
    &&& after.take(kept.len() as int) == kept
    &&& forall|k: int|
        kept.len() <= k < after.len() ==> is_file_of(#[trigger] after[k], ms[k - kept.len()])
}

/// `after` is `before` with its stale messages delivered, in the order in
/// which they are pending.
pub open spec fn is_expiry(
    before: Mailbox,
    after: Mailbox,
    gone: Seq<InboxMessage>,
    now: u64,
    max_age: Duration,
) -> bool {
    &&& gone == stale_of(pending_in(before), now, max_age)
    &&& after.new == unexpired(before.new, now, max_age)
    &&& is_filed_behind(after.cur, not_overwritten(before.cur, gone), gone)
}

spec fn ids_differ(ms: Seq<InboxMessage>) -> bool {
    forall|a: int, b: int|
        0 <= a < b < ms.len() ==> (#[trigger] ms[a]).id@ != (#[trigger] ms[b]).id@
}

/// The entry has the id of one of `ms`.
spec fn is_hit(e: MailEntry, ms: Seq<InboxMessage>) -> bool {
    exists|j: int| 0 <= j < ms.len() && e.id@ == (#[trigger] ms[j]).id@
}

proof fn lemma_readable(entries: Seq<MailEntry>, d: bool)
    requires
        mail::distinct_ids(entries),
        forall|i: int| 0 <= i < entries.len() ==> mail::is_labelled(#[trigger] entries[i]),
    ensures
        forall|k: int|
            0 <= k < mail::readable(entries, d).len() ==> exists|i: int|
                0 <= i < entries.len() && (#[trigger] entries[i]).message == Some(
                    (#[trigger] mail::readable(entries, d)[k]).0,
                ) && mail::readable(entries, d)[k].1 == d,
        forall|i: int|
            0 <= i < entries.len() && entries[i].message is Some ==> exists|k: int|
                0 <= k < mail::readable(entries, d).len() && (#[trigger] mail::readable(
                    entries,
                    d,
                )[k]).0 == (#[trigger] entries[i]).message->Some_0,
        forall|a: int, b: int|
            0 <= a < b < mail::readable(entries, d).len() ==> (#[trigger] mail::readable(
                entries,
                d,
            )[a]).0.id@ != (#[trigger] mail::readable(entries, d)[b]).0.id@,
    decreases entries.len(),
{
    if entries.len() > 0 {
        let front = entries.drop_last();
        let last = entries.last();
        assert forall|i: int| 0 <= i < front.len() implies mail::is_labelled(
            #[trigger] front[i],
        ) by {
            assert(front[i] == entries[i]);
        }
        assert forall|i: int, j: int| 0 <= i < j < front.len() implies (#[trigger] front[i]).id@
            != (#[trigger] front[j]).id@ by {
            assert(entries[i].id@ != entries[j].id@);
        }
        lemma_readable(front, d);
        let r0 = mail::readable(front, d);
        let r1 = mail::readable(entries, d);
        assert forall|k: int| 0 <= k < r1.len() implies exists|i: int|
            0 <= i < entries.len() && (#[trigger] entries[i]).message == Some(
                (#[trigger] r1[k]).0,
            ) && r1[k].1 == d by {
            if k < r0.len() {
                assert(r1[k] == r0[k]);
                let i = choose|i: int|
                    0 <= i < front.len() && (#[trigger] front[i]).message == Some(r0[k].0) && r0[k].1
                        == d;
                assert(entries[i].message == Some(r1[k].0));
            } else {
                assert(entries[entries.len() - 1].message == Some(r1[k].0));
            }
        }
        assert forall|i: int| 0 <= i < entries.len() && entries[i].message is Some implies exists|
            k: int,
        |
            0 <= k < r1.len() && (#[trigger] r1[k]).0 == (
            #[trigger] entries[i]).message->Some_0 by {
            if i < front.len() {
                assert(front[i] == entries[i]);
                let k = choose|k: int|
                    0 <= k < r0.len() && (#[trigger] r0[k]).0 == front[i].message->Some_0;
                assert(r1[k] == r0[k]);
            } else {
                assert(r1[r1.len() - 1].0 == entries[i].message->Some_0);
            }
        }
        assert forall|a: int, b: int| 0 <= a < b < r1.len() implies (#[trigger] r1[a]).0.id@ != (
        #[trigger] r1[b]).0.id@ by {
            if b < r0.len() {
                assert(r1[a] == r0[a] && r1[b] == r0[b]);
            } else {
                assert(r1[a] == r0[a]);
                let i = choose|i: int|
                    0 <= i < front.len() && (#[trigger] front[i]).message == Some(r0[a].0) && r0[a].1
                        == d;
                assert(mail::is_labelled(entries[i]));
                assert(mail::is_labelled(entries[entries.len() - 1]));
                assert(entries[i].id@ != entries[entries.len() - 1].id@);
            }
        }
    }
}

/// One of the entries holds this message.
pub open spec fn is_held(entries: Seq<MailEntry>, m: InboxMessage) -> bool {
    exists|i: int| 0 <= i < entries.len() && (#[trigger] entries[i]).message == Some(m)
}

proof fn lemma_pending(m: Mailbox)
    requires
        mail::is_sound(m),
        mail::readable(m.new, false).len() <= usize::MAX,
    ensures
        ids_differ(pending_in(m)),
        forall|x: InboxMessage| #[trigger] pending_in(m).contains(x) ==> is_held(m.new, x),
        forall|x: InboxMessage| #[trigger] is_held(m.new, x) ==> pending_in(m).contains(x),
{
    let r = mail::readable(m.new, false);
    let keys = mail::time_keys(r);
    let o = order::stable_order(keys);
    let p = pending_in(m);
    order::law_stable_order(keys);
    assert(ids_differ(p)) by {
        lemma_readable(m.new, false);
        assert forall|a: int, b: int| 0 <= a < b < p.len() implies (#[trigger] p[a]).id@ != (
        #[trigger] p[b]).id@ by {
            assert(p[a] == r[o[a] as int].0);
            assert(p[b] == r[o[b] as int].0);
            if o[a] < o[b] {
                assert(r[o[a] as int].0.id@ != r[o[b] as int].0.id@);
            } else {
                assert(r[o[b] as int].0.id@ != r[o[a] as int].0.id@);
            }
        }
    }
    assert forall|x: InboxMessage| #[trigger] p.contains(x) implies is_held(m.new, x) by {
        lemma_readable(m.new, false);
        let k = choose|k: int| 0 <= k < p.len() && p[k] == x;
        assert(p[k] == r[o[k] as int].0);
    }
    assert forall|x: InboxMessage| #[trigger] is_held(m.new, x) implies p.contains(x) by {
        lemma_readable(m.new, false);
        let i = choose|i: int| 0 <= i < m.new.len() && (#[trigger] m.new[i]).message == Some(x);
        let j = choose|j: int| 0 <= j < r.len() && (#[trigger] r[j]).0 == m.new[i].message->Some_0;
        assert(o.contains(j as usize));
        let k = choose|k: int| 0 <= k < o.len() && o[k] == j as usize;
        assert(p[k] == r[j].0);
    }
}

proof fn lemma_filter_ids(ms: Seq<InboxMessage>, p: spec_fn(InboxMessage) -> bool)
    requires
        ids_differ(ms),
    ensures
        ids_differ(ms.filter(p)),
        forall|x: InboxMessage| #[trigger]
            ms.filter(p).contains(x) <==> ms.contains(x) && p(x),
    decreases ms.len(),
{
    reveal(Seq::filter);
    broadcast use vstd::seq_lib::group_seq_properties;

    if ms.len() > 0 {
        let front = ms.drop_last();
        assert(ms == front.push(ms.last()));
        assert forall|a: int, b: int| 0 <= a < b < front.len() implies (#[trigger] front[a]).id@
            != (#[trigger] front[b]).id@ by {
            assert(ms[a].id@ != ms[b].id@);
        }
        lemma_filter_ids(front, p);
        let f0 = front.filter(p);
        let f1 = ms.filter(p);
        assert forall|x: InboxMessage| #[trigger] f1.contains(x) <==> ms.contains(x) && p(x) by {
            assert(f0.contains(x) <==> front.contains(x) && p(x));
        }
        assert forall|a: int, b: int| 0 <= a < b < f1.len() implies (#[trigger] f1[a]).id@ != (
        #[trigger] f1[b]).id@ by {
            assert(f1[a] == f0[a]);
            if b < f0.len() {
                assert(f1[b] == f0[b]);
            } else {
                assert(f0.contains(f0[a]));
                let i = choose|i: int| 0 <= i < front.len() && front[i] == f0[a];
                assert(ms[i].id@ != ms[ms.len() - 1].id@);
            }
        }
    }
}

proof fn lemma_filter_same(s: Seq<MailEntry>, p: spec_fn(MailEntry) -> bool, q: spec_fn(
    MailEntry,
) -> bool)
    requires
        forall|i: int| 0 <= i < s.len() ==> p(#[trigger] s[i]) == q(s[i]),
    ensures
        s.filter(p) == s.filter(q),
    decreases s.len(),
{
    reveal(Seq::filter);
    if s.len() > 0 {
        assert forall|i: int| 0 <= i < s.drop_last().len() implies p(#[trigger] s.drop_last()[i])
            == q(s.drop_last()[i]) by {
            assert(s.drop_last()[i] == s[i]);
        }
        lemma_filter_same(s.drop_last(), p, q);
        assert(p(s[s.len() - 1]) == q(s[s.len() - 1]));
    }
}

proof fn lemma_filter_all(s: Seq<MailEntry>, p: spec_fn(MailEntry) -> bool)
    requires
        forall|i: int| 0 <= i < s.len() ==> p(#[trigger] s[i]),
    ensures
        s.filter(p) == s,
    decreases s.len(),
{
    reveal(Seq::filter);
    if s.len() > 0 {
        assert forall|i: int| 0 <= i < s.drop_last().len() implies p(
            #[trigger] s.drop_last()[i],
        ) by {
            assert(s.drop_last()[i] == s[i]);
        }
        lemma_filter_all(s.drop_last(), p);
        assert(p(s[s.len() - 1]));
        assert(s == s.drop_last().push(s.last()));
    }
}

/// Removing the one entry with an id is filtering that id out.
proof fn lemma_remove_is_filter(s: Seq<MailEntry>, i: int)
    requires
        mail::distinct_ids(s),
        0 <= i < s.len(),
    ensures
        s.remove(i) == s.filter(|e: MailEntry| e.id@ != s[i].id@),
    decreases s.len(),
{
    reveal(Seq::filter);
    let p = |e: MailEntry| e.id@ != s[i].id@;
    let front = s.drop_last();
    if i == s.len() - 1 {
        assert forall|k: int| 0 <= k < front.len() implies p(#[trigger] front[k]) by {
            assert(s[k].id@ != s[i].id@);
        }
        lemma_filter_all(front, p);
        assert(s.remove(i) == front);
    } else {
        assert forall|a: int, b: int| 0 <= a < b < front.len() implies (#[trigger] front[a]).id@
            != (#[trigger] front[b]).id@ by {
            assert(s[a].id@ != s[b].id@);
        }
        lemma_remove_is_filter(front, i);
        assert(front[i] == s[i]);
        assert(s[i].id@ != s[s.len() - 1].id@);
        assert(p(s.last()));
        assert(s.remove(i) == front.remove(i).push(s.last()));
    }
}

proof fn lemma_filter_twice(
    s: Seq<MailEntry>,
    p: spec_fn(MailEntry) -> bool,
    q: spec_fn(MailEntry) -> bool,
)
    ensures
        s.filter(p).filter(q) == s.filter(|e: MailEntry| p(e) && q(e)),
    decreases s.len(),
{
    reveal(Seq::filter);
    if s.len() > 0 {
        lemma_filter_twice(s.drop_last(), p, q);
        let f = s.drop_last().filter(p);
        if p(s.last()) {
            assert(s.filter(p) == f.push(s.last()));
            assert(f.push(s.last()).drop_last() == f);
        }
    }
}

proof fn lemma_filter_members(s: Seq<MailEntry>, p: spec_fn(MailEntry) -> bool)
    requires
        mail::distinct_ids(s),
    ensures
        mail::distinct_ids(s.filter(p)),
        forall|k: int|
            0 <= k < s.filter(p).len() ==> p(#[trigger] s.filter(p)[k]) && s.contains(
                s.filter(p)[k],
            ),
        forall|x: MailEntry| s.contains(x) && p(x) ==> #[trigger] s.filter(p).contains(x),
    decreases s.len(),
{
    reveal(Seq::filter);
    broadcast use vstd::seq_lib::group_seq_properties;

    if s.len() > 0 {
        let front = s.drop_last();
        assert(s == front.push(s.last()));
        assert forall|a: int, b: int| 0 <= a < b < front.len() implies (#[trigger] front[a]).id@
            != (#[trigger] front[b]).id@ by {
            assert(s[a].id@ != s[b].id@);
        }
        lemma_filter_members(front, p);
        let f0 = front.filter(p);
        let f1 = s.filter(p);
        assert forall|k: int| 0 <= k < f1.len() implies p(#[trigger] f1[k]) && s.contains(
            f1[k],
        ) by {
            if k < f0.len() {
                assert(f1[k] == f0[k]);
                assert(front.contains(f0[k]));
            } else {
                assert(s[s.len() - 1] == f1[k]);
            }
        }
        assert forall|a: int, b: int| 0 <= a < b < f1.len() implies (#[trigger] f1[a]).id@ != (
        #[trigger] f1[b]).id@ by {
            assert(f1[a] == f0[a]);
            assert(front.contains(f0[a]));
            if b < f0.len() {
                assert(f1[b] == f0[b]);
            } else {
                let i = choose|i: int| 0 <= i < front.len() && front[i] == f0[a];
                assert(s[i].id@ != s[s.len() - 1].id@);
            }
        }
        assert forall|x: MailEntry| s.contains(x) && p(x) implies #[trigger] f1.contains(x) by {
            if front.contains(x) {
                assert(f0.contains(x));
            }
        }
    }
}

/// One more stale message is delivered.
proof fn lemma_expire_step(
    before: Mailbox,
    stale: Seq<InboxMessage>,
    k: int,
    now: Mailbox,
    i: Option<int>,
)
    requires
        mail::is_sound(before),
        ids_differ(stale),
        0 <= k < stale.len(),
        now.new == before.new.filter(|e: MailEntry| !is_hit(e, stale.take(k))),
        i == mail::entry_index(now.new, stale[k].id@, 0),
        is_held(before.new, stale[k]),
    ensures
        i is Some,
        0 <= i->Some_0 < now.new.len(),
        is_file_of(now.new[i->Some_0], stale[k]),
        now.new.remove(i->Some_0) == before.new.filter(
            |e: MailEntry| !is_hit(e, stale.take(k + 1)),
        ),
{
    let p = |e: MailEntry| !is_hit(e, stale.take(k));
    let id = stale[k].id@;
    lemma_filter_members(before.new, p);
    let j = choose|j: int|
        0 <= j < before.new.len() && (#[trigger] before.new[j]).message == Some(stale[k]);
    let e0 = before.new[j];
    assert(mail::is_labelled(e0));
    assert(!is_hit(e0, stale.take(k))) by {
        if is_hit(e0, stale.take(k)) {
            let a = choose|a: int|
                0 <= a < stale.take(k).len() && e0.id@ == (#[trigger] stale.take(k)[a]).id@;
            assert(stale[a].id@ != stale[k].id@);
        }
    }
    assert(before.new.contains(e0));
    assert(now.new.contains(e0));
    let m = choose|m: int| 0 <= m < now.new.len() && now.new[m] == e0;
    if i is None {
        lemma_has_no_entry(now.new, id, 0);
        assert(now.new[m].id@ != id);
    }
    lemma_entry_found(now.new, id, 0);
    let at = i->Some_0;
    if at < m {
        assert(now.new[at].id@ != now.new[m].id@);
    } else if m < at {
        assert(now.new[m].id@ != now.new[at].id@);
    }
    lemma_remove_is_filter(now.new, at);
    let q = |e: MailEntry| e.id@ != now.new[at].id@;
    lemma_filter_twice(before.new, p, q);
    let r = |e: MailEntry| !is_hit(e, stale.take(k + 1));
    assert forall|x: int| 0 <= x < before.new.len() implies (|e: MailEntry| p(e) && q(e))(
        #[trigger] before.new[x],
    ) == r(before.new[x]) by {
        let e = before.new[x];
        if is_hit(e, stale.take(k + 1)) {
            let a = choose|a: int|
                0 <= a < stale.take(k + 1).len() && e.id@ == (#[trigger] stale.take(k + 1)[a]).id@;
            if a < k {
                assert(stale.take(k)[a] == stale.take(k + 1)[a]);
                assert(is_hit(e, stale.take(k)));
            }
        } else {
            assert(stale.take(k + 1)[k] == stale[k]);
            if is_hit(e, stale.take(k)) {
                let a = choose|a: int|
                    0 <= a < stale.take(k).len() && e.id@ == (#[trigger] stale.take(k)[a]).id@;
                assert(stale.take(k + 1)[a] == stale.take(k)[a]);
            }
        }
    }
    lemma_filter_same(before.new, |e: MailEntry| p(e) && q(e), r);
}

proof fn lemma_has_no_entry(entries: Seq<MailEntry>, id: Seq<char>, from: int)
    requires
        mail::entry_index(entries, id, from) is None,
        0 <= from,
    ensures
        forall|i: int| from <= i < entries.len() ==> (#[trigger] entries[i]).id@ != id,
    decreases entries.len() - from,
{
    if from < entries.len() {
        lemma_has_no_entry(entries, id, from + 1);
    }
}

proof fn lemma_entry_found(entries: Seq<MailEntry>, id: Seq<char>, from: int)
    ensures
        mail::entry_index(entries, id, from) matches Some(i) ==> from <= i < entries.len() && 0
            <= i && entries[i].id@ == id,
    decreases entries.len() - from,
{
    if 0 <= from < entries.len() && entries[from].id@ != id {
        lemma_entry_found(entries, id, from + 1);
    }
}

fn select_stale(pending: Vec<InboxMessage>, now: u64, max_age: Duration) -> (r: Vec<InboxMessage>)
    requires
        max_age.nanos < 1_000_000_000,
    ensures
        r@ == stale_of(pending@, now, max_age),
{
    let ghost p = |m: InboxMessage| is_stale(m, now, max_age);
    let mut out: Vec<InboxMessage> = Vec::new();
    let mut i: usize = 0;
    assert(out@ == pending@.take(0).filter(p)) by {
        reveal(Seq::filter);
    }
    while i < pending.len()
        invariant
            i <= pending@.len(),
            max_age.nanos < 1_000_000_000,
            p == (|m: InboxMessage| is_stale(m, now, max_age)),
            out@ == pending@.take(i as int).filter(p),
        decreases pending@.len() - i,
    {
        proof {
            reveal(Seq::filter);
            assert(pending@.take(i + 1).drop_last() == pending@.take(i as int));
        }
        if pending[i].age_at(now).exceeds(&max_age) {
            out.push(clone_message(&pending[i]));
        }
        i += 1;
    }
    assert(pending@.take(i as int) == pending@);
    out
}

/// What no stale message was found for is what is not stale.
proof fn lemma_expired_rest(
    before: Mailbox,
    stale: Seq<InboxMessage>,
    now: u64,
    max_age: Duration,
)
    requires
        mail::is_sound(before),
        forall|x: InboxMessage| #[trigger]
            stale.contains(x) <==> is_held(before.new, x) && is_stale(x, now, max_age),
    ensures
        before.new.filter(|e: MailEntry| !is_hit(e, stale)) == unexpired(
            before.new,
            now,
            max_age,
        ),
{
    let unhit = |e: MailEntry| !is_hit(e, stale);
    let fresh = |e: MailEntry| !is_stale_entry(e, now, max_age);
    assert forall|i: int| 0 <= i < before.new.len() implies unhit(#[trigger] before.new[i])
        == fresh(before.new[i]) by {
        let e = before.new[i];
        assert(mail::is_labelled(e));
        if is_stale_entry(e, now, max_age) {
            let m = e.message->Some_0;
            assert(is_held(before.new, m));
            assert(stale.contains(m));
            let a = choose|a: int| 0 <= a < stale.len() && stale[a] == m;
            assert(e.id@ == stale[a].id@);
        }
        if is_hit(e, stale) {
            let a = choose|a: int| 0 <= a < stale.len() && e.id@ == (#[trigger] stale[a]).id@;
            assert(stale.contains(stale[a]));
            let x = choose|x: int|
                0 <= x < before.new.len() && (#[trigger] before.new[x]).message == Some(stale[a]);
            assert(mail::is_labelled(before.new[x]));
            if x < i {
                assert(before.new[x].id@ != before.new[i].id@);
            } else if i < x {
                assert(before.new[i].id@ != before.new[x].id@);
            }
        }
    }
    lemma_filter_same(before.new, unhit, fresh);
}

/// The mailbox after the first `k` of the stale messages were delivered.
spec fn is_partly_expired(before: Mailbox, after: Mailbox, stale: Seq<InboxMessage>, k: int) -> bool {
    &&& after.new == before.new.filter(|e: MailEntry| !is_hit(e, stale.take(k)))
    &&& is_filed_behind(after.cur, not_overwritten(before.cur, stale.take(k)), stale.take(k))
}

/// One more delivered file replaces what has its name and is filed last.
proof fn lemma_file_behind(
    before: Seq<MailEntry>,
    cur: Seq<MailEntry>,
    stale: Seq<InboxMessage>,
    k: int,
    e: MailEntry,
)
    requires
        ids_differ(stale),
        0 <= k < stale.len(),
        is_filed_behind(cur, not_overwritten(before, stale.take(k)), stale.take(k)),
        is_file_of(e, stale[k]),
    ensures
        is_filed_behind(
            mail::unreplaced(cur, stale[k].id@).push(e),
            not_overwritten(before, stale.take(k + 1)),
            stale.take(k + 1),
        ),
{
    let id = stale[k].id@;
    let keep = |x: MailEntry| !mail::is_replaced(x, id);
    let p = |x: MailEntry| !is_overwritten(x, stale.take(k));
    let r = |x: MailEntry| !is_overwritten(x, stale.take(k + 1));
    let kept = before.filter(p);
    let moved = cur.skip(kept.len() as int);
    assert(cur =~= kept + moved);
    Seq::filter_distributes_over_add(kept, moved, keep);
    assert forall|j: int| 0 <= j < moved.len() implies keep(#[trigger] moved[j]) by {
        assert(is_file_of(cur[kept.len() + j], stale.take(k)[j]));
        assert(stale[j].id@ != stale[k].id@);
    }
    lemma_filter_all(moved, keep);
    lemma_filter_twice(before, p, keep);
    assert forall|i: int| 0 <= i < before.len() implies (|x: MailEntry| p(x) && keep(x))(
        #[trigger] before[i],
    ) == r(before[i]) by {
        let x = before[i];
        if is_overwritten(x, stale.take(k + 1)) {
            let a = choose|a: int|
                0 <= a < stale.take(k + 1).len() && mail::is_replaced(
                    x,
                    (#[trigger] stale.take(k + 1)[a]).id@,
                );
            if a < k {
                assert(stale.take(k)[a] == stale.take(k + 1)[a]);
                assert(is_overwritten(x, stale.take(k)));
            }
        } else {
            assert(stale.take(k + 1)[k] == stale[k]);
            if is_overwritten(x, stale.take(k)) {
                let a = choose|a: int|
                    0 <= a < stale.take(k).len() && mail::is_replaced(
                        x,
                        (#[trigger] stale.take(k)[a]).id@,
                    );
                assert(stale.take(k + 1)[a] == stale.take(k)[a]);
            }
        }
    }
    lemma_filter_same(before, |x: MailEntry| p(x) && keep(x), r);
    let left = before.filter(r);
    let after = mail::unreplaced(cur, id).push(e);
    assert(after =~= left + moved.push(e));
    assert(after.take(left.len() as int) =~= left);
    assert forall|j: int| left.len() <= j < after.len() implies is_file_of(
        #[trigger] after[j],
        stale.take(k + 1)[j - left.len()],
    ) by {
        let m = j - left.len();
        if m < k {
            assert(after[j] == cur[kept.len() + m]);
            assert(is_file_of(cur[kept.len() + m], stale.take(k)[m]));
        }
    }
}

/// Only the mailbox at `path` differs, and none was added or removed.
spec fn is_local(
    before: Map<Seq<char>, Mailbox>,
    after: Map<Seq<char>, Mailbox>,
    path: Seq<char>,
) -> bool {
    &&& after.dom() == before.dom()
    &&& forall|p: Seq<char>|
        p != path ==> #[trigger] mail::mailbox_at(after, p) == mail::mailbox_at(before, p)
}

fn expire_one(
    store: &mut MailStore,
    path: &str,
    stale: &Vec<InboxMessage>,
    k: usize,
    start: Ghost<Map<Seq<char>, Mailbox>>,
)
    requires
        old(store).wf(),
        k < stale@.len(),
        ids_differ(stale@),
        mail::is_sound(mail::mailbox_at(start@, path@)),
        is_held(mail::mailbox_at(start@, path@).new, stale@[k as int]),
        is_local(start@, old(store)@, path@),
        is_partly_expired(
            mail::mailbox_at(start@, path@),
            mail::mailbox_at(old(store)@, path@),
            stale@,
            k as int,
        ),
    ensures
        final(store).wf(),
        is_local(start@, final(store)@, path@),
        is_partly_expired(
            mail::mailbox_at(start@, path@),
            mail::mailbox_at(final(store)@, path@),
            stale@,
            k + 1,
        ),
{
    let ghost before = mail::mailbox_at(start@, path@);
    let ghost entry = store@;
    let ghost current = mail::mailbox_at(entry, path@);
    let ghost at = mail::entry_index(current.new, stale@[k as int].id@, 0);
    proof {
        lemma_expire_step(before, stale@, k as int, current, at);
    }
    let moved: bool = store.move_new_to_cur(path, stale[k].id.as_str());
    proof {
        assert(moved);
        assert(entry.contains_key(path@));
        let after = mail::delivered(current, stale@[k as int].id@);
        assert(mail::mailbox_at(store@, path@) == after);
        lemma_file_behind(
            before.cur,
            current.cur,
            stale@,
            k as int,
            current.new[at->Some_0],
        );
        assert(store@.dom() =~= start@.dom());
        assert forall|p: Seq<char>| p != path@ implies #[trigger] mail::mailbox_at(store@, p)
            == mail::mailbox_at(start@, p) by {
            assert(mail::mailbox_at(entry, p) == mail::mailbox_at(start@, p));
        }
    }
}

/// Delivers the stale pending messages of the mailbox at `path`, and returns
/// them.
pub fn expire_at(store: &mut MailStore, path: &str, now: u64, max_age: Duration) -> (r: Vec<
    InboxMessage,
>)
    requires
        old(store).wf(),
        max_age.nanos < 1_000_000_000,
    ensures
        final(store).wf(),
        is_expiry(
            mail::mailbox_at(old(store)@, path@),
            mail::mailbox_at(final(store)@, path@),
            r@,
            now,
            max_age,
        ),
        forall|p: Seq<char>|
            p != path@ ==> #[trigger] mail::mailbox_at(final(store)@, p) == mail::mailbox_at(
                old(store)@,
                p,
            ),
        final(store)@.dom() == old(store)@.dom(),
{
    let ghost start = store@;
    let ghost before = mail::mailbox_at(start, path@);
    let listed: Vec<Listed> = store.list_new(path);
    let count: usize = listed.len();
    assert(count == mail::readable(before.new, false).len());
    let stale: Vec<InboxMessage> = select_stale(strip(sort_by_time(&listed)), now, max_age);
    proof {
        store.lemma_sound(path@);
        lemma_pending(before);
        lemma_filter_ids(pending_in(before), |m: InboxMessage| is_stale(m, now, max_age));
        assert forall|x: InboxMessage| #[trigger]
            stale@.contains(x) <==> is_held(before.new, x) && is_stale(x, now, max_age) by {
            assert(pending_in(before).contains(x) <==> is_held(before.new, x));
        }
        let none = |e: MailEntry| !is_hit(e, stale@.take(0));
        assert forall|i: int| 0 <= i < before.new.len() implies none(#[trigger] before.new[i]) by {
        }
        lemma_filter_all(before.new, none);
        let kept = |e: MailEntry| !is_overwritten(e, stale@.take(0));
        assert forall|i: int| 0 <= i < before.cur.len() implies kept(#[trigger] before.cur[i]) by {
        }
        lemma_filter_all(before.cur, kept);
        assert(before.cur.take(before.cur.len() as int) == before.cur);
    }
    let mut k: usize = 0;
    while k < stale.len()
        invariant
            k <= stale@.len(),
            store.wf(),
            before == mail::mailbox_at(start, path@),
            mail::is_sound(before),
            ids_differ(stale@),
            forall|x: InboxMessage| #[trigger]
                stale@.contains(x) <==> is_held(before.new, x) && is_stale(x, now, max_age),
            is_local(start, store@, path@),
            is_partly_expired(before, mail::mailbox_at(store@, path@), stale@, k as int),
        decreases stale@.len() - k,
    {
        assert(stale@.contains(stale@[k as int]));
        expire_one(store, path, &stale, k, Ghost(start));
        k += 1;
    }
    proof {
        assert(stale@.take(k as int) == stale@);
        lemma_expired_rest(before, stale@, now, max_age);
    }
    stale
}

/// Expires the pending messages of a member that are older than `max_age` at
/// `now`, by marking them as delivered.
pub fn expire_stale_pending_messages_at(
    store: &mut MailStore,
    inboxes_root: &str,
    member: &str,
    now: u64,
    max_age: Duration,
) -> (r: Vec<InboxMessage>)
    requires
        old(store).wf(),
        max_age.nanos < 1_000_000_000,
    ensures
        final(store).wf(),
        is_expiry(
            mail::mailbox_at(old(store)@, inbox_path(inboxes_root@, member@)),
            mail::mailbox_at(final(store)@, inbox_path(inboxes_root@, member@)),
            r@,
            now,
            max_age,
        ),
        forall|p: Seq<char>|
            p != inbox_path(inboxes_root@, member@) ==> #[trigger] mail::mailbox_at(
                final(store)@,
                p,
            ) == mail::mailbox_at(old(store)@, p),
        final(store)@.dom() == old(store)@.dom(),
{
    expire_at(store, joined(inboxes_root, member).as_str(), now, max_age)
}

/// Expires the pending messages of a member that are older than `max_age`, by
/// the clock.
pub fn expire_stale_pending_messages(
    store: &mut MailStore,
    inboxes_root: &str,
    member: &str,
    max_age: Duration,
) -> (r: Vec<InboxMessage>)
    requires
        old(store).wf(),
        max_age.nanos < 1_000_000_000,
    ensures
        final(store).wf(),
        exists|now: u64| #[trigger]
            is_expiry(
                mail::mailbox_at(old(store)@, inbox_path(inboxes_root@, member@)),
                mail::mailbox_at(final(store)@, inbox_path(inboxes_root@, member@)),
                r@,
                now,
                max_age,
            ),
        forall|p: Seq<char>|
            p != inbox_path(inboxes_root@, member@) ==> #[trigger] mail::mailbox_at(
                final(store)@,
                p,
            ) == mail::mailbox_at(old(store)@, p),
        final(store)@.dom() == old(store)@.dom(),
{
    let now: u64 = now_unix();
    expire_stale_pending_messages_at(store, inboxes_root, member, now, max_age)
}

// ---------------------------------------------------------------------------
// Purging

/// Removes delivered messages of a member: all, or those dated before
/// `before`. Pending messages stay, and so do delivered entries whose date
/// cannot be read. Returns the number of removed entries.
pub fn purge_delivered_messages(
    store: &mut MailStore,
    inboxes_root: &str,
    member: &str,
    before: Option<u64>,
    purge_all: bool,
) -> (r: usize)
    requires
        old(store).wf(),
    ensures
        final(store).wf(),
        purge_of(
            old(store)@,
            final(store)@,
            inbox_path(inboxes_root@, member@),
            before,
            purge_all,
        ),
        r == purged_count(
            old(store)@,
            inbox_path(inboxes_root@, member@),
            before,
            purge_all,
        ),
{
    store.purge(joined(inboxes_root, member).as_str(), before, purge_all)
}

/// `after` is `store` with the mailbox at `path` purged.
pub open spec fn purge_of(
    store: Map<Seq<char>, Mailbox>,
    after: Map<Seq<char>, Mailbox>,
    path: Seq<char>,
    before: Option<u64>,
    purge_all: bool,
) -> bool {
    after == purged_store(store, path, before, purge_all)
}

/// The store with the mailbox at `path` purged.
pub open spec fn purged_store(
    store: Map<Seq<char>, Mailbox>,
    path: Seq<char>,
    before: Option<u64>,
    purge_all: bool,
) -> Map<Seq<char>, Mailbox> {
    if store.contains_key(path) {
        store.insert(
            path,
            Mailbox {
                new: store[path].new,
                cur: mail::unpurged(store[path].cur, before, purge_all),
            },
        )
    } else {
        store
    }
}

/// How many entries a purge of the mailbox at `path` removes.
pub open spec fn purged_count(
    store: Map<Seq<char>, Mailbox>,
    path: Seq<char>,
    before: Option<u64>,
    purge_all: bool,
) -> nat {
    let cur = mail::mailbox_at(store, path).cur;
    (cur.len() - mail::unpurged(cur, before, purge_all).len()) as nat
}

/// The store after the mailboxes of all `members` were purged in turn.
pub open spec fn purged_for_all(
    store: Map<Seq<char>, Mailbox>,
    inboxes_root: Seq<char>,
    members: Seq<String>,
    before: Option<u64>,
    purge_all: bool,
) -> Map<Seq<char>, Mailbox>
    decreases members.len(),
{
    if members.len() == 0 {
        store
    } else {
        purged_store(
            purged_for_all(store, inboxes_root, members.drop_last(), before, purge_all),
            inbox_path(inboxes_root, members.last()@),
            before,
            purge_all,
        )
    }
}

/// How many entries those purges remove.
pub open spec fn purged_count_for_all(
    store: Map<Seq<char>, Mailbox>,
    inboxes_root: Seq<char>,
    members: Seq<String>,
    before: Option<u64>,
    purge_all: bool,
) -> nat
    decreases members.len(),
{
    if members.len() == 0 {
        0
    } else {
        purged_count_for_all(store, inboxes_root, members.drop_last(), before, purge_all)
            + purged_count(
            purged_for_all(store, inboxes_root, members.drop_last(), before, purge_all),
            inbox_path(inboxes_root, members.last()@),
            before,
            purge_all,
        )
    }
}

proof fn lemma_purged_grows(
    store: Map<Seq<char>, Mailbox>,
    inboxes_root: Seq<char>,
    members: Seq<String>,
    before: Option<u64>,
    purge_all: bool,
    i: int,
)
    requires
        0 <= i <= members.len(),
    ensures
        purged_count_for_all(store, inboxes_root, members.take(i), before, purge_all)
            <= purged_count_for_all(store, inboxes_root, members, before, purge_all),
    decreases members.len() - i,
{
    if i < members.len() {
        lemma_purged_grows(store, inboxes_root, members, before, purge_all, i + 1);
        assert(members.take(i + 1).drop_last() == members.take(i));
    } else {
        assert(members.take(i) == members);
    }
}

/// Purges the delivered messages of every member that has a directory under
/// the inboxes root.
pub fn purge_delivered_messages_for_all(
    store: &mut MailStore,
    inboxes_root: &str,
    members: &Vec<String>,
    before: Option<u64>,
    purge_all: bool,
) -> (r: InboxPurgeSummary)
    requires
        old(store).wf(),
        purged_count_for_all(old(store)@, inboxes_root@, members@, before, purge_all)
            <= usize::MAX,
    ensures
        final(store).wf(),
        final(store)@ == purged_for_all(
            old(store)@,
            inboxes_root@,
            members@,
            before,
            purge_all,
        ),
        r.roles == members@.len(),
        r.messages == purged_count_for_all(
            old(store)@,
            inboxes_root@,
            members@,
            before,
            purge_all,
        ),
{
    let ghost start = store@;
    let mut messages: usize = 0;
    let mut i: usize = 0;
    while i < members.len()
        invariant
            i <= members@.len(),
            store.wf(),
            store@ == purged_for_all(
                start,
                inboxes_root@,
                members@.take(i as int),
                before,
                purge_all,
            ),
            messages == purged_count_for_all(
                start,
                inboxes_root@,
                members@.take(i as int),
                before,
                purge_all,
            ),
            purged_count_for_all(start, inboxes_root@, members@, before, purge_all) <= usize::MAX,
        decreases members@.len() - i,
    {
        proof {
            assert(members@.take(i + 1).drop_last() == members@.take(i as int));
            lemma_purged_grows(start, inboxes_root@, members@, before, purge_all, i + 1);
        }
        messages = messages + purge_delivered_messages(
            store,
            inboxes_root,
            members[i].as_str(),
            before,
            purge_all,
        );
        i += 1;
    }
    assert(members@.take(i as int) == members@);
    InboxPurgeSummary { roles: members.len(), messages }
}

// ---------------------------------------------------------------------------
// Laws

/// What is pending in a mailbox is what its new entries hold: nothing is left
/// out, nothing occurs twice, and the oldest comes first.
pub proof fn law_pending_is_what_is_held(m: Mailbox)
    requires
        mail::is_sound(m),
        mail::readable(m.new, false).len() <= usize::MAX,
    ensures
        forall|x: InboxMessage| #[trigger] pending_in(m).contains(x) <==> is_held(m.new, x),
        forall|i: int, j: int|
            0 <= i < j < pending_in(m).len() ==> (#[trigger] pending_in(m)[i]).id@ != (
            #[trigger] pending_in(m)[j]).id@,
        forall|i: int, j: int|
            0 <= i < j < pending_in(m).len() ==> (#[trigger] pending_in(m)[i]).timestamp <= (
            #[trigger] pending_in(m)[j]).timestamp,
{
    lemma_pending(m);
    mail::law_sorting_by_time(mail::readable(m.new, false));
    let sorted = mail::by_time(mail::readable(m.new, false));
    assert forall|i: int, j: int| 0 <= i < j < pending_in(m).len() implies (#[trigger] pending_in(
        m,
    )[i]).timestamp <= (#[trigger] pending_in(m)[j]).timestamp by {
        assert(sorted[i].0.timestamp <= sorted[j].0.timestamp);
    }
}

/// A delivered message is pending for its recipient under its id, with
/// everything else that was pending there, and no other mailbox changes.
pub proof fn law_delivery_reaches_the_recipient(
    before: Map<Seq<char>, Mailbox>,
    after: Map<Seq<char>, Mailbox>,
    path: Seq<char>,
    msg: InboxMessage,
    id: Seq<char>,
)
    requires
        is_delivery(before, after, path, msg, id),
    ensures
        exists|m: InboxMessage| #[trigger]
            is_held(mail::mailbox_at(after, path).new, m) && mail::is_filed_as(m, msg, id),
        forall|x: InboxMessage|
            is_held(mail::mailbox_at(before, path).new, x) ==> #[trigger] is_held(
                mail::mailbox_at(after, path).new,
                x,
            ),
        mail::mailbox_at(after, path).new.len() == mail::mailbox_at(before, path).new.len() + 1,
        mail::mailbox_at(after, path).cur == mail::mailbox_at(before, path).cur,
        forall|p: Seq<char>|
            p != path ==> #[trigger] mail::mailbox_at(after, p) == mail::mailbox_at(before, p),
{
    let e = choose|e: MailEntry|
        {
            &&& e.id@ == id
            &&& !e.is_flagged
            &&& e.message matches Some(m) && mail::is_filed_as(m, msg, id)
            &&& after == #[trigger] mail::stored(before, path, e)
        };
    let old_new = mail::mailbox_at(before, path).new;
    let new = mail::mailbox_at(after, path).new;
    assert(new == old_new.push(e));
    assert(new[old_new.len() as int] == e);
    assert(is_held(new, e.message->Some_0));
    assert forall|x: InboxMessage| is_held(old_new, x) implies #[trigger] is_held(new, x) by {
        let i = choose|i: int| 0 <= i < old_new.len() && (#[trigger] old_new[i]).message == Some(x);
        assert(new[i] == old_new[i]);
    }
}

/// `after` is `before` with `m` put in behind the messages that are not
/// younger.
pub open spec fn is_put_in(
    before: Seq<InboxMessage>,
    after: Seq<InboxMessage>,
    m: InboxMessage,
) -> bool {
    exists|k: int|
        {
            &&& 0 <= k <= before.len()
            &&& after == #[trigger] before.insert(k, m)
            &&& forall|i: int| 0 <= i < k ==> (#[trigger] before[i]).timestamp <= m.timestamp
            &&& forall|i: int|
                k <= i < before.len() ==> (#[trigger] before[i]).timestamp > m.timestamp
        }
}

/// What is pending for the recipient after a delivery is what was pending
/// before and the message, in its place and under an id that nothing else
/// there has. What was delivered there, and every other mailbox, stays.
pub proof fn law_delivery_adds_one_pending_message(
    before: Map<Seq<char>, Mailbox>,
    after: Map<Seq<char>, Mailbox>,
    path: Seq<char>,
    msg: InboxMessage,
    id: Seq<char>,
)
    requires
        mail::is_sound(mail::mailbox_at(before, path)),
        is_fresh(before, path, id),
        is_delivery(before, after, path, msg, id),
        mail::mailbox_at(before, path).new.len() < usize::MAX,
    ensures
        exists|m: InboxMessage| #[trigger]
            mail::is_filed_as(m, msg, id) && is_put_in(
                pending_in(mail::mailbox_at(before, path)),
                pending_in(mail::mailbox_at(after, path)),
                m,
            ),
        forall|i: int|
            0 <= i < pending_in(mail::mailbox_at(before, path)).len() ==> (
            #[trigger] pending_in(mail::mailbox_at(before, path))[i]).id@ != id,
        mail::mailbox_at(after, path).cur == mail::mailbox_at(before, path).cur,
        forall|p: Seq<char>|
            p != path ==> #[trigger] mail::mailbox_at(after, p) == mail::mailbox_at(before, p),
{
    let e = choose|e: MailEntry|
        {
            &&& e.id@ == id
            &&& !e.is_flagged
            &&& e.message matches Some(m) && mail::is_filed_as(m, msg, id)
            &&& after == #[trigger] mail::stored(before, path, e)
        };
    let m = e.message->Some_0;
    let old_new = mail::mailbox_at(before, path).new;
    let p0 = pending_in(mail::mailbox_at(before, path));
    let p1 = pending_in(mail::mailbox_at(after, path));
    let r = mail::readable(old_new, false);
    lemma_readable_len(old_new, false);
    assert(old_new.push(e).drop_last() =~= old_new);
    assert(mail::readable(old_new.push(e), false) == r.push((m, false)));
    mail::law_one_more_message(r, (m, false));
    let k = choose|k: int|
        {
            &&& 0 <= k <= mail::by_time(r).len()
            &&& mail::by_time(r.push((m, false))) == #[trigger] mail::by_time(r).insert(
                k,
                (m, false),
            )
            &&& forall|i: int|
                0 <= i < k ==> (#[trigger] mail::by_time(r)[i]).0.timestamp <= m.timestamp
            &&& forall|i: int|
                k <= i < mail::by_time(r).len() ==> (#[trigger] mail::by_time(r)[i]).0.timestamp
                    > m.timestamp
        };
    assert(p1 =~= p0.insert(k, m));
    assert forall|i: int| 0 <= i < k implies (#[trigger] p0[i]).timestamp <= m.timestamp by {
        assert(mail::by_time(r)[i].0 == p0[i]);
    }
    assert forall|i: int| k <= i < p0.len() implies (#[trigger] p0[i]).timestamp > m.timestamp by {
        assert(mail::by_time(r)[i].0 == p0[i]);
    }
    assert(is_put_in(p0, p1, m));
    lemma_pending(mail::mailbox_at(before, path));
    assert forall|i: int| 0 <= i < p0.len() implies (#[trigger] p0[i]).id@ != id by {
        assert(p0.contains(p0[i]));
        let j = choose|j: int|
            0 <= j < old_new.len() && (#[trigger] old_new[j]).message == Some(p0[i]);
        assert(mail::is_labelled(old_new[j]));
        lemma_fresh(old_new, id, 0, j);
    }
}

/// No entry has an id that is not found.
proof fn lemma_fresh(entries: Seq<MailEntry>, id: Seq<char>, from: int, j: int)
    requires
        mail::entry_index(entries, id, from) is None,
        0 <= from <= j < entries.len(),
    ensures
        entries[j].id@ != id,
    decreases entries.len() - from,
{
    if from < j {
        lemma_fresh(entries, id, from + 1, j);
    }
}

proof fn lemma_readable_len(entries: Seq<MailEntry>, was_delivered: bool)
    ensures
        mail::readable(entries, was_delivered).len() <= entries.len(),
    decreases entries.len(),
{
    if entries.len() > 0 {
        lemma_readable_len(entries.drop_last(), was_delivered);
    }
}

/// Marking a message as delivered takes exactly that message out of what is
/// pending, and keeps it among what was delivered. Of what was delivered
/// before, only a file with the same name is replaced, and none where nothing
/// delivered has the id.
pub proof fn law_marking_keeps_every_message(m: Mailbox, id: Seq<char>)
    requires
        mail::is_sound(m),
        mail::entry_index(m.new, id, 0) is Some,
    ensures
        mail::delivered(m, id).new == m.new.filter(|e: MailEntry| e.id@ != id),
        mail::delivered(m, id).new.len() + 1 == m.new.len(),
        mail::delivered(m, id).cur.drop_last() == mail::unreplaced(m.cur, id),
        mail::entry_index(m.cur, id, 0) is None ==> mail::unreplaced(m.cur, id) == m.cur,
        mail::delivered(m, id).cur.last().id@ == id,
        m.new.contains(mail::delivered(m, id).cur.last()),
        mail::is_sound(mail::delivered(m, id)),
        mail::entry_index(mail::delivered(m, id).new, id, 0) is None,
{
    lemma_entry_found(m.new, id, 0);
    let i = mail::entry_index(m.new, id, 0)->Some_0;
    lemma_remove_is_filter(m.new, i);
    let keep = |e: MailEntry| e.id@ != id;
    lemma_filter_same(m.new, |e: MailEntry| e.id@ != m.new[i].id@, keep);
    lemma_filter_members(m.new, keep);
    let d = mail::delivered(m, id);
    let kept = |e: MailEntry| !mail::is_replaced(e, id);
    assert(d.cur.drop_last() == m.cur.filter(kept));
    if mail::entry_index(m.cur, id, 0) is None {
        lemma_has_no_entry(m.cur, id, 0);
        lemma_filter_all(m.cur, kept);
    }
    assert(m.new.contains(m.new[i]));
    assert forall|k: int| 0 <= k < d.new.len() implies mail::is_labelled(#[trigger] d.new[k]) by {
        let e = d.new[k];
        assert(m.new.contains(e));
        let j = choose|j: int| 0 <= j < m.new.len() && m.new[j] == e;
        assert(mail::is_labelled(m.new[j]));
    }
    assert forall|k: int| 0 <= k < d.new.len() implies !(#[trigger] d.new[k]).is_flagged by {
        let e = d.new[k];
        assert(m.new.contains(e));
        let j = choose|j: int| 0 <= j < m.new.len() && m.new[j] == e;
        assert(!m.new[j].is_flagged);
    }
    assert forall|k: int| 0 <= k < d.cur.len() implies mail::is_labelled(#[trigger] d.cur[k]) by {
        if k < m.cur.filter(kept).len() {
            assert(d.cur[k] == m.cur.filter(kept)[k]);
            lemma_filter_holds(m.cur, kept, k);
            let j = choose|j: int| 0 <= j < m.cur.len() && m.cur[j] == d.cur[k];
            assert(mail::is_labelled(m.cur[j]));
        } else {
            assert(mail::is_labelled(m.new[i]));
        }
    }
    lemma_entry_found(d.new, id, 0);
    if mail::entry_index(d.new, id, 0) is Some {
        let k = mail::entry_index(d.new, id, 0)->Some_0;
        assert(keep(d.new[k]));
    }
}

/// An expiry leaves nothing stale pending, keeps everything else pending, and
/// files what it takes out among what was delivered. Of what was delivered
/// before, only files with the same names are replaced: where nothing stale
/// has the id of something delivered, no message is lost.
pub proof fn law_expiry_loses_no_message(
    before: Mailbox,
    after: Mailbox,
    gone: Seq<InboxMessage>,
    now: u64,
    max_age: Duration,
)
    requires
        mail::is_sound(before),
        mail::readable(before.new, false).len() <= usize::MAX,
        is_expiry(before, after, gone, now, max_age),
    ensures
        forall|x: InboxMessage| #[trigger]
            is_held(after.new, x) <==> is_held(before.new, x) && !is_stale(x, now, max_age),
        forall|x: InboxMessage|
            is_held(not_overwritten(before.cur, gone), x) || (is_held(before.new, x) && is_stale(
                x,
                now,
                max_age,
            )) ==> #[trigger] is_held(after.cur, x),
        (forall|i: int| 0 <= i < before.cur.len() ==> !is_overwritten(#[trigger] before.cur[i], gone))
            ==> not_overwritten(before.cur, gone) == before.cur,
        forall|x: InboxMessage| #[trigger]
            gone.contains(x) <==> is_held(before.new, x) && is_stale(x, now, max_age),
{
    lemma_pending(before);
    lemma_filter_ids(pending_in(before), |m: InboxMessage| is_stale(m, now, max_age));
    assert forall|x: InboxMessage| #[trigger]
        gone.contains(x) <==> is_held(before.new, x) && is_stale(x, now, max_age) by {
        assert(pending_in(before).contains(x) <==> is_held(before.new, x));
    }
    let fresh = |e: MailEntry| !is_stale_entry(e, now, max_age);
    lemma_filter_members(before.new, fresh);
    assert forall|x: InboxMessage| #[trigger]
        is_held(after.new, x) <==> is_held(before.new, x) && !is_stale(x, now, max_age) by {
        if is_held(after.new, x) {
            let i = choose|i: int|
                0 <= i < after.new.len() && (#[trigger] after.new[i]).message == Some(x);
            assert(before.new.contains(after.new[i]));
            let j = choose|j: int| 0 <= j < before.new.len() && before.new[j] == after.new[i];
            assert(before.new[j].message == Some(x));
            assert(fresh(after.new[i]));
        }
        if is_held(before.new, x) && !is_stale(x, now, max_age) {
            let j = choose|j: int|
                0 <= j < before.new.len() && (#[trigger] before.new[j]).message == Some(x);
            assert(before.new.contains(before.new[j]));
            assert(fresh(before.new[j]));
            assert(after.new.contains(before.new[j]));
            let i = choose|i: int| 0 <= i < after.new.len() && after.new[i] == before.new[j];
            assert(after.new[i].message == Some(x));
        }
    }
    let kept = not_overwritten(before.cur, gone);
    let stays = |e: MailEntry| !is_overwritten(e, gone);
    if forall|i: int| 0 <= i < before.cur.len() ==> !is_overwritten(#[trigger] before.cur[i], gone) {
        assert forall|i: int| 0 <= i < before.cur.len() implies stays(#[trigger] before.cur[i]) by {
        }
        lemma_filter_all(before.cur, stays);
    }
    assert forall|x: InboxMessage|
        is_held(kept, x) || (is_held(before.new, x) && is_stale(
            x,
            now,
            max_age,
        )) implies #[trigger] is_held(after.cur, x) by {
        if is_held(kept, x) {
            let i = choose|i: int| 0 <= i < kept.len() && (#[trigger] kept[i]).message == Some(x);
            assert(after.cur.take(kept.len() as int)[i] == kept[i]);
            assert(after.cur[i] == kept[i]);
        } else {
            assert(gone.contains(x));
            let k = choose|k: int| 0 <= k < gone.len() && gone[k] == x;
            assert(is_file_of(after.cur[kept.len() + k], gone[k]));
        }
    }
}

/// A purge never touches what is pending, nor what was delivered at or after
/// the cutoff, nor any other mailbox.
pub proof fn law_purge_spares_pending_and_recent(
    store: Map<Seq<char>, Mailbox>,
    path: Seq<char>,
    cutoff: u64,
)
    ensures
        mail::mailbox_at(purged_store(store, path, Some(cutoff), false), path).new
            == mail::mailbox_at(store, path).new,
        mail::mailbox_at(purged_store(store, path, None, true), path).new == mail::mailbox_at(
            store,
            path,
        ).new,
        mail::mailbox_at(purged_store(store, path, None, true), path).cur.len() == 0,
        purged_store(store, path, None, false) == store,
        forall|x: InboxMessage|
            is_held(mail::mailbox_at(store, path).cur, x) && x.timestamp >= cutoff
                ==> #[trigger] is_held(
                mail::mailbox_at(purged_store(store, path, Some(cutoff), false), path).cur,
                x,
            ),
        forall|p: Seq<char>|
            p != path ==> #[trigger] mail::mailbox_at(
                purged_store(store, path, Some(cutoff), false),
                p,
            ) == mail::mailbox_at(store, p),
{
    let cur = mail::mailbox_at(store, path).cur;
    let kept = |e: MailEntry| !mail::is_purged(e, Some(cutoff), false);
    let none = |e: MailEntry| !mail::is_purged(e, None, true);
    let all = |e: MailEntry| !mail::is_purged(e, None, false);
    lemma_filter_all(cur, all);
    assert(purged_store(store, path, None, false) =~= store) by {
        if store.contains_key(path) {
            assert(mail::unpurged(cur, None, false) == cur);
        }
    }
    lemma_filter_none(cur, none);
    assert forall|x: InboxMessage| is_held(cur, x) && x.timestamp >= cutoff implies #[trigger]
        is_held(
        mail::mailbox_at(purged_store(store, path, Some(cutoff), false), path).cur,
        x,
    ) by {
        let i = choose|i: int| 0 <= i < cur.len() && (#[trigger] cur[i]).message == Some(x);
        lemma_filter_keeps(cur, kept, i);
        let rest = cur.filter(kept);
        let k = choose|k: int| 0 <= k < rest.len() && rest[k] == cur[i];
        assert(rest[k].message == Some(x));
    }
}

proof fn lemma_filter_holds(s: Seq<MailEntry>, p: spec_fn(MailEntry) -> bool, k: int)
    requires
        0 <= k < s.filter(p).len(),
    ensures
        p(s.filter(p)[k]),
        s.contains(s.filter(p)[k]),
    decreases s.len(),
{
    reveal(Seq::filter);
    if s.len() > 0 {
        let front = s.drop_last();
        if k < front.filter(p).len() {
            lemma_filter_holds(front, p, k);
            let j = choose|j: int| 0 <= j < front.len() && front[j] == front.filter(p)[k];
            assert(s[j] == s.filter(p)[k]);
        } else {
            assert(s[s.len() - 1] == s.filter(p)[k]);
        }
    }
}

proof fn lemma_filter_none(s: Seq<MailEntry>, p: spec_fn(MailEntry) -> bool)
    requires
        forall|e: MailEntry| !#[trigger] p(e),
    ensures
        s.filter(p).len() == 0,
    decreases s.len(),
{
    reveal(Seq::filter);
    if s.len() > 0 {
        lemma_filter_none(s.drop_last(), p);
    }
}

proof fn lemma_filter_keeps(s: Seq<MailEntry>, p: spec_fn(MailEntry) -> bool, i: int)
    requires
        0 <= i < s.len(),
        p(s[i]),
    ensures
        s.filter(p).contains(s[i]),
    decreases s.len(),
{
    reveal(Seq::filter);
    broadcast use vstd::seq_lib::group_seq_properties;

    if i < s.len() - 1 {
        lemma_filter_keeps(s.drop_last(), p, i);
        assert(s.drop_last()[i] == s[i]);
    }
}

/// A duplicate that is found is one of the recent messages, and says the same
/// as the message it is a duplicate of; where none is found, no recent message
/// does.
pub proof fn law_duplicates_say_the_same(recent: Seq<InboxMessage>, new_msg: InboxMessage)
    ensures
        last_duplicate(recent, new_msg) matches Some(d) ==> recent.contains(d) && is_duplicate(
            d,
            new_msg,
        ),
        last_duplicate(recent, new_msg) is None ==> forall|i: int|
            0 <= i < recent.len() ==> !is_duplicate(#[trigger] recent[i], new_msg),
    decreases recent.len(),
{
    if recent.len() > 0 {
        let front = recent.drop_last();
        law_duplicates_say_the_same(front, new_msg);
        assert(recent[recent.len() - 1] == recent.last());
        if !is_duplicate(recent.last(), new_msg) {
            if last_duplicate(front, new_msg) is Some {
                let d = last_duplicate(front, new_msg)->Some_0;
                let k = choose|k: int| 0 <= k < front.len() && front[k] == d;
                assert(recent[k] == d);
            } else {
                assert forall|i: int| 0 <= i < recent.len() implies !is_duplicate(
                    #[trigger] recent[i],
                    new_msg,
                ) by {
                    if i < front.len() {
                        assert(front[i] == recent[i]);
                    }
                }
            }
        }
    }
}

} // verus!
