//! What becomes of messages: how they are told apart, how long they wait, and
//! what of them is shown.

use vstd::prelude::*;

use crate::clock::Duration;
use crate::inbox;
use crate::inbox::{DigestEntry, InboxMessage, Listed, MessageCategory, MessageType};
use crate::inbox_commands;
use crate::inbox_queue;
use crate::inbox_tiered;
use crate::inbox_tiered::{ExpiredCounts, QueueTier, TieredTtlConfig};
use crate::mail;
use crate::mail::{MailEntry, Mailbox};
use crate::merge::lock::MergeOutcome;
use crate::messaging;
use crate::messaging::TeamRoster;
use crate::order;
use crate::paths;
use crate::text;
use crate::text_laws::{lemma_holds, lemma_parts, lemma_shows, shows};

verus! {

// ---------------------------------------------------------------------------
// Categories

/// What a body says decides on its category, whatever its case and the white
/// space around it: an escalation whatever else it says, then a nudge, then a
/// blocker, then a request for review; anything else is a status.
pub proof fn law_bodies_have_categories(body: Seq<char>)
    ensures
        ({
            let b = text::lower(text::trim(body));
            let says = |what: Seq<char>| text::contains(b, what);
            let escalates = says("escalat"@);
            let nudges = says("idle nudge:"@) || text::starts_with(b, "review nudge:"@) || says(
                "if you are idle, take action now"@,
            ) || says("you have been idle past your configured timeout"@);
            let blocks = says("blocked on"@) || says("blocker:"@) || text::starts_with(
                b,
                "blocked:"@,
            );
            let asks = says("ready for review"@) || says("awaiting manual review"@) || says(
                "requires manual review"@,
            ) || says("review request"@) || says("ready_for_review"@) || text::starts_with(
                b,
                "review:"@,
            );
            let category = inbox::category_of(body);
            &&& escalates <==> category == MessageCategory::Escalation
            &&& !escalates && nudges <==> category == MessageCategory::Nudge
            &&& !escalates && !nudges && blocks <==> category == MessageCategory::Blocker
            &&& !escalates && !nudges && !blocks && asks <==> category
                == MessageCategory::ReviewRequest
            &&& !escalates && !nudges && !blocks && !asks <==> category == MessageCategory::Status
        }),
{
}

/// Escalations and blockers go to the priority queue, requests for review to
/// the work queue, status to the content queue and nudges to the telemetry
/// queue of the recipient, unless a queue was named.
pub proof fn law_messages_go_to_their_queues(
    root: Seq<char>,
    msg: InboxMessage,
    named: QueueTier,
)
    ensures
        ({
            let category = inbox::category_of(msg.body@);
            let queue = inbox_tiered::tier_path(
                root,
                msg.to@,
                inbox_tiered::routed(msg, None),
            );
            let in_inbox = |dir: Seq<char>| paths::join_path(paths::join_path(root, msg.to@), dir);
            &&& category == MessageCategory::Escalation || category == MessageCategory::Blocker
                ==> queue == in_inbox("priority"@)
            &&& category == MessageCategory::ReviewRequest ==> queue == in_inbox("work"@)
            &&& category == MessageCategory::Status ==> queue == in_inbox("content"@)
            &&& category == MessageCategory::Nudge ==> queue == in_inbox("telemetry"@)
            &&& inbox_tiered::routed(msg, Some(named)) == named
            &&& inbox_tiered::flag_path(root, msg, true) == queue
            &&& inbox_tiered::flag_path(root, msg, false) == paths::join_path(root, msg.to@)
        }),
{
}

/// A digest tells escalations first, then requests for review, blockers,
/// status and nudges, and within a category the newer first.
pub proof fn law_digest_tells_the_urgent_first(ms: Seq<Listed>, a: int, b: int)
    requires
        ms.len() <= usize::MAX,
        0 <= a < b < inbox::digest_positions(ms).len(),
    ensures
        ({
            let x = ms[inbox::digest_positions(ms)[a] as int].0;
            let y = ms[inbox::digest_positions(ms)[b] as int].0;
            let cx = inbox::category_of(x.body@);
            let cy = inbox::category_of(y.body@);
            &&& cx == cy ==> x.timestamp >= y.timestamp
            &&& cx == MessageCategory::Nudge ==> cy == MessageCategory::Nudge
            &&& cx == MessageCategory::Status ==> cy == MessageCategory::Status || cy
                == MessageCategory::Nudge
            &&& cy == MessageCategory::Escalation ==> cx == MessageCategory::Escalation
            &&& cy == MessageCategory::ReviewRequest ==> cx == MessageCategory::Escalation || cx
                == MessageCategory::ReviewRequest
        }),
{
    inbox::law_digest_is_ordered(ms);
    let d = inbox::digest_positions(ms);
    assert(order::key_le(inbox::digest_key(ms[d[a] as int].0), inbox::digest_key(ms[d[b] as int].0)));
}

proof fn lemma_digits_end(s: Seq<char>, i: int, e: int)
    requires
        0 <= i <= e <= s.len(),
        forall|k: int| i <= k < e ==> text::is_digit(#[trigger] s[k]),
        e < s.len() ==> !text::is_digit(s[e]),
    ensures
        inbox::digits_end(s, i) == e,
    decreases e - i,
{
    if i < e {
        assert(text::is_digit(s[i]));
        lemma_digits_end(s, i + 1, e);
    }
}

proof fn lemma_no_reference(s: Seq<char>, i: int, n: int)
    requires
        0 <= i <= n < s.len(),
        forall|k: int| i <= k < n ==> (#[trigger] s[k]) != '#',
    ensures
        inbox::first_reference(s, i) == inbox::first_reference(s, n),
    decreases n - i,
{
    if i < n {
        assert(s[i] != '#');
        lemma_no_reference(s, i + 1, n);
    }
}

/// A body refers to the task whose number follows its first number sign.
pub proof fn law_bodies_refer_to_tasks(before: Seq<char>, number: Seq<char>, after: Seq<char>)
    requires
        !before.contains('#'),
        number.len() > 0,
        forall|k: int| 0 <= k < number.len() ==> text::is_digit(#[trigger] number[k]),
        after.len() > 0 ==> !text::is_digit(after[0]),
    ensures
        inbox::task_id_of(before + seq!['#'] + number + after) == Some(number),
{
    let s = before + seq!['#'] + number + after;
    let n = before.len() as int;
    let e = n + 1 + number.len();
    assert(s[n] == '#');
    assert forall|k: int| n + 1 <= k < e implies text::is_digit(#[trigger] s[k]) by {
        assert(s[k] == number[k - n - 1]);
    }
    if e < s.len() {
        assert(s[e] == after[0]);
    }
    lemma_digits_end(s, n + 1, e);
    assert(s.subrange(n + 1, e) =~= number);
    assert forall|k: int| 0 <= k < n implies (#[trigger] s[k]) != '#' by {
        assert(s[k] == before[k]);
        assert(before.contains(before[k]));
    }
    lemma_no_reference(s, 0, n);
}

// ---------------------------------------------------------------------------
// Time

/// A message waits as long as it is at most `max_age` old, to the nanosecond,
/// and a message from the future is not old at all. After an expiry exactly
/// those that are older are gone.
pub proof fn law_messages_wait_their_time(
    before: Mailbox,
    after: Mailbox,
    gone: Seq<InboxMessage>,
    now: u64,
    max_age: Duration,
)
    requires
        mail::is_sound(before),
        mail::readable(before.new, false).len() <= usize::MAX,
        inbox_queue::is_expiry(before, after, gone, now, max_age),
    ensures
        ({
            let limit = max_age.secs * 1_000_000_000 + max_age.nanos;
            &&& forall|x: InboxMessage| #[trigger]
                inbox_queue::is_held(after.new, x) <==> inbox_queue::is_held(before.new, x) && (
                x.timestamp >= now || (now - x.timestamp) * 1_000_000_000 <= limit)
            &&& forall|x: InboxMessage| #[trigger]
                gone.contains(x) <==> inbox_queue::is_held(before.new, x) && x.timestamp < now && (
                now - x.timestamp) * 1_000_000_000 > limit
        }),
{
    inbox_queue::law_expiry_loses_no_message(before, after, gone, now, max_age);
    assert forall|x: InboxMessage| #[trigger]
        inbox_queue::is_held(before.new, x) implies inbox_queue::is_stale(x, now, max_age) == (
    x.timestamp < now && (now - x.timestamp) * 1_000_000_000 > max_age.secs * 1_000_000_000
        + max_age.nanos) by {}
    assert forall|x: InboxMessage| #[trigger]
        inbox_queue::is_held(after.new, x) <==> inbox_queue::is_held(before.new, x) && (
        x.timestamp >= now || (now - x.timestamp) * 1_000_000_000 <= max_age.secs * 1_000_000_000
            + max_age.nanos) by {
        let _ = inbox_queue::is_held(before.new, x);
    }
    assert forall|x: InboxMessage| #[trigger]
        gone.contains(x) <==> inbox_queue::is_held(before.new, x) && x.timestamp < now && (now
            - x.timestamp) * 1_000_000_000 > max_age.secs * 1_000_000_000 + max_age.nanos by {
        let _ = inbox_queue::is_held(before.new, x);
    }
}

/// In every queue of a member messages wait by the time to live of that queue,
/// and the counts say how many were taken out of which.
pub proof fn law_queues_expire_by_their_own_time(
    before: Map<Seq<char>, Mailbox>,
    after: Map<Seq<char>, Mailbox>,
    root: Seq<char>,
    member: Seq<char>,
    counts: ExpiredCounts,
    now: u64,
    ttls: TieredTtlConfig,
    x: InboxMessage,
)
    requires
        inbox_tiered::is_tiered_expiry(before, after, root, member, counts, now, ttls),
        forall|tier: QueueTier|
            mail::is_sound(
                mail::mailbox_at(before, #[trigger] inbox_tiered::tier_path(root, member, tier)),
            ) && mail::readable(
                mail::mailbox_at(before, inbox_tiered::tier_path(root, member, tier)).new,
                false,
            ).len() <= usize::MAX,
    ensures
        ({
            let waits = |dir: Seq<char>, ttl: Duration|
                {
                    let path = paths::join_path(paths::join_path(root, member), dir);
                    inbox_queue::is_held(mail::mailbox_at(after, path).new, x)
                        <==> inbox_queue::is_held(mail::mailbox_at(before, path).new, x) && (
                    x.timestamp >= now || (now - x.timestamp) * 1_000_000_000 <= ttl.secs
                        * 1_000_000_000 + ttl.nanos)
                };
            &&& waits("priority"@, ttls.priority)
            &&& waits("work"@, ttls.work)
            &&& waits("content"@, ttls.content)
            &&& waits("telemetry"@, ttls.telemetry)
        }),
{
    lemma_tier_waits(before, after, root, member, counts, now, ttls, QueueTier::Priority, x);
    lemma_tier_waits(before, after, root, member, counts, now, ttls, QueueTier::Work, x);
    lemma_tier_waits(before, after, root, member, counts, now, ttls, QueueTier::Content, x);
    lemma_tier_waits(before, after, root, member, counts, now, ttls, QueueTier::Telemetry, x);
}

proof fn lemma_tier_waits(
    before: Map<Seq<char>, Mailbox>,
    after: Map<Seq<char>, Mailbox>,
    root: Seq<char>,
    member: Seq<char>,
    counts: ExpiredCounts,
    now: u64,
    ttls: TieredTtlConfig,
    tier: QueueTier,
    x: InboxMessage,
)
    requires
        inbox_tiered::is_tiered_expiry(before, after, root, member, counts, now, ttls),
        mail::is_sound(
            mail::mailbox_at(before, inbox_tiered::tier_path(root, member, tier)),
        ),
        mail::readable(
            mail::mailbox_at(before, inbox_tiered::tier_path(root, member, tier)).new,
            false,
        ).len() <= usize::MAX,
    ensures
        ({
            let path = paths::join_path(paths::join_path(root, member), tier.dir());
            let ttl = ttls.ttl(tier);
            inbox_queue::is_held(mail::mailbox_at(after, path).new, x) <==> inbox_queue::is_held(
                mail::mailbox_at(before, path).new,
                x,
            ) && (x.timestamp >= now || (now - x.timestamp) * 1_000_000_000 <= ttl.secs
                * 1_000_000_000 + ttl.nanos)
        }),
{
    let path = inbox_tiered::tier_path(root, member, tier);
    let from = mail::mailbox_at(before, path);
    law_messages_wait_their_time(
        from,
        mail::mailbox_at(after, path),
        inbox_queue::stale_of(inbox_queue::pending_in(from), now, ttls.ttl(tier)),
        now,
        ttls.ttl(tier),
    );
}

proof fn lemma_since(ls: Seq<Listed>, cutoff: u64, x: InboxMessage)
    ensures
        inbox_queue::since(ls, cutoff).contains(x) <==> exists|i: int|
            0 <= i < ls.len() && (#[trigger] ls[i]).0 == x && x.timestamp >= cutoff,
    decreases ls.len(),
{
    if ls.len() > 0 {
        let front = ls.drop_last();
        lemma_since(front, cutoff, x);
        let rest = inbox_queue::since(front, cutoff);
        let all = inbox_queue::since(ls, cutoff);
        if rest.contains(x) {
            let k = choose|k: int| 0 <= k < rest.len() && rest[k] == x;
            assert(all[k] == x);
            let i = choose|i: int|
                0 <= i < front.len() && (#[trigger] front[i]).0 == x && x.timestamp >= cutoff;
            assert(ls[i] == front[i]);
        }
        if ls.last().0 == x && x.timestamp >= cutoff {
            assert(all[all.len() - 1] == x);
            assert(ls[ls.len() - 1].0 == x);
        }
        if all.contains(x) && !rest.contains(x) {
            let k = choose|k: int| 0 <= k < all.len() && all[k] == x;
            if k < rest.len() {
                assert(rest[k] == x);
            }
            assert(ls[ls.len() - 1].0 == x);
        }
        if exists|i: int| 0 <= i < ls.len() && (#[trigger] ls[i]).0 == x && x.timestamp >= cutoff {
            let i = choose|i: int|
                0 <= i < ls.len() && (#[trigger] ls[i]).0 == x && x.timestamp >= cutoff;
            if i < front.len() {
                assert(front[i] == ls[i]);
            }
        }
    }
}

/// The recent messages of a mailbox are those, pending or delivered, that are
/// at most so many whole seconds old.
pub proof fn law_recent_messages_are_recent(
    m: Mailbox,
    now: u64,
    max_age: Duration,
    x: InboxMessage,
)
    requires
        mail::listed(m).len() <= usize::MAX,
    ensures
        inbox_queue::recent_in(m, now, max_age).contains(x) <==> (inbox_queue::is_held(m.new, x)
            || inbox_queue::is_held(m.cur, x)) && now - x.timestamp <= max_age.secs,
{
    let all = inbox_queue::all_in(m);
    let cutoff = crate::clock::seconds_since(max_age.secs, now);
    lemma_since(all, cutoff, x);
    mail::law_sorting_by_time(mail::listed(m));
    lemma_held_is_listed(m.new, false, x);
    lemma_held_is_listed(m.cur, true, x);
    let a = mail::readable(m.new, false);
    let b = mail::readable(m.cur, true);
    let both = mail::listed(m);
    assert((exists|i: int| 0 <= i < all.len() && (#[trigger] all[i]).0 == x) <==> (a.contains(
        (x, false),
    ) || b.contains((x, true)))) by {
        if exists|i: int| 0 <= i < all.len() && (#[trigger] all[i]).0 == x {
            let i = choose|i: int| 0 <= i < all.len() && (#[trigger] all[i]).0 == x;
            assert(all.contains(all[i]));
            assert(both.contains(all[i]));
            let k = choose|k: int| 0 <= k < both.len() && both[k] == all[i];
            lemma_listed_flag(m.new, false);
            lemma_listed_flag(m.cur, true);
            if k < a.len() {
                assert(a[k] == both[k]);
                assert(a.contains((x, false)));
            } else {
                assert(b[k - a.len()] == both[k]);
                assert(b.contains((x, true)));
            }
        }
        if a.contains((x, false)) {
            let k = choose|k: int| 0 <= k < a.len() && a[k] == (x, false);
            assert(both[k] == (x, false));
            assert(both.contains((x, false)));
            assert(all.contains((x, false)));
            let i = choose|i: int| 0 <= i < all.len() && all[i] == (x, false);
            assert(all[i].0 == x);
        }
        if b.contains((x, true)) {
            let k = choose|k: int| 0 <= k < b.len() && b[k] == (x, true);
            assert(both[a.len() + k] == (x, true));
            assert(both.contains((x, true)));
            assert(all.contains((x, true)));
            let i = choose|i: int| 0 <= i < all.len() && all[i] == (x, true);
            assert(all[i].0 == x);
        }
    }
}

proof fn lemma_listed_flag(entries: Seq<MailEntry>, d: bool)
    ensures
        forall|k: int|
            0 <= k < mail::readable(entries, d).len() ==> (#[trigger] mail::readable(
                entries,
                d,
            )[k]).1 == d,
    decreases entries.len(),
{
    if entries.len() > 0 {
        lemma_listed_flag(entries.drop_last(), d);
        let r0 = mail::readable(entries.drop_last(), d);
        let r1 = mail::readable(entries, d);
        assert forall|k: int| 0 <= k < r1.len() implies (#[trigger] r1[k]).1 == d by {
            if k < r0.len() {
                assert(r1[k] == r0[k]);
            }
        }
    }
}

proof fn lemma_held_is_listed(entries: Seq<MailEntry>, d: bool, x: InboxMessage)
    ensures
        mail::readable(entries, d).contains((x, d)) <==> inbox_queue::is_held(entries, x),
    decreases entries.len(),
{
    if entries.len() > 0 {
        let front = entries.drop_last();
        lemma_held_is_listed(front, d, x);
        let r0 = mail::readable(front, d);
        let r1 = mail::readable(entries, d);
        if r0.contains((x, d)) {
            let k = choose|k: int| 0 <= k < r0.len() && r0[k] == (x, d);
            assert(r1[k] == (x, d));
            let i = choose|i: int| 0 <= i < front.len() && (#[trigger] front[i]).message == Some(x);
            assert(entries[i] == front[i]);
        }
        if entries.last().message == Some(x) {
            assert(r1[r1.len() - 1] == (x, d));
            assert(entries[entries.len() - 1].message == Some(x));
        }
        if r1.contains((x, d)) && !r0.contains((x, d)) {
            let k = choose|k: int| 0 <= k < r1.len() && r1[k] == (x, d);
            if k < r0.len() {
                assert(r0[k] == (x, d));
            }
            assert(entries[entries.len() - 1].message == Some(x));
        }
        if inbox_queue::is_held(entries, x) {
            let i = choose|i: int|
                0 <= i < entries.len() && (#[trigger] entries[i]).message == Some(x);
            if i < front.len() {
                assert(front[i] == entries[i]);
            }
        }
    }
}

/// A purge with a date removes every delivered message that is older, and a
/// purge of all removes all; without either nothing is removed. What is
/// counted is what is gone.
pub proof fn law_purge_removes_the_old(
    store: Map<Seq<char>, Mailbox>,
    path: Seq<char>,
    cutoff: u64,
    x: InboxMessage,
)
    ensures
        ({
            let cur = mail::mailbox_at(store, path).cur;
            let dated = mail::mailbox_at(
                inbox_queue::purged_store(store, path, Some(cutoff), false),
                path,
            ).cur;
            let emptied = mail::mailbox_at(
                inbox_queue::purged_store(store, path, None, true),
                path,
            ).cur;
            &&& inbox_queue::is_held(dated, x) <==> inbox_queue::is_held(cur, x) && x.timestamp
                >= cutoff
            &&& emptied.len() == 0
            &&& inbox_queue::purged_store(store, path, None, false) == store
            &&& inbox_queue::purged_count(store, path, Some(cutoff), false) == cur.len()
                - dated.len()
            &&& inbox_queue::purged_count(store, path, None, true) == cur.len()
            &&& inbox_queue::purged_count(store, path, None, false) == 0
        }),
{
    inbox_queue::law_purge_spares_pending_and_recent(store, path, cutoff);
    let cur = mail::mailbox_at(store, path).cur;
    let keep = |e: MailEntry| !mail::is_purged(e, Some(cutoff), false);
    let dated = mail::mailbox_at(
        inbox_queue::purged_store(store, path, Some(cutoff), false),
        path,
    ).cur;
    lemma_empty_filter(keep);
    lemma_empty_filter(|e: MailEntry| !mail::is_purged(e, None, true));
    lemma_empty_filter(|e: MailEntry| !mail::is_purged(e, None, false));
    assert(dated == cur.filter(keep));
    if inbox_queue::is_held(dated, x) {
        let i = choose|i: int| 0 <= i < dated.len() && (#[trigger] dated[i]).message == Some(x);
        lemma_kept(cur, keep, i);
        let j = choose|j: int| 0 <= j < cur.len() && cur[j] == dated[i];
        assert(cur[j].message == Some(x));
    }
    if inbox_queue::is_held(cur, x) && x.timestamp >= cutoff {
        assert(inbox_queue::is_held(dated, x));
    }
    let none = |e: MailEntry| !mail::is_purged(e, None, true);
    let all = |e: MailEntry| !mail::is_purged(e, None, false);
    lemma_filter_len(cur, keep);
    assert(mail::unpurged(cur, None, true).len() == 0) by {
        lemma_filter_nothing(cur, none);
    }
    assert(mail::unpurged(cur, None, false) == cur) by {
        lemma_filter_everything(cur, all);
    }
}

proof fn lemma_empty_filter(p: spec_fn(MailEntry) -> bool)
    ensures
        Seq::<MailEntry>::empty().filter(p) == Seq::<MailEntry>::empty(),
{
    reveal(Seq::filter);
}

proof fn lemma_filter_len(s: Seq<MailEntry>, p: spec_fn(MailEntry) -> bool)
    ensures
        s.filter(p).len() <= s.len(),
    decreases s.len(),
{
    reveal(Seq::filter);
    if s.len() > 0 {
        lemma_filter_len(s.drop_last(), p);
    }
}

proof fn lemma_filter_nothing(s: Seq<MailEntry>, p: spec_fn(MailEntry) -> bool)
    requires
        forall|e: MailEntry| !#[trigger] p(e),
    ensures
        s.filter(p).len() == 0,
    decreases s.len(),
{
    reveal(Seq::filter);
    if s.len() > 0 {
        lemma_filter_nothing(s.drop_last(), p);
    }
}

proof fn lemma_filter_everything(s: Seq<MailEntry>, p: spec_fn(MailEntry) -> bool)
    requires
        forall|e: MailEntry| #[trigger] p(e),
    ensures
        s.filter(p) == s,
    decreases s.len(),
{
    reveal(Seq::filter);
    if s.len() > 0 {
        lemma_filter_everything(s.drop_last(), p);
        assert(s.drop_last().push(s.last()) =~= s);
    }
}

proof fn lemma_kept(s: Seq<MailEntry>, p: spec_fn(MailEntry) -> bool, i: int)
    requires
        0 <= i < s.filter(p).len(),
    ensures
        p(s.filter(p)[i]),
        s.contains(s.filter(p)[i]),
    decreases s.len(),
{
    reveal(Seq::filter);
    if s.len() > 0 {
        let front = s.drop_last();
        if i < front.filter(p).len() {
            lemma_kept(front, p, i);
            let j = choose|j: int| 0 <= j < front.len() && front[j] == front.filter(p)[i];
            assert(s[j] == s.filter(p)[i]);
        } else {
            assert(s[s.len() - 1] == s.filter(p)[i]);
        }
    }
}

/// The duplicate that is found is the last of the recent messages that has the
/// sender, the kind and the signature of the message.
pub proof fn law_last_duplicate_is_found(recent: Seq<InboxMessage>, msg: InboxMessage)
    ensures
        ({
            let is_same = |x: InboxMessage|
                x.from@ == msg.from@ && x.msg_type == msg.msg_type && inbox::signature(x.body@)
                    == inbox::signature(msg.body@);
            match inbox_queue::last_duplicate(recent, msg) {
                Some(d) => exists|k: int|
                    {
                        &&& 0 <= k < recent.len()
                        &&& #[trigger] recent[k] == d
                        &&& is_same(d)
                        &&& forall|j: int| k < j < recent.len() ==> !is_same(#[trigger] recent[j])
                    },
                None => forall|j: int| 0 <= j < recent.len() ==> !is_same(#[trigger] recent[j]),
            }
        }),
    decreases recent.len(),
{
    if recent.len() > 0 {
        let front = recent.drop_last();
        law_last_duplicate_is_found(front, msg);
        let n = recent.len() - 1;
        if inbox_queue::is_duplicate(recent.last(), msg) {
            assert(recent[n] == recent.last());
        } else {
            match inbox_queue::last_duplicate(front, msg) {
                Some(d) => {
                    let k = choose|k: int|
                        {
                            &&& 0 <= k < front.len()
                            &&& #[trigger] front[k] == d
                            &&& d.from@ == msg.from@ && d.msg_type == msg.msg_type
                                && inbox::signature(d.body@) == inbox::signature(msg.body@)
                            &&& forall|j: int|
                                k < j < front.len() ==> !((#[trigger] front[j]).from@ == msg.from@
                                    && front[j].msg_type == msg.msg_type && inbox::signature(
                                    front[j].body@,
                                ) == inbox::signature(msg.body@))
                        };
                    assert(recent[k] == d);
                    assert forall|j: int| k < j < recent.len() implies !((
                    #[trigger] recent[j]).from@ == msg.from@ && recent[j].msg_type == msg.msg_type
                        && inbox::signature(recent[j].body@) == inbox::signature(msg.body@)) by {
                        if j < n {
                            assert(front[j] == recent[j]);
                        }
                    }
                },
                None => {
                    assert forall|j: int| 0 <= j < recent.len() implies !((
                    #[trigger] recent[j]).from@ == msg.from@ && recent[j].msg_type == msg.msg_type
                        && inbox::signature(recent[j].body@) == inbox::signature(msg.body@)) by {
                        if j < n {
                            assert(front[j] == recent[j]);
                        }
                    }
                },
            }
        }
    }
}

// ---------------------------------------------------------------------------
// Commands

/// A selector names exactly the messages whose id begins with it and the one
/// whose reference it is, in their order.
pub proof fn law_selectors_name_messages(ms: Seq<Listed>, selector: Seq<char>, n: int)
    requires
        0 <= n <= ms.len() <= usize::MAX,
    ensures
        ({
            let found = inbox_commands::selected(ms, selector, n);
            &&& found.len() <= n
            &&& forall|i: int|
                0 <= i < n ==> (found.contains(i as usize) <==> (text::starts_with(
                    (#[trigger] ms[i]).0.id@,
                    selector,
                ) || inbox_commands::ref_at(ms, i) == selector))
            &&& forall|k: int| 0 <= k < found.len() ==> (#[trigger] found[k]) < n
            &&& forall|k: int, m: int|
                0 <= k < m < found.len() ==> (#[trigger] found[k]) < (#[trigger] found[m])
        }),
    decreases n,
{
    if n > 0 {
        law_selectors_name_messages(ms, selector, n - 1);
        let before = inbox_commands::selected(ms, selector, n - 1);
        let found = inbox_commands::selected(ms, selector, n);
        assert forall|i: int| 0 <= i < n implies (found.contains(i as usize) <==> (text::starts_with(
            (#[trigger] ms[i]).0.id@,
            selector,
        ) || inbox_commands::ref_at(ms, i) == selector)) by {
            if found.contains(i as usize) {
                let k = choose|k: int| 0 <= k < found.len() && found[k] == i as usize;
                if k < before.len() {
                    assert(before[k] == i as usize);
                }
            }
            if i < n - 1 && before.contains(i as usize) {
                let k = choose|k: int| 0 <= k < before.len() && before[k] == i as usize;
                assert(found[k] == i as usize);
            }
            if i == n - 1 && inbox_commands::is_selected(ms, selector, i) {
                assert(found[found.len() - 1] == i as usize);
            }
        }
        assert forall|k: int| 0 <= k < found.len() implies (#[trigger] found[k]) < n by {
            if k < before.len() {
                assert(found[k] == before[k]);
            }
        }
        assert forall|k: int, m: int| 0 <= k < m < found.len() implies (#[trigger] found[k]) < (
        #[trigger] found[m]) by {
            assert(found[k] == before[k]);
            if m < before.len() {
                assert(found[m] == before[m]);
            }
        }
    }
}

/// One message is read or acknowledged only where the selector names exactly
/// one; acknowledging it takes it out of what is pending and keeps it among
/// what was delivered, in the inbox of the member that the name stands for.
pub proof fn law_acknowledged_message_is_delivered(
    store: Map<Seq<char>, Mailbox>,
    root: Seq<char>,
    roster: Option<TeamRoster>,
    member: Seq<char>,
    selector: Seq<char>,
    name: Seq<char>,
)
    requires
        messaging::member_name_of(roster, member) == Ok::<Seq<char>, Seq<char>>(name),
        inbox_queue::all_in(
            inbox_commands::inbox_of(store, root, name),
        ).len() <= usize::MAX,
        mail::is_sound(inbox_commands::inbox_of(store, root, name)),
    ensures
        ({
            let before = inbox_commands::inbox_of(store, root, name);
            let ms = inbox_queue::all_in(before);
            inbox_commands::acknowledged(store, root, roster, member, selector) matches Ok(after)
                ==> exists|i: int|
                {
                    let id = (#[trigger] ms[i]).0.id@;
                    let now = inbox_commands::inbox_of(after, root, name);
                    &&& 0 <= i < ms.len()
                    &&& text::starts_with(id, selector) || inbox_commands::ref_at(ms, i) == selector
                    &&& forall|k: int|
                        0 <= k < ms.len() && k != i ==> !text::starts_with(
                            (#[trigger] ms[k]).0.id@,
                            selector,
                        ) && inbox_commands::ref_at(ms, k) != selector
                    &&& now.new.len() + 1 == before.new.len()
                    &&& mail::entry_index(now.new, id, 0) is None
                    &&& now.cur.last().id@ == id
                    &&& before.new.contains(now.cur.last())
                    &&& forall|p: Seq<char>|
                        p != inbox_queue::inbox_path(inbox::inboxes_root_path(root), name)
                            ==> #[trigger] mail::mailbox_at(after, p) == mail::mailbox_at(store, p)
                }
        }),
{
    let before = inbox_commands::inbox_of(store, root, name);
    let ms = inbox_queue::all_in(before);
    let found = inbox_commands::selected(ms, selector, ms.len() as int);
    law_selectors_name_messages(ms, selector, ms.len() as int);
    if inbox_commands::acknowledged(store, root, roster, member, selector) is Ok {
        let i = found[0] as int;
        let id = ms[i].0.id@;
        assert(found.contains(i as usize));
        assert forall|k: int| 0 <= k < ms.len() && k != i implies !text::starts_with(
            (#[trigger] ms[k]).0.id@,
            selector,
        ) && inbox_commands::ref_at(ms, k) != selector by {
            if found.contains(k as usize) {
                let j = choose|j: int| 0 <= j < found.len() && found[j] == k as usize;
                assert(j == 0);
            }
        }
        inbox_queue::law_marking_keeps_every_message(before, id);
        assert(0 <= i < ms.len() && text::starts_with(ms[i].0.id@, selector)
            || inbox_commands::ref_at(ms, i) == selector);
    }
}

/// A cut text begins like the whole and is no longer than three dots more than
/// it may be; a text that is short enough is not cut.
pub proof fn law_previews_are_short(body: Seq<char>, most: nat)
    ensures
        ({
            let shown = inbox_commands::truncated(body, most);
            &&& body.len() <= most ==> shown == body
            &&& body.len() > most ==> shown.len() == most + 3 && shown.take(most as int)
                == body.take(most as int)
        }),
{
    reveal_strlit("...");
    if body.len() > most {
        assert(inbox_commands::truncated(body, most).take(most as int) =~= body.take(most as int));
    }
}

proof fn lemma_rows_hold(ms: Seq<Listed>, start: int, n: int, i: int)
    requires
        start <= i < n <= ms.len(),
    ensures
        text::contains(
            inbox_commands::message_rows(ms, start, n),
            inbox_commands::message_row(ms, i),
        ),
    decreases n - start,
{
    let rows = inbox_commands::message_rows(ms, start, n);
    let row = inbox_commands::message_row(ms, i);
    if i == n - 1 {
        let at = rows.len() - row.len();
        assert(rows.subrange(at, rows.len() as int) =~= row);
        assert(text::matches_at(rows, row, at));
    } else {
        lemma_rows_hold(ms, start, n - 1, i);
        let front = inbox_commands::message_rows(ms, start, n - 1);
        let at = choose|at: int| text::matches_at(front, row, at);
        assert(rows.subrange(at, at + row.len()) =~= front.subrange(at, at + row.len()));
        assert(text::matches_at(rows, row, at));
    }
}

proof fn lemma_padded(s: Seq<char>, width: nat)
    ensures
        text::pad_right(s, width).len() >= width,
        text::pad_right(s, width).len() >= s.len(),
        text::pad_right(s, width).take(s.len() as int) == s,
{
    assert(text::pad_right(s, width).take(s.len() as int) =~= s);
}

/// A listing with a limit ends with the lines of exactly that many of the last
/// messages, and one without, or with a limit that is not reached, with those
/// of all. Each line holds what the message says, cut after one hundred and
/// forty characters.
pub proof fn law_listing_shows_the_last_messages(
    member: Seq<char>,
    ms: Seq<Listed>,
    limit: Option<usize>,
    i: int,
)
    requires
        0 <= i < ms.len(),
    ensures
        ({
            let shown = inbox_commands::listing(member, ms, limit);
            let first = match limit {
                Some(n) => if n < ms.len() {
                    ms.len() - n
                } else {
                    0
                },
                None => 0,
            };
            let body = ms[i].0.body@;
            let preview = if body.len() <= 140 {
                body
            } else {
                body.take(140) + "..."@
            };
            &&& i >= first ==> text::contains(shown, inbox_commands::message_row(ms, i))
            &&& text::ends_with(
                shown,
                inbox_commands::message_rows(ms, first as int, ms.len() as int),
            )
            &&& text::contains(inbox_commands::message_row(ms, i), preview + "\n"@)
            &&& text::starts_with(
                inbox_commands::message_row(ms, i),
                if ms[i].1 {
                    "delivered"@
                } else {
                    "pending"@
                },
            )
        }),
{
    let shown = inbox_commands::listing(member, ms, limit);
    let n = ms.len() as int;
    let first = inbox_commands::listing_start(ms.len(), limit) as int;
    let rows = inbox_commands::message_rows(ms, first, n);
    let row = inbox_commands::message_row(ms, i);
    let at = shown.len() - rows.len();
    assert(shown.subrange(at, shown.len() as int) =~= rows);
    if i >= first {
        lemma_rows_hold(ms, first, n, i);
        let k = choose|k: int| text::matches_at(rows, row, k);
        assert(shown.subrange(at + k, at + k + row.len()) =~= rows.subrange(k, k + row.len()));
        assert(text::matches_at(shown, row, at + k));
    }
    lemma_row(ms, i);
}

proof fn lemma_row(ms: Seq<Listed>, i: int)
    ensures
        text::contains(
            inbox_commands::message_row(ms, i),
            inbox_commands::truncated(ms[i].0.body@, 140) + "\n"@,
        ),
        text::starts_with(
            inbox_commands::message_row(ms, i),
            inbox_commands::status_text(ms[i].1),
        ),
{
    let row = inbox_commands::message_row(ms, i);
    let preview = inbox_commands::truncated(ms[i].0.body@, 140);
    let last = preview + "\n"@;
    let b = row.len() - last.len();
    assert(row.subrange(b, row.len() as int) =~= last);
    assert(text::matches_at(row, last, b));
    let status = inbox_commands::status_text(ms[i].1);
    lemma_padded(status, 10);
    let padded = text::pad_right(status, 10);
    assert(row.subrange(0, padded.len() as int) =~= padded);
    assert(row.subrange(0, status.len() as int) =~= padded.take(status.len() as int));
}

// ---------------------------------------------------------------------------
// Deletion

proof fn lemma_entry_at(entries: Seq<MailEntry>, id: Seq<char>, from: int)
    requires
        0 <= from,
    ensures
        match mail::entry_index(entries, id, from) {
            Some(i) => from <= i < entries.len() && entries[i].id@ == id && forall|k: int|
                from <= k < i ==> (#[trigger] entries[k]).id@ != id,
            None => forall|k: int| from <= k < entries.len() ==> (#[trigger] entries[k]).id@ != id,
        },
    decreases entries.len() - from,
{
    if from < entries.len() && entries[from].id@ != id {
        lemma_entry_at(entries, id, from + 1);
    }
}

/// Deleting by an id removes the first entry that has it, a pending one before
/// a delivered one, and leaves every other entry in its place; without such an
/// entry nothing changes.
pub proof fn law_deleting_removes_one_message(m: Mailbox, id: Seq<char>)
    ensures
        ({
            let d = mail::deleted(m, id);
            let pending = exists|i: int| 0 <= i < m.new.len() && (#[trigger] m.new[i]).id@ == id;
            let held = exists|i: int| 0 <= i < m.cur.len() && (#[trigger] m.cur[i]).id@ == id;
            &&& mail::has_entry(m, id) <==> pending || held
            &&& pending ==> d.cur == m.cur && exists|i: int|
                {
                    &&& 0 <= i < m.new.len()
                    &&& (#[trigger] m.new[i]).id@ == id
                    &&& d.new == m.new.subrange(0, i) + m.new.subrange(i + 1, m.new.len() as int)
                    &&& forall|k: int| 0 <= k < i ==> (#[trigger] m.new[k]).id@ != id
                }
            &&& !pending && held ==> d.new == m.new && exists|i: int|
                {
                    &&& 0 <= i < m.cur.len()
                    &&& (#[trigger] m.cur[i]).id@ == id
                    &&& d.cur == m.cur.subrange(0, i) + m.cur.subrange(i + 1, m.cur.len() as int)
                    &&& forall|k: int| 0 <= k < i ==> (#[trigger] m.cur[k]).id@ != id
                }
            &&& !pending && !held ==> d == m
        }),
{
    lemma_entry_at(m.new, id, 0);
    lemma_entry_at(m.cur, id, 0);
    match mail::entry_index(m.new, id, 0) {
        Some(i) => {
            assert(m.new.remove(i) =~= m.new.subrange(0, i) + m.new.subrange(
                i + 1,
                m.new.len() as int,
            ));
            assert(m.new[i].id@ == id);
        },
        None => {
            if let Some(i) = mail::entry_index(m.cur, id, 0) {
                assert(m.cur.remove(i) =~= m.cur.subrange(0, i) + m.cur.subrange(
                    i + 1,
                    m.cur.len() as int,
                ));
                assert(m.cur[i].id@ == id);
            }
        },
    }
}

// ---------------------------------------------------------------------------
// Commands

/// A message is shown with its id, sender, recipient, type, state, time and
/// body, each behind its label.
pub proof fn law_messages_are_shown_whole(m: Listed)
    ensures
        ({
            let t = inbox_commands::message_text(m);
            let kind = match m.0.msg_type {
                MessageType::Send => "Send"@,
                MessageType::Assign => "Assign"@,
            };
            &&& text::starts_with(t, "ID:     "@ + m.0.id@)
            &&& shows(t, "\nFrom:   "@, m.0.from@)
            &&& shows(t, "\nTo:     "@, m.0.to@)
            &&& shows(t, "\nType:   "@, kind)
            &&& shows(t, "\nStatus: "@, inbox_commands::status_text(m.1))
            &&& shows(t, "\nTime:   "@, text::decimal(m.0.timestamp as nat))
            &&& shows(t, "\n\n"@, m.0.body@)
        }),
{
    let t = inbox_commands::message_text(m);
    let kind = match m.0.msg_type {
        MessageType::Send => "Send"@,
        MessageType::Assign => "Assign"@,
    };
    let h0 = "ID:     "@ + m.0.id@;
    let h1 = h0 + "\nFrom:   "@ + m.0.from@;
    let h2 = h1 + "\nTo:     "@ + m.0.to@;
    let h3 = h2 + "\nType:   "@ + kind;
    let h4 = h3 + "\nStatus: "@ + inbox_commands::status_text(m.1);
    let h5 = h4 + "\nTime:   "@ + text::decimal(m.0.timestamp as nat);
    let h6 = h5 + "\n\n"@ + m.0.body@;
    let r6 = "\n"@;
    assert(t == h6 + r6);
    lemma_shows(h5, "\n\n"@, m.0.body@, r6);
    let r5 = "\n\n"@ + m.0.body@ + r6;
    lemma_parts(h5, "\n\n"@, m.0.body@, r6);
    lemma_shows(h4, "\nTime:   "@, text::decimal(m.0.timestamp as nat), r5);
    let r4 = "\nTime:   "@ + text::decimal(m.0.timestamp as nat) + r5;
    lemma_parts(h4, "\nTime:   "@, text::decimal(m.0.timestamp as nat), r5);
    lemma_shows(h3, "\nStatus: "@, inbox_commands::status_text(m.1), r4);
    let r3 = "\nStatus: "@ + inbox_commands::status_text(m.1) + r4;
    lemma_parts(h3, "\nStatus: "@, inbox_commands::status_text(m.1), r4);
    lemma_shows(h2, "\nType:   "@, kind, r3);
    let r2 = "\nType:   "@ + kind + r3;
    lemma_parts(h2, "\nType:   "@, kind, r3);
    lemma_shows(h1, "\nTo:     "@, m.0.to@, r2);
    let r1 = "\nTo:     "@ + m.0.to@ + r2;
    lemma_parts(h1, "\nTo:     "@, m.0.to@, r2);
    lemma_shows(h0, "\nFrom:   "@, m.0.from@, r1);
    let r0 = "\nFrom:   "@ + m.0.from@ + r1;
    lemma_parts(h0, "\nFrom:   "@, m.0.from@, r1);
    lemma_holds(Seq::empty(), h0, r0);
}

/// A purge needs to be told what to purge, and of whom: everything or what is
/// older than a time, and of one member of the team or of all.
pub proof fn law_purges_need_a_choice(
    roster: Option<TeamRoster>,
    member: Option<String>,
    all_roles: bool,
    before: Option<u64>,
    purge_all: bool,
)
    ensures
        ({
            let r = inbox_commands::purge_refusal(roster, member, all_roles, before, purge_all);
            &&& !purge_all && before is None ==> r is Some
            &&& (purge_all || before is Some) && all_roles ==> r is None
            &&& (purge_all || before is Some) && !all_roles && member is None ==> r is Some
            &&& (purge_all || before is Some) && !all_roles && member is Some ==> (r is None
                <==> messaging::member_name_of(roster, member->Some_0@) is Ok)
        }),
{
}

/// A merge that was asked for is reported as done only if it succeeded; else
/// the report tells what stopped it.
pub proof fn law_merges_are_reported(outcome: Result<MergeOutcome<String>, String>)
    ensures
        ({
            let r = inbox_commands::merge_report(outcome);
            &&& r is Ok <==> (outcome matches Ok(o) && o is Success)
            &&& match outcome {
                Ok(MergeOutcome::RebaseConflict(e)) => r == Err::<(), Seq<char>>(
                    "merge blocked by rebase conflict: "@ + e@,
                ),
                Ok(MergeOutcome::MergeFailure(e)) => r == Err::<(), Seq<char>>(
                    "merge failed: "@ + e@,
                ),
                Err(e) => r == Err::<(), Seq<char>>(e@),
                _ => true,
            }
        }),
{
}

/// The mailboxes of a member's queues exist once they are created, and nothing
/// that any mailbox holds changes.
pub proof fn law_queues_are_created(
    store: Map<Seq<char>, Mailbox>,
    root: Seq<char>,
    member: Seq<char>,
)
    ensures
        ({
            let after = inbox_tiered::tiers_created(store, root, member);
            let queue = |dir: Seq<char>| paths::join_path(paths::join_path(root, member), dir);
            &&& after.contains_key(queue("priority"@))
            &&& after.contains_key(queue("work"@))
            &&& after.contains_key(queue("content"@))
            &&& after.contains_key(queue("telemetry"@))
            &&& forall|p: Seq<char>| #[trigger]
                mail::mailbox_at(after, p) == mail::mailbox_at(store, p)
            &&& forall|p: Seq<char>| store.contains_key(p) ==> #[trigger] after.contains_key(p)
        }),
{
    assert(inbox_tiered::tier_path(root, member, QueueTier::Priority) == paths::join_path(
        paths::join_path(root, member),
        "priority"@,
    ));
    assert(inbox_tiered::tier_path(root, member, QueueTier::Telemetry) == paths::join_path(
        paths::join_path(root, member),
        "telemetry"@,
    ));
}

/// Where queues are not in use, an expiry touches the plain mailbox alone.
pub proof fn law_unused_queues_do_not_expire(
    before: Map<Seq<char>, Mailbox>,
    after: Map<Seq<char>, Mailbox>,
    root: Seq<char>,
    member: Seq<char>,
    gone: Seq<InboxMessage>,
    counts: Option<ExpiredCounts>,
    now: u64,
    max_age: Duration,
    ttls: TieredTtlConfig,
    x: InboxMessage,
)
    requires
        inbox_tiered::is_flag_expiry(
            before,
            after,
            root,
            member,
            gone,
            counts,
            now,
            max_age,
            ttls,
        ),
        mail::is_sound(mail::mailbox_at(before, paths::join_path(root, member))),
        mail::readable(mail::mailbox_at(before, paths::join_path(root, member)).new, false).len()
            <= usize::MAX,
    ensures
        ({
            let flat = paths::join_path(root, member);
            let queue = |dir: Seq<char>| paths::join_path(flat, dir);
            &&& inbox_queue::is_held(mail::mailbox_at(after, flat).new, x)
                <==> inbox_queue::is_held(mail::mailbox_at(before, flat).new, x) && (x.timestamp
                >= now || (now - x.timestamp) * 1_000_000_000 <= max_age.secs * 1_000_000_000
                + max_age.nanos)
            &&& counts is None ==> mail::mailbox_at(after, queue("priority"@)) == mail::mailbox_at(
                before,
                queue("priority"@),
            ) && mail::mailbox_at(after, queue("work"@)) == mail::mailbox_at(
                before,
                queue("work"@),
            ) && mail::mailbox_at(after, queue("content"@)) == mail::mailbox_at(
                before,
                queue("content"@),
            ) && mail::mailbox_at(after, queue("telemetry"@)) == mail::mailbox_at(
                before,
                queue("telemetry"@),
            )
        }),
{
    let flat = inbox_queue::inbox_path(root, member);
    inbox_queue::law_expiry_loses_no_message(
        mail::mailbox_at(before, flat),
        mail::mailbox_at(after, flat),
        gone,
        now,
        max_age,
    );
    assert(inbox_tiered::tier_path(root, member, QueueTier::Priority) == paths::join_path(
        flat,
        "priority"@,
    ));
    assert(inbox_tiered::tier_path(root, member, QueueTier::Work) == paths::join_path(
        flat,
        "work"@,
    ));
    assert(inbox_tiered::tier_path(root, member, QueueTier::Content) == paths::join_path(
        flat,
        "content"@,
    ));
    assert(inbox_tiered::tier_path(root, member, QueueTier::Telemetry) == paths::join_path(
        flat,
        "telemetry"@,
    ));
}

proof fn lemma_purged_twice(cur: Seq<MailEntry>, before: Option<u64>, all: bool)
    ensures
        mail::unpurged(mail::unpurged(cur, before, all), before, all) == mail::unpurged(
            cur,
            before,
            all,
        ),
    decreases cur.len(),
{
    reveal(Seq::filter);
    let keep = |e: MailEntry| !mail::is_purged(e, before, all);
    if cur.len() > 0 {
        let front = cur.drop_last();
        lemma_purged_twice(front, before, all);
        let kept = front.filter(keep);
        if keep(cur.last()) {
            assert(cur.filter(keep) =~= kept.push(cur.last()));
            assert(kept.push(cur.last()).drop_last() =~= kept);
            assert(kept.push(cur.last()).filter(keep) =~= kept.filter(keep).push(cur.last()));
        } else {
            assert(cur.filter(keep) =~= kept);
        }
    }
}

/// A purge of all members purges the mailbox of each of them, as a purge of one
/// does, keeps what is pending, and touches no other mailbox.
pub proof fn law_purge_of_all_reaches_everybody(
    store: Map<Seq<char>, Mailbox>,
    root: Seq<char>,
    members: Seq<String>,
    before: Option<u64>,
    all: bool,
    p: Seq<char>,
)
    ensures
        ({
            let after = inbox_queue::purged_for_all(store, root, members, before, all);
            let meant = exists|i: int|
                0 <= i < members.len() && paths::join_path(root, (#[trigger] members[i])@) == p;
            &&& after.dom() == store.dom()
            &&& mail::mailbox_at(after, p).new == mail::mailbox_at(store, p).new
            &&& !meant ==> mail::mailbox_at(after, p).cur == mail::mailbox_at(store, p).cur
            &&& meant ==> mail::mailbox_at(after, p).cur == mail::unpurged(
                mail::mailbox_at(store, p).cur,
                before,
                all,
            )
        }),
    decreases members.len(),
{
    if members.len() > 0 {
        let front = members.drop_last();
        law_purge_of_all_reaches_everybody(store, root, front, before, all, p);
        let mid = inbox_queue::purged_for_all(store, root, front, before, all);
        let after = inbox_queue::purged_for_all(store, root, members, before, all);
        let path = paths::join_path(root, members.last()@);
        assert(after.dom() =~= mid.dom());
        lemma_purged_twice(mail::mailbox_at(store, p).cur, before, all);
        if exists|i: int|
            0 <= i < front.len() && paths::join_path(root, (#[trigger] front[i])@) == p {
            let i = choose|i: int|
                0 <= i < front.len() && paths::join_path(root, (#[trigger] front[i])@) == p;
            assert(paths::join_path(root, members[i]@) == p);
        }
        if path == p {
            assert(paths::join_path(root, members[members.len() - 1]@) == p);
            reveal(Seq::filter);
            assert(mail::unpurged(Seq::empty(), before, all) =~= Seq::<MailEntry>::empty());
        } else if exists|i: int|
            0 <= i < members.len() && paths::join_path(root, (#[trigger] members[i])@) == p {
            let i = choose|i: int|
                0 <= i < members.len() && paths::join_path(root, (#[trigger] members[i])@) == p;
            assert(i < front.len());
            assert(paths::join_path(root, front[i]@) == p);
        }
    }
}

/// An entry of a digest tells the message, its category and how many messages
/// it stands for; an escalation, a review request or a blocker stands for
/// itself.
pub proof fn law_digest_entries_stand_for_messages(ms: Seq<Listed>, i: int, e: DigestEntry)
    requires
        0 <= i < ms.len(),
        inbox::is_entry(ms, i, e),
    ensures
        e.message == ms[i].0,
        e.delivered == ms[i].1,
        e.category == inbox::category_of(ms[i].0.body@),
        e.collapsed_count >= 1,
        e.category != MessageCategory::Nudge && e.category != MessageCategory::Status
            ==> e.collapsed_count == 1,
{
    lemma_own_group(ms, i, ms.len() as int);
}

proof fn lemma_own_group(ms: Seq<Listed>, i: int, n: int)
    requires
        0 <= i < ms.len(),
        0 <= n,
    ensures
        i < n ==> inbox::group_size(ms, i, n) >= 1,
        ({
            let c = inbox::category_of(ms[i].0.body@);
            c != MessageCategory::Nudge && c != MessageCategory::Status ==> inbox::group_size(
                ms,
                i,
                n,
            ) == (if i < n {
                1nat
            } else {
                0nat
            })
        }),
    decreases n,
{
    if n > 0 {
        lemma_own_group(ms, i, n - 1);
    }
}

/// A message that is alone at its time goes by that time. Of several at one
/// time, each goes by the time and by its number among them, counted from one.
pub proof fn law_references_tell_the_time(ms: Seq<Listed>, i: int)
    requires
        0 <= i < ms.len(),
    ensures
        ({
            let t = ms[i].0.timestamp;
            let others = exists|k: int|
                0 <= k < ms.len() && k != i && (#[trigger] ms[k]).0.timestamp == t;
            let earlier = exists|k: int| 0 <= k < i && (#[trigger] ms[k]).0.timestamp == t;
            &&& !others ==> inbox_commands::ref_at(ms, i) == text::decimal(t as nat)
            &&& others ==> inbox_commands::ref_at(ms, i) == text::decimal(t as nat) + seq!['-']
                + text::decimal(inbox_commands::dated_at(ms.subrange(0, i + 1), t))
            &&& others && !earlier ==> inbox_commands::ref_at(ms, i) == text::decimal(t as nat)
                + seq!['-', '1']
        }),
{
    let t = ms[i].0.timestamp;
    reveal_strlit("-");
    assert("-"@ =~= seq!['-']);
    assert(ms.take(i + 1) =~= ms.subrange(0, i + 1));
    lemma_dated(ms, t, i);
    lemma_dated(ms.take(i + 1), t, i);
    assert(text::decimal(1) =~= seq!['1']);
    assert(text::decimal(t as nat) + seq!['-'] + seq!['1'] =~= text::decimal(t as nat) + seq![
        '-',
        '1',
    ]);
    if exists|k: int| 0 <= k < ms.len() && k != i && (#[trigger] ms[k]).0.timestamp == t {
        let k = choose|k: int| 0 <= k < ms.len() && k != i && (#[trigger] ms[k]).0.timestamp == t;
        assert(inbox_commands::dated_at(ms, t) >= 2);
    }
}

proof fn lemma_dated(ms: Seq<Listed>, t: u64, i: int)
    requires
        0 <= i < ms.len(),
        ms[i].0.timestamp == t,
    ensures
        inbox_commands::dated_at(ms, t) >= 1,
        (exists|k: int| 0 <= k < ms.len() && k != i && (#[trigger] ms[k]).0.timestamp == t)
            <==> inbox_commands::dated_at(ms, t) >= 2,
    decreases ms.len(),
{
    let front = ms.drop_last();
    if i < front.len() {
        lemma_dated(front, t, i);
        if exists|k: int| 0 <= k < front.len() && k != i && (#[trigger] front[k]).0.timestamp == t {
            let k = choose|k: int|
                0 <= k < front.len() && k != i && (#[trigger] front[k]).0.timestamp == t;
            assert(ms[k].0.timestamp == t);
        }
        if exists|k: int| 0 <= k < ms.len() && k != i && (#[trigger] ms[k]).0.timestamp == t {
            let k = choose|k: int|
                0 <= k < ms.len() && k != i && (#[trigger] ms[k]).0.timestamp == t;
            if k < front.len() {
                assert(front[k].0.timestamp == t);
            }
        }
        if ms.last().0.timestamp == t {
            assert(ms[ms.len() - 1].0.timestamp == t);
        }
    } else {
        lemma_any_dated(front, t);
        if exists|k: int| 0 <= k < front.len() && (#[trigger] front[k]).0.timestamp == t {
            let k = choose|k: int| 0 <= k < front.len() && (#[trigger] front[k]).0.timestamp == t;
            assert(ms[k].0.timestamp == t);
        }
        if exists|k: int| 0 <= k < ms.len() && k != i && (#[trigger] ms[k]).0.timestamp == t {
            let k = choose|k: int|
                0 <= k < ms.len() && k != i && (#[trigger] ms[k]).0.timestamp == t;
            assert(front[k].0.timestamp == t);
        }
    }
}

proof fn lemma_any_dated(ms: Seq<Listed>, t: u64)
    ensures
        (exists|k: int| 0 <= k < ms.len() && (#[trigger] ms[k]).0.timestamp == t)
            <==> inbox_commands::dated_at(ms, t) >= 1,
    decreases ms.len(),
{
    if ms.len() > 0 {
        let front = ms.drop_last();
        lemma_any_dated(front, t);
        if exists|k: int| 0 <= k < front.len() && (#[trigger] front[k]).0.timestamp == t {
            let k = choose|k: int| 0 <= k < front.len() && (#[trigger] front[k]).0.timestamp == t;
            assert(ms[k].0.timestamp == t);
        }
        if exists|k: int| 0 <= k < ms.len() && (#[trigger] ms[k]).0.timestamp == t {
            let k = choose|k: int| 0 <= k < ms.len() && (#[trigger] ms[k]).0.timestamp == t;
            if k < front.len() {
                assert(front[k].0.timestamp == t);
            }
        }
        if ms.last().0.timestamp == t {
            assert(ms[ms.len() - 1].0.timestamp == t);
        }
    }
}

/// A digest puts messages together exactly if they are nudges of one sender,
/// statuses on one task, or statuses on no task of one sender.
pub proof fn law_digests_put_like_together(ms: Seq<Listed>, i: int, j: int)
    requires
        0 <= i < ms.len(),
        0 <= j < ms.len(),
    ensures
        ({
            let a = ms[i].0;
            let b = ms[j].0;
            let ca = inbox::category_of(a.body@);
            let cb = inbox::category_of(b.body@);
            let ta = inbox::task_id_of(a.body@);
            let tb = inbox::task_id_of(b.body@);
            let nudges = ca == MessageCategory::Nudge && cb == MessageCategory::Nudge;
            let statuses = ca == MessageCategory::Status && cb == MessageCategory::Status;
            let one_task = ta is Some && tb is Some && ta->Some_0 == tb->Some_0;
            let no_task = ta is None && tb is None;
            &&& nudges ==> (inbox::same_group(ms, i, j) <==> a.from@ == b.from@)
            &&& statuses ==> (inbox::same_group(ms, i, j) <==> one_task || (no_task && a.from@
                == b.from@))
            &&& !nudges && !statuses ==> (inbox::same_group(ms, i, j) <==> i == j)
        }),
{
}

/// A selector that names no message, or more than one, is answered with its own
/// text, with the member or with how many messages it names.
pub proof fn law_unclear_selectors_are_told(member: Seq<char>, selector: Seq<char>, found: nat)
    ensures
        ({
            let e = inbox_commands::selection_error(member, selector, found);
            &&& found == 0 ==> e == "no message matching '"@ + selector + "' in "@ + member
                + "'s inbox"@
            &&& found > 0 ==> text::starts_with(
                e,
                "'"@ + selector + "' matches "@ + text::decimal(found),
            )
        }),
{
    if found > 0 {
        let e = inbox_commands::selection_error(member, selector, found);
        let head = "'"@ + selector + "' matches "@ + text::decimal(found);
        let n = head.len() as int;
        assert(e =~= head + e.skip(n)) by {
            assert(e.subrange(0, n) =~= head);
        }
        lemma_holds(Seq::empty(), head, e.skip(n));
    }
}

} // verus!
