//! Inboxes split into queues by urgency.
//!
//! Each member's inbox has four queues, each a mailbox of its own under
//! `<inboxes root>/<member>/<tier>`:
//!
//! - `priority`: escalations and blockers,
//! - `work`: review requests,
//! - `content`: status updates,
//! - `telemetry`: nudges.
//!
//! Each tier has its own time to live, so that stale telemetry does not drown
//! what matters. The flat mailbox at `<inboxes root>/<member>` goes on
//! working: reads look at both.

use vstd::prelude::*;
use vstd::string::*;

use crate::clock::{now_unix, Duration};
use crate::inbox;
use crate::inbox::{classify_message, clone_message, InboxMessage, Listed, MessageCategory};
use crate::inbox_queue;
use crate::inbox_queue::{
    deliver_to_inbox, expire_at, expire_stale_pending_messages_at, pending_at,
    pending_message_count, pending_messages,
};
use crate::mail;
use crate::mail::{sort_by_time, MailStore, Mailbox};
use crate::paths;
use crate::paths::joined;
use crate::text::copy;

verus! {

/// A queue, named after how urgent its messages are.
#[derive(Clone, Copy, Debug, PartialEq, Eq, PartialOrd, Ord, Hash, Structural)]
pub enum QueueTier {
    /// Escalations and blockers.
    Priority,
    /// Review requests.
    Work,
    /// Status updates.
    Content,
    /// Nudges.
    Telemetry,
}

impl QueueTier {
    /// The name of the tier's directory.
    pub open spec fn dir(self) -> Seq<char> {
        match self {
            QueueTier::Priority => "priority"@,
            QueueTier::Work => "work"@,
            QueueTier::Content => "content"@,
            QueueTier::Telemetry => "telemetry"@,
        }
    }

    /// All tiers, the most urgent first.
    pub fn all() -> (r: [QueueTier; 4])
        ensures
            r@ == all_tiers(),
    {
        [QueueTier::Priority, QueueTier::Work, QueueTier::Content, QueueTier::Telemetry]
    }

    /// The name of the tier's directory.
    pub fn subdir(&self) -> (r: &'static str)
        ensures
            r@ == self.dir(),
    {
        match self {
            QueueTier::Priority => "priority",
            QueueTier::Work => "work",
            QueueTier::Content => "content",
            QueueTier::Telemetry => "telemetry",
        }
    }

    /// The name of the tier in prompts and status output.
    pub fn label(&self) -> (r: &'static str)
        ensures
            r@ == (match self {
                QueueTier::Priority => "PRIORITY"@,
                QueueTier::Work => "WORK"@,
                QueueTier::Content => "CONTENT"@,
                QueueTier::Telemetry => "TELEMETRY"@,
            }),
    {
        match self {
            QueueTier::Priority => "PRIORITY",
            QueueTier::Work => "WORK",
            QueueTier::Content => "CONTENT",
            QueueTier::Telemetry => "TELEMETRY",
        }
    }

    /// How the tier is printed.
    pub fn to_text(&self) -> (r: String)
        ensures
            r@ == self.dir(),
    {
        copy(self.subdir())
    }
}

/// All tiers, the most urgent first.
pub open spec fn all_tiers() -> Seq<QueueTier> {
    seq![QueueTier::Priority, QueueTier::Work, QueueTier::Content, QueueTier::Telemetry]
}

/// The tier for a category of messages.
pub open spec fn tier_of(category: MessageCategory) -> QueueTier {
    match category {
        MessageCategory::Escalation => QueueTier::Priority,
        MessageCategory::Blocker => QueueTier::Priority,
        MessageCategory::ReviewRequest => QueueTier::Work,
        MessageCategory::Status => QueueTier::Content,
        MessageCategory::Nudge => QueueTier::Telemetry,
    }
}

/// The tier to which messages of a category go.
pub fn category_to_tier(category: MessageCategory) -> (r: QueueTier)
    ensures
        r == tier_of(category),
{
    match category {
        MessageCategory::Escalation => QueueTier::Priority,
        MessageCategory::Blocker => QueueTier::Priority,
        MessageCategory::ReviewRequest => QueueTier::Work,
        MessageCategory::Status => QueueTier::Content,
        MessageCategory::Nudge => QueueTier::Telemetry,
    }
}

impl MessageCategory {
    /// The name of the queue to which messages of this category go.
    pub fn queue_tier(&self) -> (r: &'static str)
        ensures
            r@ == tier_of(*self).dir(),
    {
        category_to_tier(*self).subdir()
    }
}

/// How long a message may stay pending, by tier.
#[derive(Clone, Copy, Debug)]
pub struct TieredTtlConfig {
    pub priority: Duration,
    pub work: Duration,
    pub content: Duration,
    pub telemetry: Duration,
}

impl TieredTtlConfig {
    /// The time to live of a tier.
    pub open spec fn ttl(self, tier: QueueTier) -> Duration {
        match tier {
            QueueTier::Priority => self.priority,
            QueueTier::Work => self.work,
            QueueTier::Content => self.content,
            QueueTier::Telemetry => self.telemetry,
        }
    }

    /// Every span is written with less than a second of nanoseconds.
    pub open spec fn wf(self) -> bool {
        &&& self.priority.nanos < 1_000_000_000
        &&& self.work.nanos < 1_000_000_000
        &&& self.content.nanos < 1_000_000_000
        &&& self.telemetry.nanos < 1_000_000_000
    }

    /// The time to live of a tier.
    pub fn for_tier(&self, tier: QueueTier) -> (r: Duration)
        ensures
            r == self.ttl(tier),
    {
        match tier {
            QueueTier::Priority => self.priority,
            QueueTier::Work => self.work,
            QueueTier::Content => self.content,
            QueueTier::Telemetry => self.telemetry,
        }
    }
}

impl Default for TieredTtlConfig {
    /// One hour, half an hour, a quarter of an hour and five minutes.
    fn default() -> (r: Self)
        ensures
            r.wf(),
            r.priority == (Duration { secs: 3600, nanos: 0 }),
            r.work == (Duration { secs: 1800, nanos: 0 }),
            r.content == (Duration { secs: 900, nanos: 0 }),
            r.telemetry == (Duration { secs: 300, nanos: 0 }),
    {
        TieredTtlConfig {
            priority: Duration::from_secs(3600),
            work: Duration::from_secs(1800),
            content: Duration::from_secs(900),
            telemetry: Duration::from_secs(300),
        }
    }
}

/// How many messages an expiry took out of each tier.
#[derive(Clone, Copy, Debug)]
pub struct ExpiredCounts {
    pub priority: usize,
    pub work: usize,
    pub content: usize,
    pub telemetry: usize,
}

impl Default for ExpiredCounts {
    fn default() -> (r: Self)
        ensures
            forall|tier: QueueTier| #[trigger] r.count(tier) == 0,
    {
        ExpiredCounts { priority: 0, work: 0, content: 0, telemetry: 0 }
    }
}

impl ExpiredCounts {
    /// The count of a tier.
    pub open spec fn count(self, tier: QueueTier) -> usize {
        match tier {
            QueueTier::Priority => self.priority,
            QueueTier::Work => self.work,
            QueueTier::Content => self.content,
            QueueTier::Telemetry => self.telemetry,
        }
    }

    /// The sum over all tiers.
    pub fn total(&self) -> (r: usize)
        requires
            self.priority + self.work + self.content + self.telemetry <= usize::MAX,
        ensures
            r == self.priority + self.work + self.content + self.telemetry,
    {
        self.priority + self.work + self.content + self.telemetry
    }
}

/// Where the queue of a member's tier is.
pub open spec fn tier_path(inboxes_root: Seq<char>, member: Seq<char>, tier: QueueTier) -> Seq<
    char,
> {
    paths::join_path(inbox_queue::inbox_path(inboxes_root, member), tier.dir())
}

/// Where the queue of a member's tier is.
pub fn tier_dir(inboxes_root: &str, member: &str, tier: QueueTier) -> (r: String)
    ensures
        r@ == tier_path(inboxes_root@, member@, tier),
{
    joined(joined(inboxes_root, member).as_str(), tier.subdir())
}

/// The queues of one member never share a mailbox, neither with each other
/// nor with the flat mailbox.
pub proof fn law_queues_are_apart(inboxes_root: Seq<char>, member: Seq<char>)
    ensures
        forall|a: QueueTier, b: QueueTier|
            a != b ==> #[trigger] tier_path(inboxes_root, member, a) != #[trigger] tier_path(
                inboxes_root,
                member,
                b,
            ),
        forall|a: QueueTier| #[trigger]
            tier_path(inboxes_root, member, a) != inbox_queue::inbox_path(inboxes_root, member),
{
    reveal_strlit("priority");
    reveal_strlit("work");
    reveal_strlit("content");
    reveal_strlit("telemetry");
    let base = inbox_queue::inbox_path(inboxes_root, member);
    assert forall|a: QueueTier, b: QueueTier| a != b implies #[trigger] tier_path(
        inboxes_root,
        member,
        a,
    ) != #[trigger] tier_path(inboxes_root, member, b) by {
        assert(tier_path(inboxes_root, member, a).len() - a.dir().len() == tier_path(
            inboxes_root,
            member,
            b,
        ).len() - b.dir().len());
        assert(a.dir().len() != b.dir().len());
    }
    assert forall|a: QueueTier| #[trigger] tier_path(inboxes_root, member, a) != base by {
        assert(tier_path(inboxes_root, member, a).len() >= base.len() + a.dir().len());
        assert(a.dir().len() > 0);
    }
}

/// The store with a mailbox for each tier of a member.
pub open spec fn tiers_created(
    store: Map<Seq<char>, Mailbox>,
    inboxes_root: Seq<char>,
    member: Seq<char>,
) -> Map<Seq<char>, Mailbox> {
    let s1 = mail::created(store, tier_path(inboxes_root, member, QueueTier::Priority));
    let s2 = mail::created(s1, tier_path(inboxes_root, member, QueueTier::Work));
    let s3 = mail::created(s2, tier_path(inboxes_root, member, QueueTier::Content));
    mail::created(s3, tier_path(inboxes_root, member, QueueTier::Telemetry))
}

/// Creates the mailboxes of a member's tiers where they are missing.
pub fn init_tiered_inbox(store: &mut MailStore, inboxes_root: &str, member: &str)
    requires
        old(store).wf(),
    ensures
        final(store).wf(),
        final(store)@ == tiers_created(old(store)@, inboxes_root@, member@),
{
    store.create(tier_dir(inboxes_root, member, QueueTier::Priority).as_str());
    store.create(tier_dir(inboxes_root, member, QueueTier::Work).as_str());
    store.create(tier_dir(inboxes_root, member, QueueTier::Content).as_str());
    store.create(tier_dir(inboxes_root, member, QueueTier::Telemetry).as_str());
}

/// The tier for a message: the given one, else the one for its category.
pub open spec fn routed(msg: InboxMessage, tier: Option<QueueTier>) -> QueueTier {
    match tier {
        Some(t) => t,
        None => tier_of(inbox::category_of(msg.body@)),
    }
}

/// The tier to which a message goes.
pub fn route(msg: &InboxMessage, tier: Option<QueueTier>) -> (r: QueueTier)
    ensures
        r == routed(*msg, tier),
{
    match tier {
        Some(t) => t,
        None => category_to_tier(classify_message(msg)),
    }
}

/// Delivers a message to a tier of its recipient, under an id that is not in
/// use there: to the given tier, or else to the one for its category. Returns
/// the tier and the id.
pub fn deliver_to_tiered_inbox(
    store: &mut MailStore,
    inboxes_root: &str,
    msg: &InboxMessage,
    tier: Option<QueueTier>,
    id: &str,
) -> (r: (QueueTier, String))
    requires
        old(store).wf(),
        inbox_queue::is_fresh(
            old(store)@,
            tier_path(inboxes_root@, msg.to@, routed(*msg, tier)),
            id@,
        ),
    ensures
        final(store).wf(),
        r.0 == routed(*msg, tier),
        r.1@ == id@,
        inbox_queue::is_delivery(
            old(store)@,
            final(store)@,
            tier_path(inboxes_root@, msg.to@, routed(*msg, tier)),
            *msg,
            id@,
        ),
{
    let tier: QueueTier = route(msg, tier);
    store.store_new(tier_dir(inboxes_root, msg.to.as_str(), tier).as_str(), msg, id);
    (tier, copy(id))
}

/// What is pending in a member's tier, the oldest first.
pub open spec fn pending_of_tier(
    store: Map<Seq<char>, Mailbox>,
    inboxes_root: Seq<char>,
    member: Seq<char>,
    tier: QueueTier,
) -> Seq<InboxMessage> {
    inbox_queue::pending_in(mail::mailbox_at(store, tier_path(inboxes_root, member, tier)))
}

/// Lists the pending messages of one tier, the oldest first. A tier without
/// a mailbox has none.
pub fn pending_messages_for_tier(
    store: &MailStore,
    inboxes_root: &str,
    member: &str,
    tier: QueueTier,
) -> (r: Vec<InboxMessage>)
    requires
        store.wf(),
    ensures
        r@ == pending_of_tier(store@, inboxes_root@, member@, tier),
{
    pending_at(store, tier_dir(inboxes_root, member, tier).as_str())
}

/// Lists the pending messages by tier, the most urgent tier first.
pub fn pending_messages_by_tier(store: &MailStore, inboxes_root: &str, member: &str) -> (r: Vec<
    (QueueTier, Vec<InboxMessage>),
>)
    requires
        store.wf(),
    ensures
        r@.len() == 4,
        forall|k: int|
            0 <= k < 4 ==> (#[trigger] r@[k]).0 == all_tiers()[k] && r@[k].1@ == pending_of_tier(
                store@,
                inboxes_root@,
                member@,
                all_tiers()[k],
            ),
{
    let mut out: Vec<(QueueTier, Vec<InboxMessage>)> = Vec::new();
    let tiers: [QueueTier; 4] = QueueTier::all();
    let mut i: usize = 0;
    while i < 4
        invariant
            i <= 4,
            store.wf(),
            tiers@ == all_tiers(),
            out@.len() == i,
            forall|k: int|
                0 <= k < i ==> (#[trigger] out@[k]).0 == all_tiers()[k] && out@[k].1@
                    == pending_of_tier(store@, inboxes_root@, member@, all_tiers()[k]),
        decreases 4 - i,
    {
        let tier: QueueTier = tiers[i];
        out.push((tier, pending_messages_for_tier(store, inboxes_root, member, tier)));
        i += 1;
    }
    out
}

/// Marks a pending message of a tier as delivered. Fails where none has this
/// id.
pub fn mark_tiered_delivered(
    store: &mut MailStore,
    inboxes_root: &str,
    member: &str,
    tier: QueueTier,
    id: &str,
) -> (r: Result<(), String>)
    requires
        old(store).wf(),
    ensures
        final(store).wf(),
        r is Err <==> inbox_queue::is_fresh(
            old(store)@,
            tier_path(inboxes_root@, member@, tier),
            id@,
        ),
        r is Ok ==> final(store)@ == inbox_queue::marked(
            old(store)@,
            tier_path(inboxes_root@, member@, tier),
            id@,
        ),
        r matches Err(e) ==> e@ == "failed to mark tiered message '"@ + id@
            + "' as delivered for '"@ + member@ + "/"@ + tier.dir() + "'"@ && final(store)@
            == old(store)@,
{
    if store.move_new_to_cur(tier_dir(inboxes_root, member, tier).as_str(), id) {
        Ok(())
    } else {
        Err(
            copy("failed to mark tiered message '").concat(id).concat(
                "' as delivered for '",
            ).concat(member).concat("/").concat(tier.subdir()).concat("'"),
        )
    }
}

/// How many messages an expiry takes out of a mailbox.
pub open spec fn stale_count(m: Mailbox, now: u64, max_age: Duration) -> nat {
    inbox_queue::stale_of(inbox_queue::pending_in(m), now, max_age).len()
}

/// The mailbox `after` is `before` after an expiry.
pub open spec fn is_expired_to(before: Mailbox, after: Mailbox, now: u64, max_age: Duration) -> bool {
    inbox_queue::is_expiry(
        before,
        after,
        inbox_queue::stale_of(inbox_queue::pending_in(before), now, max_age),
        now,
        max_age,
    )
}

/// Every tier of the member was expired by its own time to live, with these
/// counts, and no other mailbox changed.
pub open spec fn is_tiered_expiry(
    before: Map<Seq<char>, Mailbox>,
    after: Map<Seq<char>, Mailbox>,
    inboxes_root: Seq<char>,
    member: Seq<char>,
    counts: ExpiredCounts,
    now: u64,
    ttls: TieredTtlConfig,
) -> bool {
    &&& forall|tier: QueueTier|
        {
            let path = #[trigger] tier_path(inboxes_root, member, tier);
            &&& is_expired_to(
                mail::mailbox_at(before, path),
                mail::mailbox_at(after, path),
                now,
                ttls.ttl(tier),
            )
            &&& counts.count(tier) == stale_count(
                mail::mailbox_at(before, path),
                now,
                ttls.ttl(tier),
            )
        }
    &&& forall|p: Seq<char>|
        (forall|tier: QueueTier| p != #[trigger] tier_path(inboxes_root, member, tier))
            ==> #[trigger] mail::mailbox_at(after, p) == mail::mailbox_at(before, p)
    &&& after.dom() == before.dom()
}

/// Expires the pending messages of every tier that are older than the tier's
/// time to live at `now`, by marking them as delivered.
pub fn expire_tiered_queues_at(
    store: &mut MailStore,
    inboxes_root: &str,
    member: &str,
    now: u64,
    ttls: &TieredTtlConfig,
) -> (r: ExpiredCounts)
    requires
        old(store).wf(),
        ttls.wf(),
    ensures
        final(store).wf(),
        is_tiered_expiry(
            old(store)@,
            final(store)@,
            inboxes_root@,
            member@,
            r,
            now,
            *ttls,
        ),
{
    proof {
        law_queues_are_apart(inboxes_root@, member@);
    }
    let priority: usize = expire_at(
        store,
        tier_dir(inboxes_root, member, QueueTier::Priority).as_str(),
        now,
        ttls.priority,
    ).len();
    let work: usize = expire_at(
        store,
        tier_dir(inboxes_root, member, QueueTier::Work).as_str(),
        now,
        ttls.work,
    ).len();
    let content: usize = expire_at(
        store,
        tier_dir(inboxes_root, member, QueueTier::Content).as_str(),
        now,
        ttls.content,
    ).len();
    let telemetry: usize = expire_at(
        store,
        tier_dir(inboxes_root, member, QueueTier::Telemetry).as_str(),
        now,
        ttls.telemetry,
    ).len();
    ExpiredCounts { priority, work, content, telemetry }
}

/// Expires the pending messages of every tier by its time to live, by the
/// clock.
pub fn expire_tiered_queues(
    store: &mut MailStore,
    inboxes_root: &str,
    member: &str,
    ttls: &TieredTtlConfig,
) -> (r: ExpiredCounts)
    requires
        old(store).wf(),
        ttls.wf(),
    ensures
        final(store).wf(),
        exists|now: u64| #[trigger]
            is_tiered_expiry(
                old(store)@,
                final(store)@,
                inboxes_root@,
                member@,
                r,
                now,
                *ttls,
            ),
{
    let now: u64 = now_unix();
    expire_tiered_queues_at(store, inboxes_root, member, now, ttls)
}

/// How many entries are pending in a tier, unreadable ones too.
pub open spec fn tier_count(
    store: Map<Seq<char>, Mailbox>,
    inboxes_root: Seq<char>,
    member: Seq<char>,
    tier: QueueTier,
) -> nat {
    mail::mailbox_at(store, tier_path(inboxes_root, member, tier)).new.len()
}

fn count_tier(store: &MailStore, inboxes_root: &str, member: &str, tier: QueueTier) -> (r: usize)
    requires
        store.wf(),
    ensures
        r == tier_count(store@, inboxes_root@, member@, tier),
{
    store.count_new(tier_dir(inboxes_root, member, tier).as_str())
}

/// Counts the pending entries of each tier.
pub fn tiered_pending_counts(store: &MailStore, inboxes_root: &str, member: &str) -> (r: [(
    QueueTier,
    usize,
); 4])
    requires
        store.wf(),
    ensures
        forall|k: int|
            0 <= k < 4 ==> (#[trigger] r@[k]).0 == all_tiers()[k] && r@[k].1 == tier_count(
                store@,
                inboxes_root@,
                member@,
                all_tiers()[k],
            ),
{
    [
        (QueueTier::Priority, count_tier(store, inboxes_root, member, QueueTier::Priority)),
        (QueueTier::Work, count_tier(store, inboxes_root, member, QueueTier::Work)),
        (QueueTier::Content, count_tier(store, inboxes_root, member, QueueTier::Content)),
        (QueueTier::Telemetry, count_tier(store, inboxes_root, member, QueueTier::Telemetry)),
    ]
}

/// Delivers a message to its tier where the tiers are in use, else to the
/// flat mailbox, under an id that is not in use there. Returns the id.
pub fn deliver_flag_aware(
    store: &mut MailStore,
    inboxes_root: &str,
    msg: &InboxMessage,
    tiered: bool,
    id: &str,
) -> (r: String)
    requires
        old(store).wf(),
        inbox_queue::is_fresh(old(store)@, flag_path(inboxes_root@, *msg, tiered), id@),
    ensures
        final(store).wf(),
        r@ == id@,
        inbox_queue::is_delivery(
            old(store)@,
            final(store)@,
            flag_path(inboxes_root@, *msg, tiered),
            *msg,
            id@,
        ),
{
    if tiered {
        deliver_to_tiered_inbox(store, inboxes_root, msg, None, id).1
    } else {
        deliver_to_inbox(store, inboxes_root, msg, id)
    }
}

/// The mailbox to which a message goes.
pub open spec fn flag_path(inboxes_root: Seq<char>, msg: InboxMessage, tiered: bool) -> Seq<char> {
    if tiered {
        tier_path(inboxes_root, msg.to@, routed(msg, None))
    } else {
        inbox_queue::inbox_path(inboxes_root, msg.to@)
    }
}

/// The mailbox to which a message goes: that of its tier where the tiers are
/// in use, else the flat one.
pub fn delivery_dir(inboxes_root: &str, msg: &InboxMessage, tiered: bool) -> (r: String)
    ensures
        r@ == flag_path(inboxes_root@, *msg, tiered),
{
    if tiered {
        tier_dir(inboxes_root, msg.to.as_str(), route(msg, None))
    } else {
        joined(inboxes_root, msg.to.as_str())
    }
}

/// How many entries are pending for a member, in the flat mailbox and in the
/// tiers.
pub open spec fn union_count(
    store: Map<Seq<char>, Mailbox>,
    inboxes_root: Seq<char>,
    member: Seq<char>,
) -> nat {
    mail::mailbox_at(store, inbox_queue::inbox_path(inboxes_root, member)).new.len() + tier_count(
        store,
        inboxes_root,
        member,
        QueueTier::Priority,
    ) + tier_count(store, inboxes_root, member, QueueTier::Work) + tier_count(
        store,
        inboxes_root,
        member,
        QueueTier::Content,
    ) + tier_count(store, inboxes_root, member, QueueTier::Telemetry)
}

/// Counts what is pending for a member, in the flat mailbox and in the tiers.
pub fn pending_message_count_union(store: &MailStore, inboxes_root: &str, member: &str) -> (r:
    usize)
    requires
        store.wf(),
        union_count(store@, inboxes_root@, member@) <= usize::MAX,
    ensures
        r == union_count(store@, inboxes_root@, member@),
{
    let flat: usize = pending_message_count(store, inboxes_root, member);
    let tiers: [(QueueTier, usize); 4] = tiered_pending_counts(store, inboxes_root, member);
    assert(tiers@[0].1 == tier_count(store@, inboxes_root@, member@, QueueTier::Priority));
    assert(tiers@[1].1 == tier_count(store@, inboxes_root@, member@, QueueTier::Work));
    assert(tiers@[2].1 == tier_count(store@, inboxes_root@, member@, QueueTier::Content));
    assert(tiers@[3].1 == tier_count(store@, inboxes_root@, member@, QueueTier::Telemetry));
    flat + tiers[0].1 + tiers[1].1 + tiers[2].1 + tiers[3].1
}

/// The messages as listed when not delivered.
pub open spec fn undelivered(ms: Seq<InboxMessage>) -> Seq<Listed> {
    Seq::new(ms.len(), |i: int| (ms[i], false))
}

/// All that is pending for a member: the flat mailbox, then the tiers, the
/// most urgent first.
pub open spec fn pending_anywhere(
    store: Map<Seq<char>, Mailbox>,
    inboxes_root: Seq<char>,
    member: Seq<char>,
) -> Seq<InboxMessage> {
    inbox_queue::pending_in(mail::mailbox_at(store, inbox_queue::inbox_path(inboxes_root, member)))
        + pending_of_tier(store, inboxes_root, member, QueueTier::Priority) + pending_of_tier(
        store,
        inboxes_root,
        member,
        QueueTier::Work,
    ) + pending_of_tier(store, inboxes_root, member, QueueTier::Content) + pending_of_tier(
        store,
        inboxes_root,
        member,
        QueueTier::Telemetry,
    )
}

/// All that is pending for a member, in order of time; messages of one second
/// stay in the order of `pending_anywhere`.
pub open spec fn pending_union(
    store: Map<Seq<char>, Mailbox>,
    inboxes_root: Seq<char>,
    member: Seq<char>,
) -> Seq<InboxMessage> {
    inbox_queue::messages_of(
        mail::by_time(undelivered(pending_anywhere(store, inboxes_root, member))),
    )
}

fn append_listed(out: &mut Vec<Listed>, more: Vec<InboxMessage>)
    ensures
        final(out)@ == old(out)@ + undelivered(more@),
{
    let ghost start = out@;
    let mut i: usize = 0;
    while i < more.len()
        invariant
            i <= more@.len(),
            out@ == start + undelivered(more@).take(i as int),
        decreases more@.len() - i,
    {
        out.push((clone_message(&more[i]), false));
        i += 1;
        assert(undelivered(more@).take(i as int) == undelivered(more@).take(i - 1).push(
            undelivered(more@)[i - 1],
        ));
    }
    assert(undelivered(more@).take(i as int) == undelivered(more@));
}

/// Lists what is pending for a member, in the flat mailbox and in the tiers,
/// in order of time.
pub fn pending_messages_union(store: &MailStore, inboxes_root: &str, member: &str) -> (r: Vec<
    InboxMessage,
>)
    requires
        store.wf(),
    ensures
        r@ == pending_union(store@, inboxes_root@, member@),
{
    let mut all: Vec<Listed> = Vec::new();
    append_listed(&mut all, pending_messages(store, inboxes_root, member));
    append_listed(
        &mut all,
        pending_messages_for_tier(store, inboxes_root, member, QueueTier::Priority),
    );
    append_listed(
        &mut all,
        pending_messages_for_tier(store, inboxes_root, member, QueueTier::Work),
    );
    append_listed(
        &mut all,
        pending_messages_for_tier(store, inboxes_root, member, QueueTier::Content),
    );
    append_listed(
        &mut all,
        pending_messages_for_tier(store, inboxes_root, member, QueueTier::Telemetry),
    );
    assert(all@ =~= undelivered(pending_anywhere(store@, inboxes_root@, member@)));
    inbox_queue::strip(sort_by_time(&all))
}

/// Expires what is stale at `now`: the flat mailbox by `flat_max_age`, and,
/// where the tiers are in use, each tier by its time to live.
pub fn expire_flag_aware_at(
    store: &mut MailStore,
    inboxes_root: &str,
    member: &str,
    now: u64,
    flat_max_age: Duration,
    ttls: &TieredTtlConfig,
    tiered: bool,
) -> (r: (Vec<InboxMessage>, Option<ExpiredCounts>))
    requires
        old(store).wf(),
        flat_max_age.nanos < 1_000_000_000,
        ttls.wf(),
    ensures
        final(store).wf(),
        is_flag_expiry(
            old(store)@,
            final(store)@,
            inboxes_root@,
            member@,
            r.0@,
            r.1,
            now,
            flat_max_age,
            *ttls,
        ),
        r.1 is Some <==> tiered,
{
    let flat: Vec<InboxMessage> = expire_stale_pending_messages_at(
        store,
        inboxes_root,
        member,
        now,
        flat_max_age,
    );
    let counts: Option<ExpiredCounts> = if tiered {
        Some(expire_tiered_queues_at(store, inboxes_root, member, now, ttls))
    } else {
        None
    };
    proof {
        law_queues_are_apart(inboxes_root@, member@);
    }
    (flat, counts)
}

/// The flat mailbox was expired, and the tiers too where there are counts,
/// and nothing else changed.
pub open spec fn is_flag_expiry(
    before: Map<Seq<char>, Mailbox>,
    after: Map<Seq<char>, Mailbox>,
    inboxes_root: Seq<char>,
    member: Seq<char>,
    gone: Seq<InboxMessage>,
    counts: Option<ExpiredCounts>,
    now: u64,
    flat_max_age: Duration,
    ttls: TieredTtlConfig,
) -> bool {
    let flat = inbox_queue::inbox_path(inboxes_root, member);
    &&& inbox_queue::is_expiry(
        mail::mailbox_at(before, flat),
        mail::mailbox_at(after, flat),
        gone,
        now,
        flat_max_age,
    )
    &&& match counts {
        Some(c) => forall|tier: QueueTier|
            {
                let path = #[trigger] tier_path(inboxes_root, member, tier);
                &&& is_expired_to(
                    mail::mailbox_at(before, path),
                    mail::mailbox_at(after, path),
                    now,
                    ttls.ttl(tier),
                )
                &&& c.count(tier) == stale_count(
                    mail::mailbox_at(before, path),
                    now,
                    ttls.ttl(tier),
                )
            },
        None => forall|tier: QueueTier|
            mail::mailbox_at(after, #[trigger] tier_path(inboxes_root, member, tier))
                == mail::mailbox_at(before, tier_path(inboxes_root, member, tier)),
    }
    &&& forall|p: Seq<char>|
        p != flat && (forall|tier: QueueTier|
            p != #[trigger] tier_path(inboxes_root, member, tier)) ==> #[trigger] mail::mailbox_at(
            after,
            p,
        ) == mail::mailbox_at(before, p)
}

/// Expires what is stale in the flat mailbox and, where they are in use, in
/// the tiers, by the clock.
pub fn expire_flag_aware(
    store: &mut MailStore,
    inboxes_root: &str,
    member: &str,
    flat_max_age: Duration,
    ttls: &TieredTtlConfig,
    tiered: bool,
) -> (r: (Vec<InboxMessage>, Option<ExpiredCounts>))
    requires
        old(store).wf(),
        flat_max_age.nanos < 1_000_000_000,
        ttls.wf(),
    ensures
        final(store).wf(),
        r.1 is Some <==> tiered,
        exists|now: u64| #[trigger]
            is_flag_expiry(
                old(store)@,
                final(store)@,
                inboxes_root@,
                member@,
                r.0@,
                r.1,
                now,
                flat_max_age,
                *ttls,
            ),
{
    let now: u64 = now_unix();
    expire_flag_aware_at(store, inboxes_root, member, now, flat_max_age, ttls, tiered)
}

// ---------------------------------------------------------------------------
// Laws

/// Every message is read back from both layouts: whether it was delivered to
/// the flat mailbox or to its tier, it is among what is pending for its
/// recipient, with everything that was pending before. So switching the tiers
/// on or off strands nothing.
pub proof fn law_no_message_is_stranded(
    before: Map<Seq<char>, Mailbox>,
    after: Map<Seq<char>, Mailbox>,
    inboxes_root: Seq<char>,
    msg: InboxMessage,
    tiered: bool,
    id: Seq<char>,
)
    requires
        inbox_queue::is_delivery(before, after, flag_path(inboxes_root, msg, tiered), msg, id),
        is_valid(before, inboxes_root, msg.to@),
        is_valid(after, inboxes_root, msg.to@),
    ensures
        exists|m: InboxMessage| #[trigger]
            pending_union(after, inboxes_root, msg.to@).contains(m) && mail::is_filed_as(
                m,
                msg,
                id,
            ),
        forall|x: InboxMessage|
            pending_union(before, inboxes_root, msg.to@).contains(x)
                ==> #[trigger] pending_union(after, inboxes_root, msg.to@).contains(x),
        union_count(after, inboxes_root, msg.to@) == union_count(before, inboxes_root, msg.to@) + 1,
{
    let path = flag_path(inboxes_root, msg, tiered);
    inbox_queue::law_delivery_reaches_the_recipient(before, after, path, msg, id);
    law_queues_are_apart(inboxes_root, msg.to@);
    law_union_is_all_that_is_pending(before, inboxes_root, msg.to@);
    law_union_is_all_that_is_pending(after, inboxes_root, msg.to@);
    let m = choose|m: InboxMessage| #[trigger]
        inbox_queue::is_held(mail::mailbox_at(after, path).new, m) && mail::is_filed_as(
            m,
            msg,
            id,
        );
    assert(is_pending_somewhere(after, inboxes_root, msg.to@, m)) by {
        if tiered {
            assert(inbox_queue::is_held(
                mail::mailbox_at(
                    after,
                    tier_path(inboxes_root, msg.to@, routed(msg, None)),
                ).new,
                m,
            ));
        }
    }
    assert(pending_union(after, inboxes_root, msg.to@).contains(m));
    assert forall|x: InboxMessage|
        pending_union(before, inboxes_root, msg.to@).contains(x) implies #[trigger] pending_union(
        after,
        inboxes_root,
        msg.to@,
    ).contains(x) by {
        assert(is_pending_somewhere(before, inboxes_root, msg.to@, x));
        let flat = inbox_queue::inbox_path(inboxes_root, msg.to@);
        if inbox_queue::is_held(mail::mailbox_at(before, flat).new, x) {
            assert(inbox_queue::is_held(mail::mailbox_at(after, flat).new, x));
        } else {
            let t = choose|t: QueueTier|
                inbox_queue::is_held(
                    mail::mailbox_at(before, #[trigger] tier_path(inboxes_root, msg.to@, t)).new,
                    x,
                );
            assert(inbox_queue::is_held(
                mail::mailbox_at(after, tier_path(inboxes_root, msg.to@, t)).new,
                x,
            ));
        }
        assert(is_pending_somewhere(after, inboxes_root, msg.to@, x));
    }
}

/// The member's mailboxes are sound, and what is pending can be counted.
pub open spec fn is_valid(
    store: Map<Seq<char>, Mailbox>,
    inboxes_root: Seq<char>,
    member: Seq<char>,
) -> bool {
    let flat = mail::mailbox_at(store, inbox_queue::inbox_path(inboxes_root, member));
    &&& mail::is_sound(flat)
    &&& mail::readable(flat.new, false).len() <= usize::MAX
    &&& forall|tier: QueueTier|
        {
            let m = mail::mailbox_at(store, #[trigger] tier_path(inboxes_root, member, tier));
            mail::is_sound(m) && mail::readable(m.new, false).len() <= usize::MAX
        }
    &&& pending_anywhere(store, inboxes_root, member).len() <= usize::MAX
}

/// The flat mailbox or a tier of the member holds this message.
pub open spec fn is_pending_somewhere(
    store: Map<Seq<char>, Mailbox>,
    inboxes_root: Seq<char>,
    member: Seq<char>,
    x: InboxMessage,
) -> bool {
    ||| inbox_queue::is_held(
        mail::mailbox_at(store, inbox_queue::inbox_path(inboxes_root, member)).new,
        x,
    )
    ||| exists|tier: QueueTier|
        inbox_queue::is_held(
            mail::mailbox_at(store, #[trigger] tier_path(inboxes_root, member, tier)).new,
            x,
        )
}

/// What is listed as pending for a member is exactly what the flat mailbox and
/// the tiers hold, in order of time.
pub proof fn law_union_is_all_that_is_pending(
    store: Map<Seq<char>, Mailbox>,
    inboxes_root: Seq<char>,
    member: Seq<char>,
)
    requires
        is_valid(store, inboxes_root, member),
    ensures
        forall|x: InboxMessage| #[trigger]
            pending_union(store, inboxes_root, member).contains(x) <==> is_pending_somewhere(
                store,
                inboxes_root,
                member,
                x,
            ),
        forall|i: int, j: int|
            0 <= i < j < pending_union(store, inboxes_root, member).len() ==> (
            #[trigger] pending_union(store, inboxes_root, member)[i]).timestamp <= (
            #[trigger] pending_union(store, inboxes_root, member)[j]).timestamp,
        pending_union(store, inboxes_root, member).len() == pending_anywhere(
            store,
            inboxes_root,
            member,
        ).len(),
{
    let all = pending_anywhere(store, inboxes_root, member);
    let ls = undelivered(all);
    let sorted = mail::by_time(ls);
    let u = pending_union(store, inboxes_root, member);
    mail::law_sorting_by_time(ls);
    assert forall|i: int, j: int| 0 <= i < j < u.len() implies (#[trigger] u[i]).timestamp <= (
    #[trigger] u[j]).timestamp by {
        assert(sorted[i].0.timestamp <= sorted[j].0.timestamp);
    }
    let flat = mail::mailbox_at(store, inbox_queue::inbox_path(inboxes_root, member));
    let p = mail::mailbox_at(store, tier_path(inboxes_root, member, QueueTier::Priority));
    let w = mail::mailbox_at(store, tier_path(inboxes_root, member, QueueTier::Work));
    let c = mail::mailbox_at(store, tier_path(inboxes_root, member, QueueTier::Content));
    let t = mail::mailbox_at(store, tier_path(inboxes_root, member, QueueTier::Telemetry));
    inbox_queue::law_pending_is_what_is_held(flat);
    inbox_queue::law_pending_is_what_is_held(p);
    inbox_queue::law_pending_is_what_is_held(w);
    inbox_queue::law_pending_is_what_is_held(c);
    inbox_queue::law_pending_is_what_is_held(t);
    assert forall|x: InboxMessage| #[trigger] u.contains(x) <==> is_pending_somewhere(
        store,
        inboxes_root,
        member,
        x,
    ) by {
        assert(u.contains(x) <==> all.contains(x)) by {
            if u.contains(x) {
                let i = choose|i: int| 0 <= i < u.len() && u[i] == x;
                assert(sorted.contains(sorted[i]));
                assert(ls.contains(sorted[i]));
                let k = choose|k: int| 0 <= k < ls.len() && ls[k] == sorted[i];
                assert(all[k] == x);
            }
            if all.contains(x) {
                let k = choose|k: int| 0 <= k < all.len() && all[k] == x;
                assert(ls[k] == (x, false));
                assert(ls.contains((x, false)));
                assert(sorted.contains((x, false)));
                let i = choose|i: int| 0 <= i < sorted.len() && sorted[i] == (x, false);
                assert(u[i] == x);
            }
        }
        let a = inbox_queue::pending_in(flat);
        let b = inbox_queue::pending_in(p);
        let d = inbox_queue::pending_in(w);
        let e = inbox_queue::pending_in(c);
        let f = inbox_queue::pending_in(t);
        lemma_contains_five(a, b, d, e, f, x);
        if is_pending_somewhere(store, inboxes_root, member, x) {
            assert(a.contains(x) || b.contains(x) || d.contains(x) || e.contains(x) || f.contains(
                x,
            ));
        }
        if all.contains(x) {
            assert(inbox_queue::is_held(flat.new, x) || inbox_queue::is_held(p.new, x)
                || inbox_queue::is_held(w.new, x) || inbox_queue::is_held(c.new, x)
                || inbox_queue::is_held(t.new, x));
        }
    }
}

proof fn lemma_contains_five(
    a: Seq<InboxMessage>,
    b: Seq<InboxMessage>,
    c: Seq<InboxMessage>,
    d: Seq<InboxMessage>,
    e: Seq<InboxMessage>,
    x: InboxMessage,
)
    ensures
        (a + b + c + d + e).contains(x) <==> a.contains(x) || b.contains(x) || c.contains(x)
            || d.contains(x) || e.contains(x),
{
    broadcast use vstd::seq_lib::group_seq_properties;

    assert((a + b).contains(x) <==> a.contains(x) || b.contains(x));
    assert((a + b + c).contains(x) <==> (a + b).contains(x) || c.contains(x));
    assert((a + b + c + d).contains(x) <==> (a + b + c).contains(x) || d.contains(x));
    assert((a + b + c + d + e).contains(x) <==> (a + b + c + d).contains(x) || e.contains(x));
}

/// Urgent messages go where they live longest: under the default times to
/// live, a tier that is more urgent never expires before one that is less so.
pub proof fn law_urgent_tiers_live_longer(ttls: TieredTtlConfig, m: InboxMessage, now: u64)
    requires
        ttls.telemetry.total_nanos() <= ttls.content.total_nanos(),
        ttls.content.total_nanos() <= ttls.work.total_nanos(),
        ttls.work.total_nanos() <= ttls.priority.total_nanos(),
    ensures
        inbox_queue::is_stale(m, now, ttls.ttl(QueueTier::Priority)) ==> inbox_queue::is_stale(
            m,
            now,
            ttls.ttl(QueueTier::Work),
        ),
        inbox_queue::is_stale(m, now, ttls.ttl(QueueTier::Work)) ==> inbox_queue::is_stale(
            m,
            now,
            ttls.ttl(QueueTier::Content),
        ),
        inbox_queue::is_stale(m, now, ttls.ttl(QueueTier::Content)) ==> inbox_queue::is_stale(
            m,
            now,
            ttls.ttl(QueueTier::Telemetry),
        ),
{
}

/// Every pending entry of the mailbox holds a message.
pub open spec fn is_readable(m: Mailbox) -> bool {
    forall|i: int| 0 <= i < m.new.len() ==> (#[trigger] m.new[i]).message is Some
}

proof fn lemma_all_pending(m: Mailbox)
    requires
        is_readable(m),
        m.new.len() <= usize::MAX,
    ensures
        inbox_queue::pending_in(m).len() == m.new.len(),
{
    lemma_all_readable(m.new);
    mail::law_sorting_by_time(mail::readable(m.new, false));
}

proof fn lemma_all_readable(entries: Seq<mail::MailEntry>)
    requires
        forall|i: int| 0 <= i < entries.len() ==> (#[trigger] entries[i]).message is Some,
    ensures
        mail::readable(entries, false).len() == entries.len(),
    decreases entries.len(),
{
    if entries.len() > 0 {
        let front = entries.drop_last();
        assert forall|i: int| 0 <= i < front.len() implies (#[trigger] front[i]).message is Some by {
            assert(front[i] == entries[i]);
        }
        lemma_all_readable(front);
        assert(entries[entries.len() - 1].message is Some);
    }
}

/// The count of what is pending anywhere is the count of the flat mailbox and
/// those of the tiers, and as many messages are listed, where every entry
/// holds one.
pub proof fn law_union_count_is_the_length_of_the_list(
    store: Map<Seq<char>, Mailbox>,
    inboxes_root: Seq<char>,
    member: Seq<char>,
)
    requires
        union_count(store, inboxes_root, member) <= usize::MAX,
        is_readable(mail::mailbox_at(store, inbox_queue::inbox_path(inboxes_root, member))),
        forall|tier: QueueTier|
            is_readable(
                mail::mailbox_at(store, #[trigger] tier_path(inboxes_root, member, tier)),
            ),
    ensures
        union_count(store, inboxes_root, member) == pending_union(
            store,
            inboxes_root,
            member,
        ).len(),
        union_count(store, inboxes_root, member) == mail::mailbox_at(
            store,
            inbox_queue::inbox_path(inboxes_root, member),
        ).new.len() + tier_count(store, inboxes_root, member, all_tiers()[0]) + tier_count(
            store,
            inboxes_root,
            member,
            all_tiers()[1],
        ) + tier_count(store, inboxes_root, member, all_tiers()[2]) + tier_count(
            store,
            inboxes_root,
            member,
            all_tiers()[3],
        ),
{
    let flat = mail::mailbox_at(store, inbox_queue::inbox_path(inboxes_root, member));
    lemma_all_pending(flat);
    lemma_all_pending(
        mail::mailbox_at(store, tier_path(inboxes_root, member, QueueTier::Priority)),
    );
    lemma_all_pending(mail::mailbox_at(store, tier_path(inboxes_root, member, QueueTier::Work)));
    lemma_all_pending(mail::mailbox_at(store, tier_path(inboxes_root, member, QueueTier::Content)));
    lemma_all_pending(
        mail::mailbox_at(store, tier_path(inboxes_root, member, QueueTier::Telemetry)),
    );
    mail::law_sorting_by_time(undelivered(pending_anywhere(store, inboxes_root, member)));
}

} // verus!
