use batty_team::clock::Duration;
use batty_team::inbox::{InboxMessage, MessageCategory};
use batty_team::inbox_queue::{deliver_to_inbox, pending_messages};
use batty_team::inbox_tiered::{
    category_to_tier, deliver_flag_aware, deliver_to_tiered_inbox, delivery_dir, expire_flag_aware,
    expire_flag_aware_at, expire_tiered_queues, expire_tiered_queues_at, init_tiered_inbox,
    mark_tiered_delivered, pending_message_count_union, pending_messages_by_tier,
    pending_messages_for_tier, pending_messages_union, route, tier_dir, tiered_pending_counts,
    QueueTier, TieredTtlConfig,
};
use batty_team::mail::MailStore;

const ROOT: &str = "/tmp/inboxes";

fn count(store: &MailStore, tier: QueueTier) -> usize {
    pending_messages_for_tier(store, ROOT, "eng-1", tier).len()
}

#[test]
fn category_to_tier_maps_all_variants() {
    assert_eq!(
        category_to_tier(MessageCategory::Escalation),
        QueueTier::Priority
    );
    assert_eq!(
        category_to_tier(MessageCategory::Blocker),
        QueueTier::Priority
    );
    assert_eq!(
        category_to_tier(MessageCategory::ReviewRequest),
        QueueTier::Work
    );
    assert_eq!(
        category_to_tier(MessageCategory::Status),
        QueueTier::Content
    );
    assert_eq!(
        category_to_tier(MessageCategory::Nudge),
        QueueTier::Telemetry
    );
}

#[test]
fn queue_tier_subdir_names_are_stable() {
    assert_eq!(QueueTier::Priority.subdir(), "priority");
    assert_eq!(QueueTier::Work.subdir(), "work");
    assert_eq!(QueueTier::Content.subdir(), "content");
    assert_eq!(QueueTier::Telemetry.subdir(), "telemetry");
}

#[test]
fn queue_tiers_are_labelled_and_shown() {
    assert_eq!(QueueTier::Priority.label(), "PRIORITY");
    assert_eq!(QueueTier::Work.label(), "WORK");
    assert_eq!(QueueTier::Content.label(), "CONTENT");
    assert_eq!(QueueTier::Telemetry.label(), "TELEMETRY");
    assert_eq!(QueueTier::Content.to_text(), "content");
}

#[test]
fn init_creates_all_tier_dirs() {
    let mut store = MailStore::new();
    init_tiered_inbox(&mut store, ROOT, "eng-1");
    for tier in QueueTier::all() {
        let base = format!("{}/eng-1/{}", ROOT, tier.subdir());
        assert!(store.has_mailbox(&base), "{} missing", tier.subdir());
    }
    assert!(!store.has_mailbox("/tmp/inboxes/eng-1"));
}

#[test]
fn deliver_auto_classifies_escalation_to_priority() {
    let mut store = MailStore::new();
    let msg = InboxMessage::new_send(
        "manager",
        "eng-1",
        "escalating stuck task #10: engineer has been idle for 45m",
    );
    let (tier, id) = deliver_to_tiered_inbox(&mut store, ROOT, &msg, None, "m1");
    assert_eq!(tier, QueueTier::Priority);
    assert_eq!(id, "m1");

    let pending = pending_messages_for_tier(&store, ROOT, "eng-1", QueueTier::Priority);
    assert_eq!(pending.len(), 1);
    assert_eq!(pending[0].body, msg.body);
}

#[test]
fn deliver_explicit_tier_override_ignores_category() {
    let mut store = MailStore::new();
    // Body classifies as Nudge, but we override.
    let msg = InboxMessage::new_send("architect", "eng-1", "review nudge: take a look");
    let (tier, _id) =
        deliver_to_tiered_inbox(&mut store, ROOT, &msg, Some(QueueTier::Priority), "m1");
    assert_eq!(tier, QueueTier::Priority);
    assert_eq!(route(&msg, None), QueueTier::Telemetry);
    assert_eq!(route(&msg, Some(QueueTier::Work)), QueueTier::Work);
}

#[test]
fn pending_messages_for_tier_empty_when_no_dir() {
    let store = MailStore::new();
    let pending = pending_messages_for_tier(&store, ROOT, "eng-1", QueueTier::Work);
    assert!(pending.is_empty());
}

#[test]
fn pending_messages_by_tier_returns_four_tiers() {
    let mut store = MailStore::new();
    init_tiered_inbox(&mut store, ROOT, "eng-1");
    let byt = pending_messages_by_tier(&store, ROOT, "eng-1");
    assert_eq!(byt.len(), 4);
    assert_eq!(byt[0].0, QueueTier::Priority);
    assert_eq!(byt[3].0, QueueTier::Telemetry);
}

#[test]
fn expire_respects_per_tier_ttls() {
    let mut store = MailStore::new();
    // Priority has long TTL (kept), telemetry has zero TTL (expired).
    let ttls = TieredTtlConfig {
        priority: Duration::from_secs(3600),
        work: Duration::from_secs(3600),
        content: Duration::from_secs(3600),
        telemetry: Duration::from_secs(1),
    };

    let mut prio = InboxMessage::new_send("manager", "eng-1", "escalation: stuck task #5");
    prio.timestamp = prio.timestamp.saturating_sub(60);
    let mut nudge = InboxMessage::new_send("architect", "eng-1", "review nudge: PR #3");
    nudge.timestamp = nudge.timestamp.saturating_sub(60);
    deliver_to_tiered_inbox(&mut store, ROOT, &prio, None, "m1");
    deliver_to_tiered_inbox(&mut store, ROOT, &nudge, None, "m2");

    let counts = expire_tiered_queues(&mut store, ROOT, "eng-1", &ttls);
    assert_eq!(counts.priority, 0, "priority TTL is 1h, should not expire");
    assert_eq!(counts.telemetry, 1, "telemetry TTL is 1s, should expire");
    assert_eq!(counts.total(), 1);

    // Priority message still pending after sweep.
    let remaining = pending_messages_for_tier(&store, ROOT, "eng-1", QueueTier::Priority);
    assert_eq!(remaining.len(), 1);
}

#[test]
fn tiered_pending_counts_counts_per_tier() {
    let mut store = MailStore::new();
    let esc = InboxMessage::new_send("manager", "eng-1", "escalation: task blocked");
    let review =
        InboxMessage::new_send("architect", "eng-1", "task ready for review: please verify");
    let status = InboxMessage::new_send("eng-2", "eng-1", "status update: task #4 done");
    let nudge1 = InboxMessage::new_send("architect", "eng-1", "idle nudge: anything blocking?");
    let nudge2 = InboxMessage::new_send("architect", "eng-1", "review nudge: PR waiting");
    let mut i = 0;
    for m in [&esc, &review, &status, &nudge1, &nudge2] {
        i += 1;
        deliver_to_tiered_inbox(&mut store, ROOT, m, None, &format!("m{}", i));
    }

    let counts = tiered_pending_counts(&store, ROOT, "eng-1");
    assert_eq!(counts[0], (QueueTier::Priority, 1));
    assert_eq!(counts[1], (QueueTier::Work, 1));
    assert_eq!(counts[2], (QueueTier::Content, 1));
    assert_eq!(counts[3], (QueueTier::Telemetry, 2));
    assert_eq!(pending_message_count_union(&store, ROOT, "eng-1"), 5);
}

#[test]
fn expire_zero_pending_returns_zero_counts() {
    let mut store = MailStore::new();
    let ttls = TieredTtlConfig::default();
    let counts = expire_tiered_queues(&mut store, ROOT, "eng-1", &ttls);
    assert_eq!(counts.total(), 0);
}

#[test]
fn mark_tiered_delivered_moves_new_to_cur() {
    let mut store = MailStore::new();
    let msg = InboxMessage::new_send("manager", "eng-1", "escalation: stuck");
    let (tier, id) = deliver_to_tiered_inbox(&mut store, ROOT, &msg, None, "m1");
    assert_eq!(tier, QueueTier::Priority);

    mark_tiered_delivered(&mut store, ROOT, "eng-1", tier, &id).unwrap();

    let pending = pending_messages_for_tier(&store, ROOT, "eng-1", tier);
    assert!(pending.is_empty(), "message should be moved out of new/");
    let all = store.list("/tmp/inboxes/eng-1/priority");
    assert_eq!(all.len(), 1, "the delivered message is still there");
    assert!(all[0].1);
}

#[test]
fn mark_tiered_delivered_fails_on_an_unknown_message() {
    let mut store = MailStore::new();
    init_tiered_inbox(&mut store, ROOT, "eng-1");
    assert!(mark_tiered_delivered(&mut store, ROOT, "eng-1", QueueTier::Work, "none").is_err());
}

#[test]
fn ttl_config_per_tier_lookup() {
    let ttls = TieredTtlConfig::default();
    assert_eq!(ttls.for_tier(QueueTier::Priority).as_secs(), 3600);
    assert_eq!(ttls.for_tier(QueueTier::Work).as_secs(), 1800);
    assert_eq!(ttls.for_tier(QueueTier::Content).as_secs(), 900);
    assert_eq!(ttls.for_tier(QueueTier::Telemetry).as_secs(), 300);
}

#[test]
fn deliver_flag_aware_uses_flat_when_disabled() {
    let mut store = MailStore::new();
    let msg = InboxMessage::new_send("manager", "eng-1", "escalation: test");
    deliver_flag_aware(&mut store, ROOT, &msg, false, "m1");

    // Flat layout received the message.
    let flat = pending_messages(&store, ROOT, "eng-1");
    assert_eq!(flat.len(), 1);

    // Tier subdirs did not.
    for tier in QueueTier::all() {
        let t = pending_messages_for_tier(&store, ROOT, "eng-1", tier);
        assert!(t.is_empty(), "tier {} should be empty", tier.subdir());
    }
}

#[test]
fn deliver_flag_aware_uses_tiered_when_enabled() {
    let mut store = MailStore::new();
    let msg = InboxMessage::new_send("manager", "eng-1", "escalation: urgent");
    deliver_flag_aware(&mut store, ROOT, &msg, true, "m1");

    // Flat layout stays empty.
    let flat = pending_messages(&store, ROOT, "eng-1");
    assert!(flat.is_empty());

    // Priority tier received the message.
    let prio = pending_messages_for_tier(&store, ROOT, "eng-1", QueueTier::Priority);
    assert_eq!(prio.len(), 1);
}

#[test]
fn pending_messages_union_merges_flat_and_tiered() {
    let mut store = MailStore::new();
    // Write one flat + one tiered, each with distinct timestamps.
    let mut flat_msg =
        InboxMessage::new_send("manager", "eng-1", "status update: task #1 progress");
    flat_msg.timestamp = 1_700_000_000;
    deliver_to_inbox(&mut store, ROOT, &flat_msg, "m1");

    let mut tiered_msg = InboxMessage::new_send("manager", "eng-1", "escalation: stuck for 1h");
    tiered_msg.timestamp = 1_700_000_060;
    deliver_to_tiered_inbox(&mut store, ROOT, &tiered_msg, None, "m2");

    let union = pending_messages_union(&store, ROOT, "eng-1");
    assert_eq!(union.len(), 2);
    // FIFO order preserved across layouts.
    assert_eq!(union[0].timestamp, 1_700_000_000);
    assert_eq!(union[1].timestamp, 1_700_000_060);
    assert_eq!(pending_message_count_union(&store, ROOT, "eng-1"), 2);
}

#[test]
fn pending_messages_union_is_ordered_across_layouts() {
    let mut store = MailStore::new();
    let mut late = InboxMessage::new_send("manager", "eng-1", "status update: late");
    late.timestamp = 30;
    deliver_to_inbox(&mut store, ROOT, &late, "m1");
    let mut early = InboxMessage::new_send("manager", "eng-1", "idle nudge: early");
    early.timestamp = 10;
    deliver_to_tiered_inbox(&mut store, ROOT, &early, None, "m2");
    let mut middle = InboxMessage::new_send("manager", "eng-1", "escalation: middle");
    middle.timestamp = 20;
    deliver_to_tiered_inbox(&mut store, ROOT, &middle, None, "m3");

    let times: Vec<u64> = pending_messages_union(&store, ROOT, "eng-1")
        .iter()
        .map(|m| m.timestamp)
        .collect();
    assert_eq!(times, vec![10, 20, 30]);
    let tiers: usize = tiered_pending_counts(&store, ROOT, "eng-1").iter().map(|t| t.1).sum();
    assert_eq!(pending_message_count_union(&store, ROOT, "eng-1"), 1 + tiers);
    assert_eq!(tiers, 2);
    store.load(&format!("{ROOT}/eng-1/work"), "broken", None, false, false);
    assert_eq!(pending_message_count_union(&store, ROOT, "eng-1"), 4);
    assert_eq!(pending_messages_union(&store, ROOT, "eng-1").len(), 3);
}

#[test]
fn expire_flag_aware_flat_only_when_disabled() {
    let mut store = MailStore::new();
    // Flat message with old timestamp.
    let mut flat_msg = InboxMessage::new_send("manager", "eng-1", "nudge");
    flat_msg.timestamp = 1; // very old
    deliver_to_inbox(&mut store, ROOT, &flat_msg, "m1");

    // Tier message, also old, but tiered flag is off so it's not swept.
    let mut tiered_msg = InboxMessage::new_send("manager", "eng-1", "escalation: x");
    tiered_msg.timestamp = 1;
    deliver_to_tiered_inbox(&mut store, ROOT, &tiered_msg, None, "m2");

    let ttls = TieredTtlConfig::default();
    let (flat_expired, tier_counts) = expire_flag_aware(
        &mut store,
        ROOT,
        "eng-1",
        Duration::from_secs(60),
        &ttls,
        false,
    );

    assert_eq!(flat_expired.len(), 1);
    assert!(tier_counts.is_none());

    // Tier message still pending (not swept).
    let prio = pending_messages_for_tier(&store, ROOT, "eng-1", QueueTier::Priority);
    assert_eq!(prio.len(), 1);
}

#[test]
fn expire_flag_aware_sweeps_both_when_enabled() {
    let mut store = MailStore::new();
    let ttls = TieredTtlConfig {
        priority: Duration::from_secs(1),
        work: Duration::from_secs(1),
        content: Duration::from_secs(1),
        telemetry: Duration::from_secs(1),
    };

    let mut flat = InboxMessage::new_send("manager", "eng-1", "nudge old");
    flat.timestamp = flat.timestamp.saturating_sub(60);
    let mut tiered = InboxMessage::new_send("manager", "eng-1", "escalation: stuck");
    tiered.timestamp = tiered.timestamp.saturating_sub(60);
    deliver_to_inbox(&mut store, ROOT, &flat, "m1");
    deliver_to_tiered_inbox(&mut store, ROOT, &tiered, None, "m2");

    let (flat_expired, tier_counts) = expire_flag_aware(
        &mut store,
        ROOT,
        "eng-1",
        Duration::from_secs(1),
        &ttls,
        true,
    );

    assert_eq!(flat_expired.len(), 1);
    let counts = tier_counts.expect("tier counts should be returned when flag enabled");
    assert_eq!(counts.priority, 1);
    assert_eq!(counts.total(), 1);
}

#[test]
fn expiry_at_a_given_time_keeps_what_is_not_older() {
    let mut store = MailStore::new();
    let mut msg = InboxMessage::new_send("manager", "eng-1", "idle nudge: x");
    msg.timestamp = 1000;
    deliver_to_tiered_inbox(&mut store, ROOT, &msg, None, "m1");
    let ttls = TieredTtlConfig::default();

    assert_eq!(expire_tiered_queues_at(&mut store, ROOT, "eng-1", 1300, &ttls).total(), 0);
    assert_eq!(count(&store, QueueTier::Telemetry), 1);
    let swept = expire_flag_aware_at(
        &mut store,
        ROOT,
        "eng-1",
        1301,
        Duration::from_secs(1),
        &ttls,
        true,
    );
    assert!(swept.0.is_empty());
    assert_eq!(swept.1.unwrap().telemetry, 1);
    assert_eq!(count(&store, QueueTier::Telemetry), 0);
    // The message is marked, not lost.
    assert_eq!(store.list("/tmp/inboxes/eng-1/telemetry").len(), 1);
}

#[test]
fn queue_tier_method_on_message_category() {
    assert_eq!(MessageCategory::Escalation.queue_tier(), "priority");
    assert_eq!(MessageCategory::Blocker.queue_tier(), "priority");
    assert_eq!(MessageCategory::ReviewRequest.queue_tier(), "work");
    assert_eq!(MessageCategory::Status.queue_tier(), "content");
    assert_eq!(MessageCategory::Nudge.queue_tier(), "telemetry");
}

#[test]
fn a_message_goes_to_its_tier_or_to_the_flat_mailbox() {
    let msg = InboxMessage::new_send("manager", "eng-1", "escalation: stuck");
    assert_eq!(delivery_dir(ROOT, &msg, true), format!("{ROOT}/eng-1/priority"));
    assert_eq!(delivery_dir(ROOT, &msg, false), format!("{ROOT}/eng-1"));
    assert_eq!(tier_dir(ROOT, "eng-1", QueueTier::Work), format!("{ROOT}/eng-1/work"));
}
