use batty_team::clock::Duration;
use batty_team::inbox::{
    classify_message, digest_messages, extract_task_id, inboxes_root, message_signature,
    InboxMessage, InboxPurgeSummary, MessageCategory, MessageType,
};
use batty_team::inbox_queue::{
    all_messages, delete_message, deliver_to_inbox, expire_stale_pending_messages,
    expire_stale_pending_messages_at, find_recent_duplicate, find_recent_duplicate_at, init_inbox,
    mark_delivered, pending_message_count, pending_messages, purge_delivered_messages,
    purge_delivered_messages_for_all, read_recent_messages, read_recent_messages_at,
};
use batty_team::mail::MailStore;

const ROOT: &str = "/tmp/project/.batty/inboxes";

fn now_unix() -> u64 {
    std::time::SystemTime::now()
        .duration_since(std::time::UNIX_EPOCH)
        .unwrap()
        .as_secs()
}

/// Delivers under an id that is not in use.
fn deliver(store: &mut MailStore, root: &str, msg: &InboxMessage) -> String {
    let id = format!("{}.{}", msg.to, all_messages(store, root, &msg.to).len() + 1);
    deliver_to_inbox(store, root, msg, &id)
}

fn make_msg(from: &str, to: &str, body: &str, ts: u64) -> InboxMessage {
    let mut msg = InboxMessage::new_send(from, to, body);
    msg.timestamp = ts;
    msg
}

#[test]
fn inbox_message_send_roundtrip() {
    let msg = InboxMessage::new_send("human", "architect", "hello world");
    assert_eq!(msg.from, "human");
    assert_eq!(msg.to, "architect");
    assert_eq!(msg.body, "hello world");
    assert_eq!(msg.msg_type, MessageType::Send);
    assert!(msg.timestamp > 0);

    let mut store = MailStore::new();
    assert_eq!(deliver_to_inbox(&mut store, ROOT, &msg, "test-id"), "test-id");
    let parsed = &pending_messages(&store, ROOT, "architect")[0];
    assert_eq!(parsed.id, "test-id");
    assert_eq!(parsed.from, "human");
    assert_eq!(parsed.to, "architect");
    assert_eq!(parsed.body, "hello world");
}

#[test]
fn inbox_message_assign_roundtrip() {
    let msg = InboxMessage::new_assign("black-lead", "eng-1-1", "fix the auth bug");
    assert_eq!(msg.msg_type, MessageType::Assign);
    assert_eq!(msg.from, "black-lead");
    assert_eq!(msg.to, "eng-1-1");
    assert_eq!(msg.body, "fix the auth bug");

    let mut store = MailStore::new();
    deliver_to_inbox(&mut store, ROOT, &msg, "assign-id");
    let parsed = &pending_messages(&store, ROOT, "eng-1-1")[0];
    assert_eq!(parsed.msg_type, MessageType::Assign);
}

#[test]
fn inbox_message_age_uses_timestamp() {
    let mut msg = InboxMessage::new_send("human", "architect", "hello world");
    msg.timestamp = now_unix().saturating_sub(60);

    assert!(msg.age() >= Duration::from_secs(60));
}
#[test]
fn init_inbox_creates_dirs() {
    let mut store = MailStore::new();
    let root = ROOT;
    init_inbox(&mut store, root, "architect");

    assert!(store.has_mailbox("/tmp/project/.batty/inboxes/architect"));
    assert!(!store.has_mailbox("/tmp/project/.batty/inboxes/manager"));
}

#[test]
fn init_inbox_is_idempotent() {
    let mut store = MailStore::new();
    let root = ROOT;
    init_inbox(&mut store, root, "architect");
    init_inbox(&mut store, root, "architect"); // should not error
}
#[test]
fn deliver_and_read_pending() {
    let mut store = MailStore::new();
    let root = ROOT;
    init_inbox(&mut store, root, "architect");

    let msg = InboxMessage::new_send("human", "architect", "hello");
    let id = deliver(&mut store, root, &msg);
    assert!(!id.is_empty());

    let pending = pending_messages(&store, root, "architect");
    assert_eq!(pending.len(), 1);
    assert_eq!(pending[0].from, "human");
    assert_eq!(pending[0].body, "hello");
    assert_eq!(pending[0].id, id);
}
#[test]
fn deliver_creates_dirs_automatically() {
    let mut store = MailStore::new();
    let root = ROOT;
    // Don't call init_inbox — deliver_to_inbox should create dirs
    let msg = InboxMessage::new_send("human", "manager", "hi");
    let id = deliver(&mut store, root, &msg);
    assert!(!id.is_empty());

    let pending = pending_messages(&store, root, "manager");
    assert_eq!(pending.len(), 1);
}
#[test]
fn read_recent_messages_filters_old_entries() {
    let mut store = MailStore::new();
    let root = ROOT;
    init_inbox(&mut store, root, "manager");

    let mut old = InboxMessage::new_send("eng-1", "manager", "old");
    old.timestamp = now_unix().saturating_sub(601);
    deliver(&mut store, root, &old);

    let mut recent = InboxMessage::new_send("eng-2", "manager", "recent");
    recent.timestamp = now_unix().saturating_sub(60);
    let recent_id = deliver(&mut store, root, &recent);
    mark_delivered(&mut store, root, "manager", &recent_id).unwrap();

    let messages = read_recent_messages(&store, root, "manager", Duration::from_secs(300));
    assert_eq!(messages.len(), 1);
    assert_eq!(messages[0].body, "recent");
}
#[test]
fn message_signature_normalizes_whitespace() {
    let compact = "Task #42 failed after retries";
    let noisy = "Task   #42\nfailed   after   retries";

    assert_eq!(message_signature(compact), message_signature(noisy));
}
#[test]
fn find_recent_duplicate_matches_same_sender_and_body() {
    let mut store = MailStore::new();
    let root = ROOT;
    init_inbox(&mut store, root, "manager");

    let mut existing = InboxMessage::new_send("eng-1", "manager", "status update");
    existing.timestamp = now_unix().saturating_sub(30);
    let existing_id = deliver(&mut store, root, &existing);
    mark_delivered(&mut store, root, "manager", &existing_id).unwrap();

    let candidate = InboxMessage::new_send("eng-1", "manager", "status   update");
    let duplicate =
        find_recent_duplicate(&store, root, "manager", &candidate, Duration::from_secs(300));

    assert!(duplicate.is_some());
    assert_eq!(duplicate.unwrap().from, "eng-1");
}
#[test]
fn find_recent_duplicate_ignores_old_or_different_sender_messages() {
    let mut store = MailStore::new();
    let root = ROOT;
    init_inbox(&mut store, root, "manager");

    let mut old = InboxMessage::new_send("eng-1", "manager", "status update");
    old.timestamp = now_unix().saturating_sub(601);
    deliver(&mut store, root, &old);

    let recent_other_sender = InboxMessage::new_send("eng-2", "manager", "status update");
    deliver(&mut store, root, &recent_other_sender);

    let candidate = InboxMessage::new_send("eng-1", "manager", "status update");
    let duplicate =
        find_recent_duplicate(&store, root, "manager", &candidate, Duration::from_secs(300));

    assert!(duplicate.is_none());
}
#[test]
fn mark_delivered_moves_to_cur() {
    let mut store = MailStore::new();
    let root = ROOT;
    init_inbox(&mut store, root, "eng-1");

    let msg = InboxMessage::new_send("manager", "eng-1", "do this");
    let id = deliver(&mut store, root, &msg);

    // Before: in new/
    assert_eq!(pending_messages(&store, root, "eng-1").len(), 1);

    mark_delivered(&mut store, root, "eng-1", &id).unwrap();

    // After: not in new/ anymore
    assert_eq!(pending_messages(&store, root, "eng-1").len(), 0);

    // But visible in all_messages as delivered
    let all = all_messages(&store, root, "eng-1");
    assert_eq!(all.len(), 1);
    assert!(all[0].1); // delivered = true
}
#[test]
fn pending_message_count_tracks_new_messages_only() {
    let mut store = MailStore::new();
    let root = ROOT;
    init_inbox(&mut store, root, "eng-1");

    let msg1 = InboxMessage::new_send("manager", "eng-1", "first");
    let msg2 = InboxMessage::new_send("manager", "eng-1", "second");
    let id1 = deliver(&mut store, root, &msg1);
    deliver(&mut store, root, &msg2);

    assert_eq!(pending_message_count(&store, root, "eng-1"), 2);

    mark_delivered(&mut store, root, "eng-1", &id1).unwrap();
    assert_eq!(pending_message_count(&store, root, "eng-1"), 1);
}
#[test]
fn multiple_messages_ordered_by_timestamp() {
    let mut store = MailStore::new();
    let root = ROOT;
    init_inbox(&mut store, root, "arch");

    // Deliver messages with different timestamps
    let mut msg1 = InboxMessage::new_send("human", "arch", "first");
    msg1.timestamp = 1000;
    let mut msg2 = InboxMessage::new_send("human", "arch", "second");
    msg2.timestamp = 2000;
    let mut msg3 = InboxMessage::new_send("human", "arch", "third");
    msg3.timestamp = 1500;

    deliver(&mut store, root, &msg1);
    deliver(&mut store, root, &msg2);
    deliver(&mut store, root, &msg3);

    let pending = pending_messages(&store, root, "arch");
    assert_eq!(pending.len(), 3);
    assert_eq!(pending[0].body, "first");
    assert_eq!(pending[1].body, "third");
    assert_eq!(pending[2].body, "second");
}
#[test]
fn all_messages_combines_new_and_cur() {
    let mut store = MailStore::new();
    let root = ROOT;
    init_inbox(&mut store, root, "mgr");

    let msg1 = InboxMessage::new_send("arch", "mgr", "directive");
    let id1 = deliver(&mut store, root, &msg1);
    let msg2 = InboxMessage::new_send("eng-1", "mgr", "done");
    deliver(&mut store, root, &msg2);

    // Deliver first, leave second pending
    mark_delivered(&mut store, root, "mgr", &id1).unwrap();

    let all = all_messages(&store, root, "mgr");
    assert_eq!(all.len(), 2);

    let delivered: Vec<_> = all.iter().filter(|(_, d)| *d).collect();
    let pending: Vec<_> = all.iter().filter(|(_, d)| !*d).collect();
    assert_eq!(delivered.len(), 1);
    assert_eq!(pending.len(), 1);
}
#[test]
fn delete_message_removes_from_inbox() {
    let mut store = MailStore::new();
    let root = ROOT;
    init_inbox(&mut store, root, "eng");

    let msg = InboxMessage::new_send("mgr", "eng", "task");
    let id = deliver(&mut store, root, &msg);

    assert_eq!(pending_messages(&store, root, "eng").len(), 1);
    delete_message(&mut store, root, "eng", &id).unwrap();
    assert_eq!(pending_messages(&store, root, "eng").len(), 0);
}
#[test]
fn expire_stale_pending_messages_marks_old_entries_delivered() {
    let mut store = MailStore::new();
    let root = ROOT;
    init_inbox(&mut store, root, "manager");

    let mut old = InboxMessage::new_send("eng-1", "manager", "old");
    old.timestamp = now_unix().saturating_sub(900);
    let old_id = deliver(&mut store, root, &old);

    let mut fresh = InboxMessage::new_send("eng-2", "manager", "fresh");
    fresh.timestamp = now_unix().saturating_sub(30);
    deliver(&mut store, root, &fresh);

    let expired =
        expire_stale_pending_messages(&mut store, root, "manager", Duration::from_secs(600));
    assert_eq!(expired.len(), 1);
    assert_eq!(expired[0].id, old_id);

    let pending = pending_messages(&store, root, "manager");
    assert_eq!(pending.len(), 1);
    assert_eq!(pending[0].body, "fresh");

    let all = all_messages(&store, root, "manager");
    assert_eq!(all.len(), 2);
    assert!(
        all.iter()
            .any(|(message, delivered)| message.body == "old" && *delivered)
    );
}
#[test]
fn pending_messages_empty_inbox() {
    let mut store = MailStore::new();
    let root = ROOT;
    init_inbox(&mut store, root, "empty");

    let pending = pending_messages(&store, root, "empty");
    assert!(pending.is_empty());
}
#[test]
fn inboxes_root_path() {
    assert_eq!(inboxes_root("/tmp/project"), "/tmp/project/.batty/inboxes");
}

#[test]
fn malformed_json_skipped() {
    let mut store = MailStore::new();
    let root = ROOT;
    init_inbox(&mut store, root, "bad");

    // An entry that is no message
    store.load(
        "/tmp/project/.batty/inboxes/bad",
        "1234567890.bad.localhost",
        None,
        false,
        false,
    );

    // Should not panic, just skip the bad entry
    let pending = pending_messages(&store, root, "bad");
    assert!(pending.is_empty());
}

#[test]
fn purge_delivered_messages_before_timestamp_only_removes_older_entries() {
    let mut store = MailStore::new();
    let root = ROOT;
    init_inbox(&mut store, root, "eng");

    let mut old_msg = InboxMessage::new_send("mgr", "eng", "old");
    old_msg.timestamp = 10;
    let old_id = deliver(&mut store, root, &old_msg);
    mark_delivered(&mut store, root, "eng", &old_id).unwrap();

    let mut new_msg = InboxMessage::new_send("mgr", "eng", "new");
    new_msg.timestamp = 20;
    let new_id = deliver(&mut store, root, &new_msg);
    mark_delivered(&mut store, root, "eng", &new_id).unwrap();

    let removed = purge_delivered_messages(&mut store, root, "eng", Some(15), false);
    assert_eq!(removed, 1);

    let remaining = all_messages(&store, root, "eng");
    assert_eq!(remaining.len(), 1);
    assert_eq!(remaining[0].0.id, new_id);
    assert!(remaining[0].1);
}
#[test]
fn purge_delivered_messages_all_removes_every_cur_entry() {
    let mut store = MailStore::new();
    let root = ROOT;
    init_inbox(&mut store, root, "eng");

    for body in ["one", "two"] {
        let msg = InboxMessage::new_send("mgr", "eng", body);
        let id = deliver(&mut store, root, &msg);
        mark_delivered(&mut store, root, "eng", &id).unwrap();
    }

    let removed = purge_delivered_messages(&mut store, root, "eng", None, true);
    assert_eq!(removed, 2);
    assert!(all_messages(&store, root, "eng").is_empty());
}
#[test]
fn purge_delivered_messages_for_all_scans_every_member_inbox() {
    let mut store = MailStore::new();
    let root = ROOT;
    init_inbox(&mut store, root, "eng-1");
    init_inbox(&mut store, root, "eng-2");

    let msg1 = InboxMessage::new_send("mgr", "eng-1", "first");
    let id1 = deliver(&mut store, root, &msg1);
    mark_delivered(&mut store, root, "eng-1", &id1).unwrap();

    let msg2 = InboxMessage::new_send("mgr", "eng-2", "second");
    let id2 = deliver(&mut store, root, &msg2);
    mark_delivered(&mut store, root, "eng-2", &id2).unwrap();

    let summary = purge_delivered_messages_for_all(
        &mut store,
        root,
        &vec!["eng-1".to_string(), "eng-2".to_string()],
        None,
        true,
    );
    assert_eq!(
        summary,
        InboxPurgeSummary {
            roles: 2,
            messages: 2
        }
    );
    assert!(all_messages(&store, root, "eng-1").is_empty());
    assert!(all_messages(&store, root, "eng-2").is_empty());
}
#[test]
fn classify_idle_nudge() {
    let msg = make_msg(
        "daemon",
        "eng-1",
        "Idle nudge: you have been idle past your configured timeout. Move forward.",
        100,
    );
    assert_eq!(classify_message(&msg), MessageCategory::Nudge);
}
#[test]
fn classify_review_nudge() {
    let msg = make_msg(
        "daemon",
        "manager",
        "Review nudge: task #42 awaiting review",
        100,
    );
    assert_eq!(classify_message(&msg), MessageCategory::Nudge);
}
#[test]
fn classify_escalation() {
    let msg = make_msg(
        "eng-1",
        "manager",
        "Task #42 escalated: build failures",
        100,
    );
    assert_eq!(classify_message(&msg), MessageCategory::Escalation);
}
#[test]
fn classify_blocker() {
    let msg = make_msg("eng-1", "manager", "Blocked on #42: missing API key", 100);
    assert_eq!(classify_message(&msg), MessageCategory::Blocker);
}
#[test]
fn classify_review_request() {
    let msg = make_msg("eng-1", "manager", "Task #42 ready for review", 100);
    assert_eq!(classify_message(&msg), MessageCategory::ReviewRequest);
}
#[test]
fn classify_manual_review_notice_as_review_request() {
    let msg = make_msg(
        "eng-1",
        "manager",
        "[eng-1] Task #42 passed tests but requires manual review.\nTitle: Inbox routing",
        100,
    );
    assert_eq!(classify_message(&msg), MessageCategory::ReviewRequest);
}
#[test]
fn classify_status_update() {
    let msg = make_msg(
        "eng-1",
        "manager",
        "Status update on task #42: tests passing",
        100,
    );
    assert_eq!(classify_message(&msg), MessageCategory::Status);
}
#[test]
fn classify_generic_message_as_status() {
    let msg = make_msg("eng-1", "manager", "Hello, just checking in", 100);
    assert_eq!(classify_message(&msg), MessageCategory::Status);
}
#[test]
fn classify_nudge_with_idle_action_text() {
    let msg = make_msg("daemon", "eng-1", "If you are idle, take action NOW", 100);
    assert_eq!(classify_message(&msg), MessageCategory::Nudge);
}
#[test]
fn extract_task_id_hash_pattern() {
    assert_eq!(extract_task_id("Task #42 is done"), Some("42".to_string()));
}
#[test]
fn extract_task_id_from_json() {
    assert_eq!(
        extract_task_id(r#"{"task_id": 99, "status": "done"}"#),
        Some("99".to_string())
    );
}
#[test]
fn extract_task_id_behind_a_heading() {
    assert_eq!(
        extract_task_id("# Summary\nTask #42 is done"),
        Some("42".to_string())
    );
    assert_eq!(extract_task_id("## #x #7b #8"), Some("7".to_string()));
    assert_eq!(extract_task_id("# task_id: 5"), Some("5".to_string()));
    assert_eq!(extract_task_id("# task_id"), None);
}

#[test]
fn extract_task_id_none_when_missing() {
    assert_eq!(extract_task_id("no task reference here"), None);
}
#[test]
fn digest_empty_messages() {
    let (entries, raw) = digest_messages(&Vec::new());
    assert!(entries.is_empty());
    assert_eq!(raw, 0);
}
#[test]
fn digest_collapses_nudges_per_sender() {
    let msgs: Vec<(InboxMessage, bool)> = vec![
        (
            make_msg("daemon", "eng-1", "Idle nudge: move forward", 100),
            true,
        ),
        (
            make_msg("daemon", "eng-1", "Idle nudge: move forward", 200),
            true,
        ),
        (
            make_msg("daemon", "eng-1", "Idle nudge: move forward", 300),
            true,
        ),
    ];

    let (entries, raw_count) = digest_messages(&msgs);
    assert_eq!(raw_count, 3);
    assert_eq!(
        entries.len(),
        1,
        "3 nudges from same sender should collapse to 1"
    );
    assert_eq!(entries[0].collapsed_count, 3);
    assert_eq!(entries[0].message.timestamp, 300, "should keep latest");
    assert_eq!(entries[0].category, MessageCategory::Nudge);
}
#[test]
fn digest_keeps_nudges_separate_per_sender() {
    // Manager inbox with nudges from different sources
    let msgs: Vec<(InboxMessage, bool)> = vec![
        (
            make_msg("daemon", "manager", "Idle nudge: eng-1 is idle", 100),
            true,
        ),
        (
            make_msg(
                "architect",
                "manager",
                "Review nudge: task #42 awaiting review",
                200,
            ),
            true,
        ),
    ];

    let (entries, _) = digest_messages(&msgs);
    assert_eq!(
        entries.len(),
        2,
        "nudges from different senders stay separate"
    );
}
#[test]
fn digest_collapses_status_updates_per_task() {
    let msgs: Vec<(InboxMessage, bool)> = vec![
        (
            make_msg(
                "eng-1",
                "manager",
                "Status update on task #42: compiling",
                100,
            ),
            true,
        ),
        (
            make_msg(
                "eng-1",
                "manager",
                "Status update on task #42: tests passing",
                200,
            ),
            true,
        ),
        (
            make_msg("eng-1", "manager", "Status update on task #42: done", 300),
            true,
        ),
    ];

    let (entries, raw_count) = digest_messages(&msgs);
    assert_eq!(raw_count, 3);
    assert_eq!(
        entries.len(),
        1,
        "3 status updates for same task should collapse"
    );
    assert_eq!(entries[0].collapsed_count, 3);
    assert_eq!(entries[0].message.timestamp, 300, "should keep latest");
}
#[test]
fn digest_keeps_status_separate_per_task() {
    let msgs: Vec<(InboxMessage, bool)> = vec![
        (
            make_msg("eng-1", "manager", "Status update on task #42: done", 100),
            true,
        ),
        (
            make_msg(
                "eng-1",
                "manager",
                "Status update on task #99: compiling",
                200,
            ),
            true,
        ),
    ];

    let (entries, _) = digest_messages(&msgs);
    assert_eq!(entries.len(), 2, "status for different tasks stay separate");
}
#[test]
fn digest_never_collapses_escalations() {
    let msgs: Vec<(InboxMessage, bool)> = vec![
        (
            make_msg(
                "eng-1",
                "manager",
                "Task #42 escalated: build failures",
                100,
            ),
            false,
        ),
        (
            make_msg("eng-2", "manager", "Task #42 escalated: tests broken", 200),
            false,
        ),
    ];

    let (entries, _) = digest_messages(&msgs);
    assert_eq!(entries.len(), 2, "escalations are never collapsed");
    assert_eq!(entries[0].category, MessageCategory::Escalation);
    assert_eq!(entries[1].category, MessageCategory::Escalation);
}
#[test]
fn digest_priority_sorts_escalations_first_nudges_last() {
    let msgs: Vec<(InboxMessage, bool)> = vec![
        (
            make_msg("daemon", "manager", "Idle nudge: move forward", 400),
            true,
        ),
        (
            make_msg("eng-1", "manager", "Status update on task #42: done", 300),
            true,
        ),
        (
            make_msg("eng-1", "manager", "Blocked on #99: missing key", 200),
            true,
        ),
        (
            make_msg("eng-2", "manager", "Task #50 escalated: critical", 100),
            false,
        ),
        (
            make_msg("eng-1", "manager", "Task #42 ready for review", 350),
            true,
        ),
    ];

    let (entries, _) = digest_messages(&msgs);

    let categories: Vec<MessageCategory> = entries.iter().map(|e| e.category).collect();
    // Verify ordering: Escalation < ReviewRequest < Blocker < Status < Nudge
    for i in 1..categories.len() {
        assert!(
            categories[i - 1] <= categories[i],
            "category at {} ({:?}) should come before or equal category at {} ({:?})",
            i - 1,
            categories[i - 1],
            i,
            categories[i]
        );
    }
    assert_eq!(categories[0], MessageCategory::Escalation);
    assert_eq!(*categories.last().unwrap(), MessageCategory::Nudge);
}
#[test]
fn digest_mixed_scenario_achieves_significant_reduction() {
    // Simulate a typical noisy session: 5 nudges (same eng), 4 status updates (same task),
    // 1 escalation, 1 review request, 1 blocker = 12 raw messages
    let mut msgs: Vec<(InboxMessage, bool)> = Vec::new();
    for i in 0..5 {
        msgs.push((
            make_msg("daemon", "eng-1", "Idle nudge: move forward", 100 + i),
            true,
        ));
    }
    for i in 0..4 {
        msgs.push((
            make_msg(
                "eng-1",
                "manager",
                &format!("Status update on task #42: step {i}"),
                200 + i,
            ),
            true,
        ));
    }
    msgs.push((
        make_msg(
            "eng-2",
            "manager",
            "Task #99 escalated: critical failure",
            300,
        ),
        false,
    ));
    msgs.push((
        make_msg("eng-1", "manager", "Task #42 ready for review", 350),
        true,
    ));
    msgs.push((
        make_msg("eng-3", "manager", "Blocked on #55: need credentials", 320),
        true,
    ));

    let (entries, raw_count) = digest_messages(&msgs);
    assert_eq!(raw_count, 12);
    // Expected: 1 escalation + 1 review + 1 blocker + 1 status(collapsed 4) + 1 nudge(collapsed 5) = 5 entries
    assert_eq!(entries.len(), 5);
    // Reduction: 12 -> 5 = 58% reduction, close to the 60% target
    let reduction_pct = ((raw_count - entries.len()) as f64 / raw_count as f64) * 100.0;
    assert!(
        reduction_pct >= 50.0,
        "Expected 50%+ reduction, got {reduction_pct:.0}%"
    );
}
#[test]
fn digest_preserves_delivered_status_of_latest() {
    let msgs: Vec<(InboxMessage, bool)> = vec![
        (make_msg("daemon", "eng-1", "Idle nudge: old", 100), true),
        (
            make_msg("daemon", "eng-1", "Idle nudge: latest", 200),
            false,
        ),
    ];

    let (entries, _) = digest_messages(&msgs);
    assert_eq!(entries.len(), 1);
    assert!(
        !entries[0].delivered,
        "should use delivered status of latest message"
    );
}
#[test]
fn signatures_tell_bodies_apart() {
    assert_ne!(message_signature("Task #42 failed"), message_signature("Task #43 failed"));
    // Only the first two hundred characters count.
    let long = "a".repeat(200);
    assert_eq!(message_signature(&format!("{long}x")), message_signature(&format!("{long}y")));
    assert_ne!(
        message_signature(&format!("{}x", &long[1..])),
        message_signature(&format!("{}y", &long[1..]))
    );
}

#[test]
fn age_is_counted_in_whole_seconds_and_never_negative() {
    let msg = make_msg("a", "b", "c", 100);
    assert_eq!(msg.age_at(160), Duration::from_secs(60));
    assert_eq!(msg.age_at(40), Duration::from_secs(0));
}

#[test]
fn messages_at_the_cutoff_are_recent_and_not_stale() {
    let mut store = MailStore::new();
    deliver(&mut store, ROOT, &make_msg("a", "m", "at the edge", 700));
    deliver(&mut store, ROOT, &make_msg("a", "m", "too old", 699));
    let recent = read_recent_messages_at(&store, ROOT, "m", 1000, Duration::from_secs(300));
    assert_eq!(recent.len(), 1);
    assert_eq!(recent[0].body, "at the edge");

    let expired =
        expire_stale_pending_messages_at(&mut store, ROOT, "m", 1000, Duration::from_secs(300));
    assert_eq!(expired.len(), 1);
    assert_eq!(expired[0].body, "too old");
    assert_eq!(pending_messages(&store, ROOT, "m").len(), 1);
    assert_eq!(all_messages(&store, ROOT, "m").len(), 2);
}

#[test]
fn the_latest_of_several_duplicates_is_found() {
    let mut store = MailStore::new();
    deliver(&mut store, ROOT, &make_msg("a", "m", "same words", 900));
    let later = deliver(&mut store, ROOT, &make_msg("a", "m", "same  words", 950));
    let candidate = make_msg("a", "m", " same words ", 1000);
    let found =
        find_recent_duplicate_at(&store, ROOT, "m", &candidate, 1000, Duration::from_secs(300));
    assert_eq!(found.unwrap().id, later);
    // An assignment is no duplicate of a message.
    let mut assignment = make_msg("a", "m", "same words", 1000);
    assignment.msg_type = MessageType::Assign;
    assert!(find_recent_duplicate_at(
        &store,
        ROOT,
        "m",
        &assignment,
        1000,
        Duration::from_secs(300)
    )
    .is_none());
}

#[test]
fn marking_and_deleting_what_is_not_there_fails_and_changes_nothing() {
    let mut store = MailStore::new();
    let id = deliver(&mut store, ROOT, &make_msg("a", "m", "one", 1));
    assert_eq!(
        mark_delivered(&mut store, ROOT, "m", "nope").unwrap_err(),
        "failed to mark message 'nope' as delivered for 'm'"
    );
    assert_eq!(
        delete_message(&mut store, ROOT, "m", "nope").unwrap_err(),
        "failed to delete message 'nope' from 'm' inbox"
    );
    assert_eq!(pending_message_count(&store, ROOT, "m"), 1);
    mark_delivered(&mut store, ROOT, "m", &id).unwrap();
    assert!(mark_delivered(&mut store, ROOT, "m", &id).is_err());
    // A delivered message can be deleted too.
    delete_message(&mut store, ROOT, "m", &id).unwrap();
    assert!(all_messages(&store, ROOT, "m").is_empty());
}

#[test]
fn purging_spares_what_is_pending() {
    let mut store = MailStore::new();
    let old = deliver(&mut store, ROOT, &make_msg("a", "m", "delivered", 10));
    mark_delivered(&mut store, ROOT, "m", &old).unwrap();
    deliver(&mut store, ROOT, &make_msg("a", "m", "pending", 5));
    assert_eq!(purge_delivered_messages(&mut store, ROOT, "m", Some(10), false), 0);
    assert_eq!(purge_delivered_messages(&mut store, ROOT, "m", None, false), 0);
    assert_eq!(purge_delivered_messages(&mut store, ROOT, "m", None, true), 1);
    assert_eq!(pending_messages(&store, ROOT, "m").len(), 1);
    assert_eq!(purge_delivered_messages(&mut store, ROOT, "nobody", None, true), 0);
}

#[test]
fn digest_counts_add_up_to_all_messages() {
    let msgs: Vec<(InboxMessage, bool)> = (0..9)
        .map(|i| {
            let body = match i % 3 {
                0 => "Idle nudge: go".to_string(),
                1 => format!("Status update on task #{}: step", i % 2),
                _ => "Task #7 escalated: help".to_string(),
            };
            (make_msg("s", "m", &body, i), true)
        })
        .collect();
    let (entries, raw) = digest_messages(&msgs);
    assert_eq!(raw, 9);
    assert_eq!(entries.iter().map(|e| e.collapsed_count).sum::<usize>(), 9);
}

#[test]
fn the_ids_of_a_mailbox_tell_what_was_delivered() {
    let mut store = MailStore::new();
    for id in ["a", "b"] {
        deliver_to_inbox(&mut store, ROOT, &InboxMessage::new_send("m", "eng", id), id);
    }
    mark_delivered(&mut store, ROOT, "eng", "a").unwrap();
    let (new, cur) = store.ids("/tmp/project/.batty/inboxes/eng");
    assert_eq!((new, cur), (vec!["b".to_string()], vec!["a".to_string()]));
    let (new, cur) = store.ids("/nowhere");
    assert!(new.is_empty() && cur.is_empty());
}

#[test]
fn a_delivery_is_sorted_into_what_is_pending() {
    let mut store = MailStore::new();
    for (id, ts) in [("a", 10), ("b", 30)] {
        deliver_to_inbox(&mut store, ROOT, &make_msg("m", "eng-1", id, ts), id);
    }
    deliver_to_inbox(&mut store, ROOT, &make_msg("m", "eng-2", "x", 1), "x");
    for (id, ts) in [("c", 20), ("d", 10), ("e", 40)] {
        deliver_to_inbox(&mut store, ROOT, &make_msg("m", "eng-1", id, ts), id);
    }
    let ids = |member: &str| -> Vec<String> {
        pending_messages(&store, ROOT, member).iter().map(|m| m.id.clone()).collect()
    };
    assert_eq!(ids("eng-1"), vec!["a", "d", "c", "b", "e"]);
    assert_eq!(ids("eng-2"), vec!["x"]);
}

#[test]
fn digest_groups_a_status_with_a_heading_by_its_task() {
    let msgs = vec![
        (make_msg("eng-1", "manager", "# Summary\nTask #42 status update: half done", 100), false),
        (make_msg("eng-1", "manager", "Task #42 status update: almost done", 200), false),
        (make_msg("eng-1", "manager", "# Summary\nTask #43 status update: begun", 300), false),
    ];
    let (entries, raw) = digest_messages(&msgs);
    assert_eq!(raw, 3);
    assert_eq!(entries.len(), 2);
}

#[test]
fn a_delivered_file_of_the_same_name_is_replaced() {
    let path = format!("{ROOT}/eng-1");
    let msg = |body: &str| make_msg("m", "eng-1", body, 10);
    let bodies = |store: &MailStore| -> Vec<(String, bool)> {
        all_messages(store, ROOT, "eng-1").into_iter().map(|(m, d)| (m.body, d)).collect()
    };
    let mut store = MailStore::new();
    store.load(&path, "a", Some(msg("old, plain")), true, false);
    store.load(&path, "a", Some(msg("old, seen")), true, true);
    store.load(&path, "b", Some(msg("other")), true, false);
    deliver_to_inbox(&mut store, ROOT, &msg("new"), "a");
    mark_delivered(&mut store, ROOT, "eng-1", "a").unwrap();
    assert_eq!(
        bodies(&store),
        vec![
            ("old, seen".to_string(), true),
            ("other".to_string(), true),
            ("new".to_string(), true),
        ]
    );

    let mut store = MailStore::new();
    store.load(&path, "a", Some(msg("old")), true, false);
    deliver_to_inbox(&mut store, ROOT, &msg("stale"), "a");
    let gone =
        expire_stale_pending_messages_at(&mut store, ROOT, "eng-1", 100, Duration::from_secs(5));
    assert_eq!(gone.len(), 1);
    assert_eq!(bodies(&store), vec![("stale".to_string(), true)]);
}
