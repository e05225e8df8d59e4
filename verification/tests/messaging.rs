use batty_team::inbox::{inboxes_root, InboxMessage, Listed, MessageType};
use batty_team::inbox_commands::{
    ack_message, format_inbox_listing, inbox_message_refs, list_inbox, merge_worktree,
    purge_inbox, read_message, resolve_inbox_message_indices, truncate_chars,
};
use batty_team::inbox_queue::pending_messages;
use batty_team::mail::MailStore;
use batty_team::merge::lock::{MergeMode, MergeOutcome, MergeSuccess};
use batty_team::messaging::{
    assign_task, detect_sender, effective_sender, resolve_member_name, resolve_role_name,
    send_message, send_message_as, sender_belongs_to_project, TeamRoster,
};
use batty_team::team::{MemberInstance, RoleType};

const PROJECT: &str = "/tmp/project";

fn member(name: &str, role_name: &str, role_type: RoleType) -> MemberInstance {
    MemberInstance {
        name: name.to_string(),
        role_name: role_name.to_string(),
        role_type,
        agent: Some("codex".to_string()),
        prompt: None,
        reports_to: None,
        use_worktrees: false,
    }
}

/// A user, a manager and a designer below the manager.
fn small_team() -> Option<TeamRoster> {
    Some(TeamRoster {
        roles: vec![
            "human".to_string(),
            "jordan-pm".to_string(),
            "sam-designer".to_string(),
        ],
        members: Some(vec![
            member("human", "human", RoleType::User),
            member("jordan-pm", "jordan-pm", RoleType::Manager),
            member("sam-designer-1-1", "sam-designer", RoleType::Engineer),
        ]),
    })
}

fn anybody(_from: String, _to: String) -> bool {
    true
}

fn nobody(_from: String, _to: String) -> bool {
    false
}

fn numbered(id: &str, timestamp: u64, body: &str, delivered: bool) -> Listed {
    (
        InboxMessage {
            id: id.to_string(),
            from: "architect".to_string(),
            to: "black-lead".to_string(),
            body: body.to_string(),
            msg_type: MessageType::Send,
            timestamp,
        },
        delivered,
    )
}

#[test]
fn send_message_delivers_to_inbox() {
    let mut store = MailStore::new();
    let id = send_message(
        &mut store, PROJECT, &None, &anybody, &None, "architect", "hello", "m1",
    )
    .unwrap();
    assert_eq!(id, "m1");

    let root = inboxes_root(PROJECT);
    let pending = pending_messages(&store, &root, "architect");
    assert_eq!(pending.len(), 1);
    let expected_from = effective_sender(&None, &None, &None);
    assert_eq!(pending[0].from, expected_from);
    assert_eq!(pending[0].to, "architect");
    assert_eq!(pending[0].body, "hello");
}

#[test]
fn assign_task_delivers_to_inbox() {
    let mut store = MailStore::new();
    let id = assign_task(
        &mut store, PROJECT, &None, &anybody, &None, "eng-1-1", "fix bug", "m1",
    )
    .unwrap();
    assert!(!id.is_empty());

    let root = inboxes_root(PROJECT);
    let pending = pending_messages(&store, &root, "eng-1-1");
    assert_eq!(pending.len(), 1);
    let expected_from = effective_sender(&None, &None, &None);
    assert_eq!(pending[0].from, expected_from);
    assert_eq!(pending[0].to, "eng-1-1");
    assert_eq!(pending[0].body, "fix bug");
    assert_eq!(pending[0].msg_type, MessageType::Assign);
}

#[test]
fn send_message_ignores_detected_sender_outside_project() {
    let mut store = MailStore::new();
    let detected = detect_sender(&Some("foreign-engineer-9-9".to_string()), &None);
    assert_eq!(detected.as_deref(), Some("foreign-engineer-9-9"));

    send_message(
        &mut store, PROJECT, &None, &anybody, &detected, "architect", "hello", "m1",
    )
    .unwrap();

    let root = inboxes_root(PROJECT);
    let pending = pending_messages(&store, &root, "architect");
    assert_eq!(pending.len(), 1);
    assert_eq!(pending[0].from, "human");
}

#[test]
fn resolve_member_name_maps_unique_role_alias_to_instance() {
    let team = small_team();

    assert_eq!(
        resolve_member_name(&team, "sam-designer").unwrap(),
        "sam-designer-1-1"
    );
    assert_eq!(
        resolve_member_name(&team, "sam-designer-1-1").unwrap(),
        "sam-designer-1-1"
    );
}

#[test]
fn resolve_member_name_rejects_ambiguous_role_alias() {
    let team = Some(TeamRoster {
        roles: vec!["jordan-pm".to_string(), "sam-designer".to_string()],
        members: Some(vec![
            member("jordan-pm-1", "jordan-pm", RoleType::Manager),
            member("jordan-pm-2", "jordan-pm", RoleType::Manager),
            member("sam-designer-1-1", "sam-designer", RoleType::Engineer),
            member("sam-designer-2-1", "sam-designer", RoleType::Engineer),
        ]),
    });

    let error = resolve_member_name(&team, "sam-designer").unwrap_err();
    assert!(error.contains("matches multiple members"));
    assert!(error.contains("sam-designer-1-1"));
    assert!(error.contains("sam-designer-2-1"));
    assert_eq!(
        error,
        "'sam-designer' matches multiple members: sam-designer-1-1, sam-designer-2-1. \
         Use the explicit member name."
    );
}

#[test]
fn send_message_delivers_to_unique_instance_inbox() {
    let team = small_team();
    let mut store = MailStore::new();
    send_message(
        &mut store, PROJECT, &team, &anybody, &None, "sam-designer", "hello", "m1",
    )
    .unwrap();

    let root = inboxes_root(PROJECT);
    assert!(pending_messages(&store, &root, "sam-designer").is_empty());

    let pending = pending_messages(&store, &root, "sam-designer-1-1");
    assert_eq!(pending.len(), 1);
    assert_eq!(pending[0].to, "sam-designer-1-1");
    assert_eq!(pending[0].body, "hello");
}

#[test]
fn a_message_that_the_rules_forbid_is_refused() {
    let team = small_team();
    let mut store = MailStore::new();
    let error = send_message_as(
        &mut store,
        PROJECT,
        &team,
        &nobody,
        &Some("sam-designer-1-1".to_string()),
        &None,
        "jordan-pm",
        "hello",
        "m1",
    )
    .unwrap_err();
    assert_eq!(
        error,
        "sam-designer-1-1 (sam-designer) is not allowed to message jordan-pm (jordan-pm). \
         Check talks_to in team.yaml."
    );
    assert!(pending_messages(&store, &inboxes_root(PROJECT), "jordan-pm").is_empty());

    let error = assign_task(
        &mut store, PROJECT, &team, &nobody, &None, "sam-designer", "work", "m1",
    )
    .unwrap_err();
    assert_eq!(
        error,
        "human (human) is not allowed to assign sam-designer-1-1 (sam-designer). \
         Check talks_to in team.yaml."
    );
}

#[test]
fn senders_are_detected_and_checked() {
    assert_eq!(
        detect_sender(&None, &Some(" sam-designer-1-1\n".to_string())).as_deref(),
        Some("sam-designer-1-1")
    );
    assert_eq!(detect_sender(&None, &Some(" \n".to_string())), None);
    assert_eq!(
        detect_sender(&Some(String::new()), &Some("manager".to_string())).as_deref(),
        Some("manager")
    );
    let team = small_team();
    assert!(sender_belongs_to_project(&team, "sam-designer"));
    assert!(sender_belongs_to_project(&team, "sam-designer-1-1"));
    assert!(sender_belongs_to_project(&None, "daemon"));
    assert!(!sender_belongs_to_project(&team, "sam-designer-2-1"));
    assert_eq!(
        effective_sender(&team, &Some("jordan-pm".to_string()), &Some("daemon".to_string())),
        "jordan-pm"
    );
    assert_eq!(effective_sender(&team, &None, &Some("daemon".to_string())), "daemon");
    assert_eq!(resolve_role_name(&team, "sam-designer-1-1"), "sam-designer");
    assert_eq!(resolve_role_name(&team, "stranger"), "stranger");
    assert_eq!(resolve_role_name(&None, "human"), "human");
}

#[test]
fn truncate_chars_handles_unicode_boundaries() {
    let body = "Task #109 confirmed complete on main. I'm available for next assignment.";
    let truncated = truncate_chars(body, 40);
    assert!(truncated.ends_with("..."));
    assert!(truncated.starts_with("Task #109 confirmed complete on main."));
}

#[test]
fn format_inbox_listing_shows_most_recent_messages_by_default_limit() {
    let messages: Vec<_> = (0..25)
        .map(|idx| {
            (
                InboxMessage {
                    id: format!("msg{idx:05}"),
                    from: "architect".to_string(),
                    to: "black-lead".to_string(),
                    body: format!("message {idx}"),
                    msg_type: MessageType::Send,
                    timestamp: idx,
                },
                true,
            )
        })
        .collect();

    let rendered = format_inbox_listing("black-lead", &messages, Some(20));
    assert!(rendered.contains("Showing 20 of 25 messages for black-lead."));
    assert!(!rendered.contains("message 0"));
    assert!(rendered.contains("message 5"));
    assert!(rendered.contains("message 24"));
    assert!(!rendered.contains("msg00005"));
    assert!(!rendered.contains("msg00024"));
}

#[test]
fn format_inbox_listing_allows_showing_all_messages() {
    let messages: Vec<_> = (0..3)
        .map(|idx| {
            (
                InboxMessage {
                    id: format!("msg{idx:05}"),
                    from: "architect".to_string(),
                    to: "black-lead".to_string(),
                    body: format!("message {idx}"),
                    msg_type: MessageType::Send,
                    timestamp: idx,
                },
                idx % 2 == 0,
            )
        })
        .collect();

    let rendered = format_inbox_listing("black-lead", &messages, None);
    assert!(!rendered.contains("Showing 20"));
    assert!(rendered.contains("REF"));
    assert!(rendered.contains("BODY"));
    assert!(rendered.contains("message 0"));
    assert!(rendered.contains("message 1"));
    assert!(rendered.contains("message 2"));
    assert!(!rendered.contains("msg00000"));
    assert!(!rendered.contains("msg00001"));
    assert!(!rendered.contains("msg00002"));
}

#[test]
fn format_inbox_listing_hides_internal_message_ids() {
    let messages = vec![(
        InboxMessage {
            id: "1773930387654321.M123456P7890Q42.example".to_string(),
            from: "architect".to_string(),
            to: "black-lead".to_string(),
            body: "message body".to_string(),
            msg_type: MessageType::Send,
            timestamp: 1_773_930_725,
        },
        true,
    )];

    let rendered = format_inbox_listing("black-lead", &messages, None);
    assert!(rendered.contains("1773930725"));
    assert!(!rendered.contains("1773930387654321.M123456P7890Q42.example"));
    assert!(!rendered.contains("ID BODY"));
}

#[test]
fn inbox_message_refs_use_timestamp_when_unique() {
    let messages = vec![(
        InboxMessage {
            id: "msg-1".to_string(),
            from: "architect".to_string(),
            to: "black-lead".to_string(),
            body: "message body".to_string(),
            msg_type: MessageType::Send,
            timestamp: 1_773_930_725,
        },
        true,
    )];

    let refs = inbox_message_refs(&messages);
    assert_eq!(refs, vec!["1773930725".to_string()]);
    assert_eq!(
        resolve_inbox_message_indices(&messages, "1773930725"),
        vec![0]
    );
}

#[test]
fn inbox_message_refs_suffix_same_second_collisions() {
    let messages = vec![
        (
            InboxMessage {
                id: "msg-1".to_string(),
                from: "architect".to_string(),
                to: "black-lead".to_string(),
                body: "first".to_string(),
                msg_type: MessageType::Send,
                timestamp: 1_773_930_725,
            },
            true,
        ),
        (
            InboxMessage {
                id: "msg-2".to_string(),
                from: "architect".to_string(),
                to: "black-lead".to_string(),
                body: "second".to_string(),
                msg_type: MessageType::Send,
                timestamp: 1_773_930_725,
            },
            true,
        ),
    ];

    let refs = inbox_message_refs(&messages);
    assert_eq!(
        refs,
        vec!["1773930725-1".to_string(), "1773930725-2".to_string()]
    );
    assert!(resolve_inbox_message_indices(&messages, "1773930725").is_empty());
    assert_eq!(
        resolve_inbox_message_indices(&messages, "1773930725-1"),
        vec![0]
    );
    assert_eq!(
        resolve_inbox_message_indices(&messages, "1773930725-2"),
        vec![1]
    );
}

#[test]
fn a_listing_is_rendered_line_by_line() {
    let messages = vec![
        numbered("m1", 7, "first", true),
        numbered("m2", 8, "second", false),
    ];
    let rendered = format_inbox_listing("black-lead", &messages, None);
    let lines: Vec<&str> = rendered.lines().collect();
    assert_eq!(lines.len(), 4);
    assert!(lines[0].starts_with("STATUS"));
    assert!(lines[2].contains("delivered") && lines[2].ends_with("first"));
    assert!(lines[3].contains("pending") && lines[3].ends_with("second"));
    assert_eq!(
        format_inbox_listing("black-lead", &vec![], None),
        "No messages for black-lead.\n"
    );
}

#[test]
fn messages_are_selected_by_id_prefix_or_reference() {
    let messages = vec![
        numbered("1773.a", 7, "first", true),
        numbered("1773.b", 7, "second", false),
        numbered("1774.c", 9, "third", false),
    ];
    assert_eq!(inbox_message_refs(&messages), vec!["7-1", "7-2", "9"]);
    assert_eq!(resolve_inbox_message_indices(&messages, "1773.b"), vec![1]);
    assert_eq!(resolve_inbox_message_indices(&messages, "1773"), vec![0, 1]);
    assert_eq!(resolve_inbox_message_indices(&messages, "9"), vec![2]);
    assert!(resolve_inbox_message_indices(&messages, "none").is_empty());
}

#[test]
fn truncation_cuts_only_long_texts() {
    assert_eq!(truncate_chars("abc", 3), "abc");
    assert_eq!(truncate_chars("abcd", 3), "abc...");
    assert_eq!(truncate_chars("日本語テスト", 2), "日本...");
}

fn filled_store() -> MailStore {
    let mut store = MailStore::new();
    for (id, body) in [("aa1", "one"), ("aa2", "two"), ("b", "three")] {
        send_message_as(
            &mut store,
            PROJECT,
            &None,
            &anybody,
            &Some("human".to_string()),
            &None,
            "manager",
            body,
            id,
        )
        .unwrap();
    }
    store
}

#[test]
fn messages_are_read_and_acknowledged() {
    let mut store = filled_store();
    let shown = read_message(&store, PROJECT, &None, "manager", "b").unwrap();
    assert!(shown.starts_with(
        "ID:     b\nFrom:   human\nTo:     manager\nType:   Send\nStatus: pending\nTime:   "
    ));
    assert!(shown.ends_with("\n\nthree\n"));
    assert_eq!(
        read_message(&store, PROJECT, &None, "manager", "c").unwrap_err(),
        "no message matching 'c' in manager's inbox"
    );
    assert_eq!(
        read_message(&store, PROJECT, &None, "manager", "aa").unwrap_err(),
        "'aa' matches 2 messages — use a longer prefix or the REF column from `batty inbox`"
    );

    ack_message(&mut store, PROJECT, &None, "manager", "aa2").unwrap();
    assert_eq!(pending_messages(&store, &inboxes_root(PROJECT), "manager").len(), 2);
    assert_eq!(
        ack_message(&mut store, PROJECT, &None, "manager", "aa2").unwrap_err(),
        "failed to mark message 'aa2' as delivered for 'manager'"
    );
    let listing = list_inbox(&store, PROJECT, &None, "manager", None).unwrap();
    assert!(listing.contains("two"));
}

#[test]
fn purging_needs_a_scope_and_a_member() {
    let mut store = filled_store();
    let nobody_there: Vec<String> = Vec::new();
    assert_eq!(
        purge_inbox(&mut store, PROJECT, &None, &nobody_there, &None, false, None, false)
            .unwrap_err(),
        "use `--all` or `--before <unix-timestamp>` with `batty inbox purge`"
    );
    assert_eq!(
        purge_inbox(&mut store, PROJECT, &None, &nobody_there, &None, false, None, true)
            .unwrap_err(),
        "member is required unless using `--all-roles`"
    );
    ack_message(&mut store, PROJECT, &None, "manager", "b").unwrap();
    let summary = purge_inbox(
        &mut store,
        PROJECT,
        &None,
        &nobody_there,
        &Some("manager".to_string()),
        false,
        None,
        true,
    )
    .unwrap();
    assert_eq!((summary.roles, summary.messages), (1, 1));
    ack_message(&mut store, PROJECT, &None, "manager", "aa1").unwrap();
    let summary = purge_inbox(
        &mut store,
        PROJECT,
        &None,
        &vec!["manager".to_string(), "writer".to_string()],
        &None,
        true,
        None,
        true,
    )
    .unwrap();
    assert_eq!((summary.roles, summary.messages), (2, 1));
    assert_eq!(pending_messages(&store, &inboxes_root(PROJECT), "manager").len(), 1);
}

#[test]
fn merging_a_worktree_reports_the_outcome() {
    let team = small_team();
    let succeed = |name: String| {
        assert_eq!(name, "sam-designer-1-1");
        Ok(MergeOutcome::Success(MergeSuccess {
            mode: MergeMode::DirectRoot,
            reason: None,
        }))
    };
    assert_eq!(merge_worktree(&team, "sam-designer", &succeed), Ok(()));
    assert_eq!(
        merge_worktree(&team, "sam-designer", &|_| Ok(MergeOutcome::RebaseConflict(
            "CONFLICT".to_string()
        ))),
        Err("merge blocked by rebase conflict: CONFLICT".to_string())
    );
    assert_eq!(
        merge_worktree(&team, "sam-designer", &|_| Ok(MergeOutcome::MergeFailure(
            "dirty".to_string()
        ))),
        Err("merge failed: dirty".to_string())
    );
    assert_eq!(
        merge_worktree(&team, "sam-designer", &|_| Err("gone".to_string())),
        Err("gone".to_string())
    );
}
