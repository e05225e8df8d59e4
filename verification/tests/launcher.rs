use std::path::PathBuf;

use batty_team::launch_script::{
    launch_dir, prepare_codex_context, resolve_binary, write_launch_script,
};
use batty_team::launch_state::{
    duplicate_claude_session_ids, launch_state_path, persist_member_launch_identity,
    persist_member_session_id, sync_launch_state_session_ids, LaunchIdentity, LaunchState,
};
use batty_team::launcher::{
    apply_member_launch, format_resume_decision_summary, initial_member_state, member_work_dir,
    prepare_member_launch, role_starts_idle, shim_launch, short_session_summary,
    should_activate_watcher_on_spawn, should_resume_member, strip_nudge_section,
    validate_member_panes_on_startup, LaunchStep, MemberLaunchPlan, ScriptRequest, WorktreeSetup,
};
use batty_team::merge::completion::MemberState;
use batty_team::sessions::{
    canonical_agent_name, choose_launch_session, claude_session_id_exists_in,
    codex_context_dir, codex_resume_session_id_in, codex_session_id_exists_in, codex_session_of,
    default_claude_projects_root, default_codex_sessions_root, member_session_tracker_config,
    new_member_session_id, read_codex_session_meta_id, read_session_lines,
    resolve_member_launch_session, resolve_session_id, session_meta_id, shim_agent_type_name,
    CodexSession, SessionLine, SessionTrackerConfig,
};
use batty_team::spawn::{
    spawn_all_agents, spawn_all_shim_agents, start_spawn, SpawnReply, SpawnStep,
};
use batty_team::team::{ClaudeNames, MemberInstance, RoleType};

/// The names of the default agent in these tests.
fn names() -> ClaudeNames {
    ClaudeNames {
        agent: "house".to_string(),
        adapter: "house-cli".to_string(),
        home: ".house".to_string(),
        guide: "HOUSE.md".to_string(),
    }
}

fn engineer(name: &str, agent: Option<&str>, use_worktrees: bool) -> MemberInstance {
    MemberInstance {
        name: name.to_string(),
        role_name: "engineer".to_string(),
        role_type: RoleType::Engineer,
        agent: agent.map(|s| s.to_string()),
        prompt: None,
        reports_to: Some("manager".to_string()),
        use_worktrees,
    }
}

fn identity(agent: &str, prompt: &str, session_id: Option<&str>) -> LaunchIdentity {
    LaunchIdentity {
        agent: agent.to_string(),
        prompt: prompt.to_string(),
        session_id: session_id.map(|s| s.to_string()),
    }
}

fn strings(items: &[&str]) -> Vec<String> {
    items.iter().map(|s| s.to_string()).collect()
}

#[test]
fn shim_agent_type_name_maps_known_aliases() {
    assert_eq!(shim_agent_type_name(&names(), "house"), "house");
    assert_eq!(shim_agent_type_name(&names(), "house-cli"), "house");
    assert_eq!(shim_agent_type_name(&names(), "codex"), "codex");
    assert_eq!(shim_agent_type_name(&names(), "codex-cli"), "codex");
    assert_eq!(shim_agent_type_name(&names(), "kiro"), "kiro");
    assert_eq!(shim_agent_type_name(&names(), "kiro-cli"), "kiro");
}

#[test]
fn strip_nudge_removes_section() {
    let prompt = "# Architect\n\n## Responsibilities\n\n- plan\n\n## Nudge\n\nDo a check-in.\n1. Review work\n2. Update roadmap\n\n## Communication\n\n- talk to manager\n";
    let stripped = strip_nudge_section(prompt);
    assert!(stripped.contains("# Architect"));
    assert!(stripped.contains("## Responsibilities"));
    assert!(stripped.contains("## Communication"));
    assert!(!stripped.contains("## Nudge"));
    assert!(!stripped.contains("Do a check-in"));
}

#[test]
fn strip_nudge_noop_when_absent() {
    let prompt = "# Engineer\n\n## Workflow\n\n- code\n";
    let stripped = strip_nudge_section(prompt);
    assert_eq!(stripped, prompt.trim_end());
}

#[test]
fn canonical_agent_name_normalizes_aliases() {
    assert_eq!(canonical_agent_name(&names(), "house"), "house-cli");
    assert_eq!(canonical_agent_name(&names(), "house-cli"), "house-cli");
    assert_eq!(canonical_agent_name(&names(), "codex"), "codex-cli");
    assert_eq!(canonical_agent_name(&names(), "codex-cli"), "codex-cli");
    assert_eq!(canonical_agent_name(&names(), "kiro"), "kiro-cli");
    assert_eq!(canonical_agent_name(&names(), "kiro-cli"), "kiro-cli");
}

#[test]
fn roles_start_idle_by_default() {
    assert!(role_starts_idle());
}

#[test]
fn resumed_idle_member_starts_working() {
    assert_eq!(initial_member_state(true, true), MemberState::Working);
    assert!(should_activate_watcher_on_spawn(true, true));
}

#[test]
fn fresh_idle_member_stays_idle_until_assigned() {
    assert_eq!(initial_member_state(true, false), MemberState::Idle);
    assert!(!should_activate_watcher_on_spawn(true, false));
}

#[test]
fn should_resume_member_rejects_agent_change() {
    let mut previous = LaunchState::new();
    previous.insert(
        "architect",
        LaunchIdentity {
            agent: "codex-cli".to_string(),
            prompt: "same prompt".to_string(),
            session_id: None,
        },
    );

    assert!(!should_resume_member(
        true,
        &previous,
        "architect",
        "house-cli",
        "same prompt",
    ));
}

#[test]
fn should_resume_member_rejects_prompt_change() {
    let mut previous = LaunchState::new();
    previous.insert(
        "architect",
        LaunchIdentity {
            agent: "house-cli".to_string(),
            prompt: "old prompt".to_string(),
            session_id: Some("11111111-1111-4111-8111-111111111111".to_string()),
        },
    );

    assert!(!should_resume_member(
        true,
        &previous,
        "architect",
        "house-cli",
        "new prompt",
    ));
}

#[test]
fn should_resume_member_accepts_matching_launch_identity() {
    let mut previous = LaunchState::new();
    previous.insert(
        "architect",
        LaunchIdentity {
            agent: "house-cli".to_string(),
            prompt: "same prompt".to_string(),
            session_id: Some("11111111-1111-4111-8111-111111111111".to_string()),
        },
    );

    assert!(should_resume_member(
        true,
        &previous,
        "architect",
        "house-cli",
        "same prompt",
    ));
}

#[test]
fn resume_reason_includes_session_info() {
    let previous = LaunchIdentity {
        agent: "house-cli".to_string(),
        prompt: "same prompt".to_string(),
        session_id: Some("e303fefd1234".to_string()),
    };

    let summary = format_resume_decision_summary(
        "architect",
        "house-cli",
        &Some(previous),
        true,
        "same prompt",
        true,
        false,
        true,
        &Some("e303fefd1234".to_string()),
    );

    assert!(summary.contains("architect=yes"));
    assert!(summary.contains("session e303fefd"));
}

#[test]
fn fresh_start_logged_differently() {
    let previous = LaunchIdentity {
        agent: "house-cli".to_string(),
        prompt: "old prompt".to_string(),
        session_id: Some("e303fefd1234".to_string()),
    };

    let summary = format_resume_decision_summary(
        "architect",
        "house-cli",
        &Some(previous),
        true,
        "new prompt",
        true,
        false,
        false,
        &Some("new-session".to_string()),
    );

    assert!(summary.contains("architect=no"));
    assert!(summary.contains("prompt changed"));
}

#[test]
fn no_saved_session_is_not_reported_as_unavailable() {
    let previous = LaunchIdentity {
        agent: "codex-cli".to_string(),
        prompt: "same prompt".to_string(),
        session_id: None,
    };

    let summary = format_resume_decision_summary(
        "eng-1-1",
        "codex-cli",
        &Some(previous),
        true,
        "same prompt",
        true,
        false,
        false,
        &None,
    );

    assert!(summary.contains("eng-1-1=no"));
    assert!(summary.contains("no saved session"));
    assert!(!summary.contains("session unavailable"));
}

#[test]
fn resolve_member_launch_session_reuses_saved_claude_session_id() {
    let previous = LaunchIdentity {
        agent: "house-cli".to_string(),
        prompt: "same prompt".to_string(),
        session_id: Some("11111111-1111-4111-8111-111111111111".to_string()),
    };

    let (resume, session_id) = resolve_member_launch_session(
        &names(),
        "house-cli",
        &Some(previous),
        true,
        Some("11111111-1111-4111-8111-111111111111".to_string()),
        false,
    );

    assert!(resume);
    assert_eq!(
        session_id.as_deref(),
        Some("11111111-1111-4111-8111-111111111111")
    );
}

#[test]
fn resolve_member_launch_session_starts_fresh_when_claude_session_id_missing() {
    let previous = LaunchIdentity {
        agent: "house-cli".to_string(),
        prompt: "same prompt".to_string(),
        session_id: None,
    };

    let (resume, session_id) =
        resolve_member_launch_session(&names(), "house-cli", &Some(previous), true, None, false);

    assert!(!resume);
    assert!(session_id.is_some());
}

#[test]
fn resolve_member_launch_session_starts_fresh_when_session_id_is_duplicated() {
    let previous = LaunchIdentity {
        agent: "house-cli".to_string(),
        prompt: "same prompt".to_string(),
        session_id: Some("11111111-1111-4111-8111-111111111111".to_string()),
    };

    let (resume, session_id) = resolve_member_launch_session(
        &names(),
        "house-cli",
        &Some(previous),
        true,
        Some("11111111-1111-4111-8111-111111111111".to_string()),
        true,
    );

    assert!(!resume);
    assert!(session_id.is_some());
    assert_ne!(
        session_id.as_deref(),
        Some("11111111-1111-4111-8111-111111111111")
    );
}

#[test]
fn resolve_member_launch_session_starts_fresh_when_saved_claude_session_is_missing() {
    let previous = LaunchIdentity {
        agent: "house-cli".to_string(),
        prompt: "same prompt".to_string(),
        session_id: Some("11111111-1111-4111-8111-111111111111".to_string()),
    };

    let (resume, session_id) =
        resolve_member_launch_session(&names(), "house-cli", &Some(previous), true, None, false);

    assert!(!resume);
    assert!(session_id.is_some());
    assert_ne!(
        session_id.as_deref(),
        Some("11111111-1111-4111-8111-111111111111")
    );
}

#[test]
fn fresh_claude_launch_plan_does_not_persist_provisional_session_id() {
    let plan = MemberLaunchPlan {
        short_cmd: "exec house".to_string(),
        work_dir: "/tmp/project".to_string(),
        identity: LaunchIdentity {
            agent: "house-cli".to_string(),
            prompt: "prompt".to_string(),
            session_id: Some("11111111-1111-4111-8111-111111111111".to_string()),
        },
        initial_state: MemberState::Idle,
        activate_watcher: false,
        resume_summary: "architect=no (no saved session)".to_string(),
        persist_session_id: false,
    };

    let persisted = plan.persisted_identity();
    assert_eq!(persisted.agent, "house-cli");
    assert_eq!(persisted.prompt, "prompt");
    assert!(persisted.session_id.is_none());
    assert_eq!(
        plan.identity.session_id.as_deref(),
        Some("11111111-1111-4111-8111-111111111111")
    );
}

#[test]
fn resumed_claude_launch_plan_keeps_session_id_for_persistence() {
    let plan = MemberLaunchPlan {
        short_cmd: "exec house --resume".to_string(),
        work_dir: "/tmp/project".to_string(),
        identity: LaunchIdentity {
            agent: "house-cli".to_string(),
            prompt: "prompt".to_string(),
            session_id: Some("11111111-1111-4111-8111-111111111111".to_string()),
        },
        initial_state: MemberState::Working,
        activate_watcher: true,
        resume_summary: "architect=yes (session 11111111...)".to_string(),
        persist_session_id: true,
    };

    let persisted = plan.persisted_identity();
    assert_eq!(
        persisted.session_id.as_deref(),
        Some("11111111-1111-4111-8111-111111111111")
    );
}

#[test]
fn resolve_member_launch_session_reuses_saved_codex_session_id() {
    let previous = LaunchIdentity {
        agent: "codex-cli".to_string(),
        prompt: "same prompt".to_string(),
        session_id: Some("codex-session-1".to_string()),
    };

    let (resume, session_id) = resolve_member_launch_session(
        &names(),
        "codex-cli",
        &Some(previous),
        true,
        Some("codex-session-1".to_string()),
        false,
    );

    assert!(resume);
    assert_eq!(session_id.as_deref(), Some("codex-session-1"));
}

#[test]
fn resolve_member_launch_session_starts_fresh_when_saved_codex_session_is_missing() {
    let previous = LaunchIdentity {
        agent: "codex-cli".to_string(),
        prompt: "same prompt".to_string(),
        session_id: Some("codex-session-1".to_string()),
    };

    let (resume, session_id) =
        resolve_member_launch_session(&names(), "codex-cli", &Some(previous), true, None, false);

    assert!(!resume);
    assert!(session_id.is_none());
}

#[test]
fn resolve_member_launch_session_kiro_gets_fresh_session_id() {
    let previous = LaunchIdentity {
        agent: "kiro-cli".to_string(),
        prompt: "same prompt".to_string(),
        session_id: Some("kiro-session-1".to_string()),
    };

    let (resume, session_id) = resolve_member_launch_session(
        &names(),
        "kiro-cli",
        &Some(previous),
        true,
        Some("kiro-session-1".to_string()),
        false,
    );

    assert!(!resume);
    assert!(session_id.is_some());
}

#[test]
fn launch_state_round_trip_preserves_agent_and_prompt() {
    let mut state = LaunchState::new();
    let saved = identity(
        "house-cli",
        "role prompt",
        Some("11111111-1111-4111-8111-111111111111"),
    );
    persist_member_launch_identity(&mut state, "architect", saved);

    let mut loaded = LaunchState::new();
    for (name, identity) in state.to_entries() {
        loaded.insert(&name, identity);
    }
    let found = loaded.get("architect").unwrap();
    assert_eq!(found.agent, "house-cli");
    assert_eq!(found.prompt, "role prompt");
    assert_eq!(
        found.session_id.as_deref(),
        Some("11111111-1111-4111-8111-111111111111")
    );
    assert_eq!(loaded.to_entries().len(), 1);
    assert!(loaded.get("manager").is_none());
    assert_eq!(
        PathBuf::from(launch_state_path("/p")),
        PathBuf::from("/p/.batty/launch-state.json")
    );
}

#[test]
fn claude_session_id_exists_in_finds_exact_session_file() {
    let projects = vec![strings(&["11111111-1111-4111-8111-111111111111.jsonl"])];

    assert!(claude_session_id_exists_in(
        &projects,
        "11111111-1111-4111-8111-111111111111"
    ));
    assert!(!claude_session_id_exists_in(
        &projects,
        "22222222-2222-4222-8222-222222222222"
    ));
}

#[test]
fn codex_session_id_exists_in_finds_exact_session_file() {
    let session =
        codex_session_of("/s/2026/03/21/codex-session-1.jsonl", &Some("{}\n".to_string())).unwrap();
    let sessions = vec![session];

    assert!(codex_session_id_exists_in(&sessions, "codex-session-1"));
    assert!(!codex_session_id_exists_in(&sessions, "codex-session-2"));
}

#[test]
fn codex_resume_session_id_in_resolves_payload_id_from_rollout_file() {
    let contents = "{\"type\":\"session_meta\",\"payload\":{\"id\":\"019d2b48-3d33-7613-bb3d-d0b4ecd45e2e\"}}\n";
    let sessions = vec![codex_session_of(
        "/s/2026/03/21/rollout-2026-03-26T13-54-07-sample.jsonl",
        &Some(contents.to_string()),
    )
    .unwrap()];

    assert_eq!(
        codex_resume_session_id_in(&sessions, "rollout-2026-03-26T13-54-07-sample").as_deref(),
        Some("019d2b48-3d33-7613-bb3d-d0b4ecd45e2e")
    );
    assert_eq!(
        codex_resume_session_id_in(&sessions, "019d2b48-3d33-7613-bb3d-d0b4ecd45e2e").as_deref(),
        Some("019d2b48-3d33-7613-bb3d-d0b4ecd45e2e")
    );
}

#[test]
fn codex_sessions_without_an_id_go_by_their_file() {
    let sessions = vec![CodexSession {
        file_id: Some("file".to_string()),
        meta_id: None,
    }];
    assert_eq!(codex_resume_session_id_in(&sessions, "file").as_deref(), Some("file"));
    assert!(codex_session_of("/s/notes.txt", &None).is_none());
    assert_eq!(codex_session_of("/s/a.jsonl", &None).unwrap().meta_id, None);
}

#[test]
fn session_lines_are_read_as_json() {
    let contents = "\n{\"type\":\"other\",\"payload\":{\"id\":\"x\"}}\nnot json\n\
                    {\"type\":\"session_meta\",\"payload\":{\"id\":7}}\n\
                    {\"type\":\"session_meta\",\"payload\":{\"id\":\"late\"}}\n";
    let lines = read_session_lines(contents);
    assert_eq!(lines.len(), 4);
    assert_eq!(lines[0].kind, Some(Some("other".to_string())));
    assert_eq!(lines[0].id, Some(Some("x".to_string())));
    assert_eq!(lines[1].kind, None);
    assert_eq!(lines[2].id, Some(None));
    // The first description decides, also where it has no id.
    assert_eq!(session_meta_id(&lines), None);
    assert_eq!(read_codex_session_meta_id(contents), None);
    let named = vec![SessionLine {
        kind: Some(Some("session_meta".to_string())),
        id: Some(Some("id".to_string())),
    }];
    assert_eq!(session_meta_id(&named).as_deref(), Some("id"));
}

#[test]
fn member_session_tracker_config_uses_engineer_worktree_for_claude() {
    let member = engineer("eng-1-1", Some("house"), true);

    let tracker = member_session_tracker_config(&names(), "/tmp/p", &member);

    assert!(matches!(
        tracker,
        Some(SessionTrackerConfig::Claude { cwd })
            if PathBuf::from(&cwd) == PathBuf::from("/tmp/p/.batty/worktrees/eng-1-1")
    ));
}

#[test]
fn member_session_tracker_config_disables_tracker_for_kiro() {
    let member = engineer("eng-1-1", Some("kiro"), true);

    let tracker = member_session_tracker_config(&names(), "/tmp/p", &member);

    assert!(tracker.is_none());
}

#[test]
fn trackers_follow_the_agent() {
    let default = member_session_tracker_config(&names(), "/p", &engineer("e", None, false));
    assert!(matches!(default, Some(SessionTrackerConfig::Claude { cwd }) if cwd == "/p"));
    let codex = member_session_tracker_config(&names(), "/p", &engineer("e", Some("codex"), false));
    assert!(matches!(
        codex,
        Some(SessionTrackerConfig::Codex { cwd }) if cwd == "/p/.batty/codex-context/e"
    ));
    assert_eq!(codex_context_dir("/p", "e"), "/p/.batty/codex-context/e");
    let home = Some("/home/u".to_string());
    assert_eq!(default_claude_projects_root(&names(), &home), "/home/u/.house/projects");
    assert_eq!(default_codex_sessions_root(&home), "/home/u/.codex/sessions");
    assert_eq!(default_codex_sessions_root(&None), "/.codex/sessions");
}

#[test]
fn skip_worktree_when_disabled() {
    let member = engineer("eng-1-1", Some("house"), false);
    let setup = |_: WorktreeSetup| panic!("no worktree should be set up");

    // When use_worktrees is false, member_work_dir returns the project root
    assert_eq!(member_work_dir("/repo", &member, true, false, &setup), "/repo");
}

#[test]
fn worktree_setup_when_enabled() {
    let member = engineer("eng-1-1", Some("house"), true);
    let setup = |request: WorktreeSetup| {
        assert!(!request.is_multi_repo);
        Ok(request.worktree_dir)
    };

    // When use_worktrees is true, a worktree should be created
    let work_dir = member_work_dir("/repo", &member, true, false, &setup);
    assert_eq!(PathBuf::from(work_dir), PathBuf::from("/repo/.batty/worktrees/eng-1-1"));
}

#[test]
fn a_worktree_that_cannot_be_set_up_leaves_the_project_root() {
    let member = engineer("eng-1-1", None, true);
    let fail = |_: WorktreeSetup| Err("no".to_string());
    assert_eq!(member_work_dir("/repo", &member, true, false, &fail), "/repo");
    let multi = |request: WorktreeSetup| {
        assert!(request.is_multi_repo);
        Ok(request.team_config_dir)
    };
    assert_eq!(
        member_work_dir("/repo", &member, false, true, &multi),
        "/repo/.batty/team_config"
    );
}

#[test]
fn sessions_are_resolved_by_agent() {
    let codex = vec![CodexSession {
        file_id: Some("file".to_string()),
        meta_id: Some("meta".to_string()),
    }];
    assert_eq!(resolve_session_id("codex-cli", "file", &codex, false).as_deref(), Some("meta"));
    assert_eq!(resolve_session_id("codex-cli", "x", &codex, true), None);
    assert_eq!(resolve_session_id("kiro-cli", "any", &codex, false).as_deref(), Some("any"));
    assert_eq!(resolve_session_id("kiro-cli", "", &codex, true), None);
    assert_eq!(resolve_session_id("house-cli", "s", &codex, true).as_deref(), Some("s"));
    assert_eq!(resolve_session_id("house-cli", "s", &codex, false), None);
}

#[test]
fn new_sessions_are_random_ids() {
    let first = new_member_session_id(&names(), "house").unwrap();
    let second = new_member_session_id(&names(), "kiro").unwrap();
    for (i, c) in first.chars().enumerate() {
        match i {
            8 | 13 | 18 | 23 => assert_eq!(c, '-'),
            14 => assert_eq!(c, '4'),
            19 => assert!("89ab".contains(c)),
            _ => assert!("0123456789abcdef".contains(c)),
        }
    }
    assert_eq!(first.len(), 36);
    assert_ne!(first, second);
    assert_eq!(new_member_session_id(&names(), "codex"), None);
    assert_eq!(new_member_session_id(&names(), "other"), None);
    // An agent without sessions resumes where that was asked for.
    assert_eq!(choose_launch_session("other", &None, true, None, true, None), (true, None));
}

#[test]
fn duplicated_sessions_are_found_for_the_default_agent() {
    let mut state = LaunchState::new();
    state.insert("a", identity("house-cli", "p", Some("s1")));
    state.insert("b", identity("house-cli", "p", Some("s1")));
    state.insert("c", identity("house-cli", "p", Some("s2")));
    state.insert("d", identity("codex-cli", "p", Some("s2")));
    state.insert("e", identity("house-cli", "p", None));
    assert_eq!(duplicate_claude_session_ids(&state, "house-cli"), strings(&["s1"]));
}

#[test]
fn session_ids_are_synced_where_they_changed() {
    let mut state = LaunchState::new();
    state.insert("a", identity("house-cli", "p", None));
    state.insert("b", identity("house-cli", "p", Some("old")));
    let found = vec![
        ("a".to_string(), Some("s1".to_string())),
        ("b".to_string(), None),
        ("x".to_string(), Some("s2".to_string())),
    ];
    assert!(sync_launch_state_session_ids(&mut state, &found));
    assert_eq!(state.get("a").unwrap().session_id.as_deref(), Some("s1"));
    assert_eq!(state.get("b").unwrap().session_id.as_deref(), Some("old"));
    assert!(!sync_launch_state_session_ids(&mut state, &found));
    assert!(persist_member_session_id(&mut state, "b", "new"));
    assert!(!persist_member_session_id(&mut state, "b", "new"));
    assert!(!persist_member_session_id(&mut state, "x", "new"));
}

#[test]
fn resume_decisions_are_explained() {
    let previous = || Some(identity("house-cli", "p", Some("e303fefd1234")));
    let say = |agent: &str, prev: Option<LaunchIdentity>, asked: bool, prompt: &str, there: bool, dup: bool| {
        format_resume_decision_summary("m", agent, &prev, asked, prompt, there, dup, false, &None)
    };
    assert_eq!(say("house-cli", previous(), false, "p", true, false), "m=no (resume disabled)");
    assert_eq!(
        say("house-cli", None, true, "p", true, false),
        "m=no (no prior launch identity)"
    );
    assert_eq!(say("codex-cli", previous(), true, "p", true, false), "m=no (agent changed)");
    assert_eq!(say("house-cli", previous(), true, "q", true, false), "m=no (prompt changed)");
    assert_eq!(say("house-cli", previous(), true, "p", false, false), "m=no (session missing)");
    assert_eq!(say("house-cli", previous(), true, "p", true, true), "m=no (session duplicated)");
    assert_eq!(say("house-cli", previous(), true, "p", true, false), "m=no (starting fresh)");
    let yes = format_resume_decision_summary(
        "m", "house-cli", &previous(), true, "p", true, false, true, &None,
    );
    assert_eq!(yes, "m=yes (identity matched)");
    assert_eq!(short_session_summary("e303fefd1234"), "session e303fefd...");
    assert_eq!(short_session_summary("e303"), "session e303");
}

#[test]
fn a_launch_is_prepared_for_a_member_that_goes_on() {
    let mut state = LaunchState::new();
    state.insert("eng-1", identity("house-cli", "role", Some("s1")));
    let find = |agent: String, session: String| {
        assert_eq!((agent.as_str(), session.as_str()), ("house-cli", "s1"));
        Some(session)
    };
    let write = |request: ScriptRequest| {
        assert_eq!(request.member_name, "eng-1");
        assert_eq!(request.agent_name, "house");
        assert_eq!(request.prompt, "role");
        assert!(request.idle && request.resume && !request.sdk_mode);
        assert_eq!(request.session_id.as_deref(), Some("s1"));
        Ok("bash 'x'".to_string())
    };
    let member = engineer("eng-1", None, false);
    let prompt = "role\n## Nudge\nhurry\n";
    let plan = prepare_member_launch(
        &names(), &member, true, &state, &vec![], prompt, "/w", false, &find, &write,
    )
    .unwrap();
    assert_eq!(plan.short_cmd, "bash 'x'");
    assert_eq!(plan.identity.agent, "house-cli");
    assert_eq!(plan.initial_state, MemberState::Working);
    assert!(plan.activate_watcher && plan.persist_session_id);
    assert_eq!(plan.resume_summary, "eng-1=yes (session s1)");

    // In the streaming mode the session is always new.
    let write_sdk = |request: ScriptRequest| {
        assert!(request.sdk_mode && !request.resume);
        Ok(request.session_id.unwrap())
    };
    let plan = prepare_member_launch(
        &names(), &member, true, &state, &vec![], prompt, "/w", true, &find, &write_sdk,
    )
    .unwrap();
    assert_eq!(plan.short_cmd.len(), 36);
    assert_eq!(plan.identity.session_id, Some(plan.short_cmd));

    let fail = |_: ScriptRequest| Err("disk full".to_string());
    let error = prepare_member_launch(
        &names(), &member, true, &state, &vec![], prompt, "/w", false, &find, &fail,
    )
    .unwrap_err();
    assert_eq!(error, "disk full");
}

#[test]
fn a_shared_session_is_not_resumed() {
    let mut state = LaunchState::new();
    state.insert("eng-1", identity("house-cli", "role", Some("s1")));
    let find = |_: String, session: String| Some(session);
    let write = |request: ScriptRequest| {
        assert!(!request.resume);
        Ok("cmd".to_string())
    };
    let member = engineer("eng-1", Some("house"), false);
    let plan = prepare_member_launch(
        &names(), &member, true, &state, &strings(&["s1"]), "role", "/w", false, &find, &write,
    )
    .unwrap();
    assert_eq!(plan.resume_summary, "eng-1=no (session duplicated)");
    assert!(!plan.persist_session_id);
    assert_eq!(plan.initial_state, MemberState::Idle);
}

#[test]
fn a_launch_is_a_sequence_of_steps() {
    let plan = MemberLaunchPlan {
        short_cmd: "cmd".to_string(),
        work_dir: "/w".to_string(),
        identity: identity("house-cli", "p", Some("s")),
        initial_state: MemberState::Working,
        activate_watcher: true,
        resume_summary: String::new(),
        persist_session_id: true,
    };
    let steps = apply_member_launch(&plan, false);
    assert_eq!(steps.len(), 6);
    assert!(matches!(&steps[0], LaunchStep::ExpectSession(Some(s)) if s == "s"));
    assert!(matches!(&steps[1], LaunchStep::EnterDirectory(d) if d == "/w"));
    assert!(matches!(&steps[2], LaunchStep::Type(c) if c == "cmd"));
    assert!(matches!(steps[3], LaunchStep::SetState(MemberState::Working)));
    assert!(matches!(steps[4], LaunchStep::ActivateWatcher));
    assert!(matches!(steps[5], LaunchStep::RecordSpawn));
    assert_eq!(apply_member_launch(&plan, true).len(), 5);
}

#[test]
fn shims_know_agents_by_their_type() {
    let shim = |agent: Option<&str>, sdk: bool| shim_launch(&names(), &engineer("e", agent, false), sdk);
    assert_eq!(shim(None, true), ("house".to_string(), true));
    assert_eq!(shim(Some("house-cli"), false), ("house".to_string(), false));
    assert_eq!(shim(Some("codex"), true), ("codex".to_string(), false));
    assert_eq!(shim(Some("other"), true), ("other".to_string(), false));
}

#[test]
fn launch_script_idle_codex_uses_context_overlay() {
    let context = Some("role context".to_string());
    let (dir, file) = prepare_codex_context("eng-1", &context, "/tmp/p/wt");
    assert_eq!(dir, "/tmp/p/wt/.batty/codex-context/eng-1");
    assert_eq!(dir, launch_dir("codex", "eng-1", "/tmp/p/wt"));
    let script = write_launch_script(
        "eng-1",
        "/tmp/p",
        "/tmp",
        &dir,
        "exec codex --dangerously-bypass-approvals-and-sandbox",
        "kanban-md",
        "batty",
    );
    assert_eq!(script.script_path, "/tmp/batty-launch-p-eng-1.sh");
    assert!(script.script.contains(&format!("cd '{}'", dir)));
    assert_eq!(
        script.script.trim().lines().last().unwrap().trim(),
        "exec codex --dangerously-bypass-approvals-and-sandbox"
    );
    let (agents_path, agents) = file.unwrap();
    assert_eq!(agents_path, "/tmp/p/wt/.batty/codex-context/eng-1/AGENTS.md");
    assert!(agents.contains("role context"));
}

#[test]
fn launch_scripts_are_written_in_full() {
    let script = write_launch_script(
        "arch-1",
        "/project",
        "/tmp",
        &launch_dir("house", "arch-1", "/project"),
        "house 'plan the project'",
        &resolve_binary("kanban-md", &Some("/usr/bin/kanban-md\n".to_string())),
        &resolve_binary("batty", &None),
    );
    assert_eq!(script.short_cmd, "bash '/tmp/batty-launch-project-arch-1.sh'");
    assert_eq!(
        script.script,
        "#!/bin/bash\nexport PATH='/tmp/batty-bin-project-arch-1':\"$PATH\"\n\
         export BATTY_MEMBER='arch-1'\ncd '/project'\nhouse 'plan the project'\n"
    );
    assert_eq!(
        script.kanban_wrapper,
        "#!/bin/bash\nexec '/usr/bin/kanban-md' \"$@\" \
         --dir '/project/.batty/team_config/board'\n"
    );
    assert_eq!(script.batty_wrapper, "#!/bin/bash\nexec 'batty' \"$@\"\n");
    assert_eq!(script.kanban_path, "/tmp/batty-bin-project-arch-1/kanban-md");
    assert_eq!(script.batty_path, "/tmp/batty-bin-project-arch-1/batty");
    let nameless = write_launch_script("m", "/", "/tmp", "/", "x", "k", "b");
    assert_eq!(nameless.script_path, "/tmp/batty-launch-default-m.sh");
}

#[test]
fn panes_are_checked_for_those_that_are_launched() {
    let mut user = engineer("human", None, false);
    user.role_type = RoleType::User;
    let members = vec![user, engineer("a", None, false), engineer("b", None, false)];
    let panes = strings(&["b"]);
    assert_eq!(validate_member_panes_on_startup(&members, &panes, false), vec![2]);
    assert!(validate_member_panes_on_startup(&members, &panes, true).is_empty());
}

#[test]
fn everybody_with_a_pane_is_launched() {
    let mut user = engineer("human", None, false);
    user.role_type = RoleType::User;
    let members = vec![
        user,
        engineer("a", None, false),
        engineer("b", None, false),
        engineer("c", None, false),
        engineer("d", None, false),
    ];
    let panes = strings(&["human", "a", "c", "d"]);
    let (run, step) = spawn_all_agents(&members, &panes, start_spawn(), SpawnReply::Start);
    assert!(matches!(step, SpawnStep::Launch(1)));
    let started = SpawnReply::Started {
        summary: "a=yes".to_string(),
        identity: identity("house-cli", "p", None),
    };
    let (run, step) = spawn_all_agents(&members, &panes, run, started);
    assert!(matches!(step, SpawnStep::Launch(3)));
    let (run, step) = spawn_all_agents(&members, &panes, run, SpawnReply::NotPrepared);
    assert!(matches!(step, SpawnStep::Launch(4)));
    let failed = SpawnReply::NotStarted {
        summary: "d=no".to_string(),
    };
    let (run, step) = spawn_all_shim_agents(&members, &panes, run, failed);
    assert!(matches!(
        step,
        SpawnStep::Done { note: Some(note) } if note == "resume: a=yes, d=no"
    ));
    let launched: Vec<String> = run.launched.to_entries().into_iter().map(|e| e.0).collect();
    assert_eq!(launched, strings(&["a"]));

    let (_, step) = spawn_all_agents(&members, &vec![], start_spawn(), SpawnReply::Start);
    assert!(matches!(step, SpawnStep::Done { note: None }));
}
