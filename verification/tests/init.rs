use batty_team::init::{
    child_of, copy_template_dir, export_template, init_board, init_from_template, init_team,
    list_available_templates, prompt_files, team_config_path, team_yaml_content, template_file,
    templates_base_dir, BoardReply, CopyItem, Listing,
};
use batty_team::run_export::{
    create_run_export_dir, create_run_export_dir_at, export_run, exports_dir, RunLogs,
};

const PROJECT: &str = "/home/u/project";
const CONFIG: &str = "/home/u/project/.batty/team_config";
const TEMPLATES: &str = "/home/u/.batty/templates";

fn listing(files: &[&str], dirs: &[&str]) -> Listing {
    Listing {
        files: files.iter().map(|s| s.to_string()).collect(),
        dirs: dirs.iter().map(|s| s.to_string()).collect(),
    }
}

fn destinations(items: &[CopyItem]) -> Vec<&str> {
    items.iter().map(|item| item.destination.as_str()).collect()
}

fn pairs(items: &[CopyItem]) -> Vec<(&str, &str)> {
    items
        .iter()
        .map(|item| (item.source.as_str(), item.destination.as_str()))
        .collect()
}

#[test]
fn init_team_creates_scaffolding() {
    let plan = init_team(PROJECT, "simple", &listing(&[], &[])).unwrap();
    assert!(!plan.files.is_empty());
    let created = destinations(&plan.files);
    assert_eq!(created[0], team_config_path(PROJECT));
    for name in [
        "architect.md",
        "manager.md",
        "engineer.md",
        "replenishment_context.md",
        "review_policy.md",
        "escalation_policy.md",
    ] {
        assert!(created.contains(&format!("{CONFIG}/{name}").as_str()), "{name}");
    }
    // kanban-md creates board/ directory; fallback creates kanban.md
    let board = plan.board_dir.unwrap();
    assert_eq!(board, format!("{CONFIG}/board"));
    assert_eq!(init_board(PROJECT, &board, BoardReply::Created), (board.clone(), None));
    for reply in [BoardReply::Failed, BoardReply::NotFound] {
        let (path, contents) = init_board(PROJECT, &board, reply);
        assert_eq!(path, format!("{CONFIG}/kanban.md"));
        assert_eq!(
            contents.as_deref(),
            Some("# Kanban Board\n\n## Backlog\n\n## In Progress\n\n## Done\n")
        );
    }
}

#[test]
fn init_team_refuses_if_exists() {
    let yaml = team_config_path(PROJECT);
    let result = init_team(PROJECT, "simple", &listing(&[&yaml], &[]));
    assert!(result.is_err());
    let Err(error) = result else { unreachable!() };
    assert!(error.contains("already exists"));
    assert_eq!(
        error,
        format!("team config already exists at {yaml}; remove it first or edit directly")
    );
}

#[test]
fn init_team_leaves_existing_prompts_and_boards() {
    let there = listing(&[&format!("{CONFIG}/manager.md")], &[&format!("{CONFIG}/board")]);
    let plan = init_team(PROJECT, "simple", &there).unwrap();
    assert!(!destinations(&plan.files).contains(&format!("{CONFIG}/manager.md").as_str()));
    assert_eq!(plan.files.len(), 6);
    assert!(plan.board_dir.is_none());
}

#[test]
fn init_team_research_template() {
    let plan = init_team(PROJECT, "research", &listing(&[], &[])).unwrap();
    assert_eq!(plan.files[0].source, "team_research.yaml");
    let created = destinations(&plan.files);
    // Research-specific .md files installed
    for name in ["research_lead.md", "sub_lead.md", "researcher.md"] {
        assert!(created.contains(&format!("{CONFIG}/{name}").as_str()));
    }
    // Generic files NOT installed
    assert!(!created.contains(&format!("{CONFIG}/architect.md").as_str()));
}

#[test]
fn every_template_has_its_files() {
    for name in ["solo", "pair", "squad", "large", "research", "software", "batty"] {
        assert_eq!(template_file(name), format!("team_{name}.yaml"));
    }
    assert_eq!(template_file("unknown"), "team_simple.yaml");
    assert_eq!(
        prompt_files("software"),
        vec![
            "tech_lead.md",
            "eng_manager.md",
            "developer.md",
            "replenishment_context.md",
            "review_policy.md",
            "escalation_policy.md",
        ]
    );
    assert_eq!(prompt_files("batty")[0], "batty_architect.md");
    assert_eq!(prompt_files("squad")[2], "engineer.md");
}

#[test]
fn init_with_agent_kiro_sets_backend() {
    let yaml = "roles:\n  - agent: house\n  - agent: codex\n";
    let content = team_yaml_content(yaml, "house", &Some("kiro".to_string()));
    assert!(
        content.contains("agent: kiro"),
        "all agent fields should be kiro"
    );
    assert!(
        !content.contains("agent: codex"),
        "no codex agents should remain"
    );
    assert_eq!(content, "roles:\n  - agent: kiro\n  - agent: kiro\n");
    assert_eq!(team_yaml_content(yaml, "house", &None), yaml);
}

#[test]
fn init_with_agent_codex_sets_backend() {
    let yaml = "roles:\n  - agent: house\n  - agent: codex\n";
    let content = team_yaml_content(yaml, "house", &Some("codex".to_string()));
    assert_eq!(content, "roles:\n  - agent: codex\n  - agent: codex\n");
}

#[test]
fn a_given_agent_is_put_in_once() {
    let yaml = "roles:\n  - agent: house\n    agent: codex\n";
    for given in ["codex-cli", "codex", "house-two", "kiro"] {
        assert_eq!(
            team_yaml_content(yaml, "house", &Some(given.to_string())),
            format!("roles:\n  - agent: {given}\n    agent: {given}\n")
        );
    }
}

#[test]
fn init_from_template_copies_files() {
    let there = listing(
        &[
            "/home/u/.batty/templates/custom/team.yaml",
            "/home/u/.batty/templates/custom/architect.md",
            "/home/u/.batty/templates/custom/board/task.md",
            "/home/u/.batty/templates/other/team.yaml",
        ],
        &[
            TEMPLATES,
            "/home/u/.batty/templates/custom",
            "/home/u/.batty/templates/custom/board",
            "/home/u/.batty/templates/other",
        ],
    );

    let created = init_from_template(PROJECT, TEMPLATES, "custom", &there).unwrap();

    assert!(!created.is_empty());
    let mut found = pairs(&created);
    found.sort();
    assert_eq!(
        found,
        vec![
            (
                "/home/u/.batty/templates/custom/architect.md",
                "/home/u/project/.batty/team_config/architect.md"
            ),
            (
                "/home/u/.batty/templates/custom/board/task.md",
                "/home/u/project/.batty/team_config/board/task.md"
            ),
            (
                "/home/u/.batty/templates/custom/team.yaml",
                "/home/u/project/.batty/team_config/team.yaml"
            ),
        ]
    );
}

#[test]
fn init_from_template_missing_template_errors_with_available_list() {
    let there = listing(
        &[],
        &[
            TEMPLATES,
            "/home/u/.batty/templates/beta",
            "/home/u/.batty/templates/alpha",
            "/home/u/.batty/templates/alpha/board",
        ],
    );

    let message = init_from_template(PROJECT, TEMPLATES, "missing", &there)
        .err()
        .unwrap();
    assert!(message.contains("template 'missing' not found"));
    assert!(message.contains("alpha"));
    assert!(message.contains("beta"));
    assert!(message.ends_with("; available templates: alpha, beta"));
    assert_eq!(
        list_available_templates(TEMPLATES, &there).unwrap(),
        vec!["alpha", "beta"]
    );
    let empty = init_from_template(PROJECT, TEMPLATES, "x", &listing(&[], &[TEMPLATES]));
    assert!(empty.err().unwrap().ends_with("; available templates: (none)"));
}

#[test]
fn init_from_template_errors_when_templates_dir_is_missing() {
    let error = init_from_template(PROJECT, TEMPLATES, "missing", &listing(&[], &[]))
        .err()
        .unwrap();
    assert!(error.contains("no templates directory found"));
    assert_eq!(templates_base_dir("/home/u"), TEMPLATES);
}

#[test]
fn init_from_template_refuses_if_exists() {
    let yaml = team_config_path(PROJECT);
    let there = listing(&[&yaml], &[TEMPLATES, "/home/u/.batty/templates/custom"]);
    let error = init_from_template(PROJECT, TEMPLATES, "custom", &there)
        .err()
        .unwrap();
    assert!(error.contains("already exists"));
}

#[test]
fn export_template_creates_directory_and_copies_files() {
    let there = listing(
        &[
            &format!("{CONFIG}/team.yaml"),
            &format!("{CONFIG}/manager.md"),
            &format!("{CONFIG}/architect.md"),
            &format!("{CONFIG}/board/task.md"),
            &format!("{CONFIG}/notes.txt"),
        ],
        &[CONFIG, &format!("{CONFIG}/board")],
    );

    let copied = export_template(PROJECT, TEMPLATES, "demo-template", &there).unwrap();

    assert_eq!(
        destinations(&copied),
        vec![
            "/home/u/.batty/templates/demo-template/team.yaml",
            "/home/u/.batty/templates/demo-template/architect.md",
            "/home/u/.batty/templates/demo-template/manager.md",
        ]
    );
}

#[test]
fn export_template_missing_team_yaml_errors() {
    let error = export_template(PROJECT, TEMPLATES, "demo-template", &listing(&[], &[CONFIG]))
        .err()
        .unwrap();
    assert!(error.contains("team config missing"));
}

fn logs() -> RunLogs {
    RunLogs {
        events: format!("{CONFIG}/events.jsonl"),
        daemon_log: "/home/u/project/.batty/daemon.log".to_string(),
        orchestrator_log: "/home/u/project/.batty/orchestrator.log".to_string(),
    }
}

#[test]
fn export_run_copies_requested_run_state_only() {
    let there = listing(
        &[
            &format!("{CONFIG}/team.yaml"),
            &format!("{CONFIG}/board/tasks/001-task.md"),
            &format!("{CONFIG}/events.jsonl"),
            "/home/u/project/.batty/daemon.log",
            "/home/u/project/.batty/orchestrator.log",
            "/home/u/project/.batty/retrospectives/retro.md",
            "/home/u/project/.batty/test_timing.jsonl",
            "/home/u/project/.batty/worktrees/eng-1-1/.codex/sessions/session.jsonl",
        ],
        &[
            CONFIG,
            &format!("{CONFIG}/board"),
            &format!("{CONFIG}/board/tasks"),
            "/home/u/project/.batty/retrospectives",
            "/home/u/project/.batty/worktrees/eng-1-1/.codex/sessions",
        ],
    );

    let copied = export_run(PROJECT, &logs(), &there, "/out").unwrap();

    assert_eq!(
        pairs(&copied),
        vec![
            (format!("{CONFIG}/team.yaml").as_str(), "/out/team.yaml"),
            (
                format!("{CONFIG}/board/tasks/001-task.md").as_str(),
                "/out/board/tasks/001-task.md"
            ),
            (format!("{CONFIG}/events.jsonl").as_str(), "/out/events.jsonl"),
            ("/home/u/project/.batty/daemon.log", "/out/daemon.log"),
            ("/home/u/project/.batty/orchestrator.log", "/out/orchestrator.log"),
            (
                "/home/u/project/.batty/retrospectives/retro.md",
                "/out/retrospectives/retro.md"
            ),
            ("/home/u/project/.batty/test_timing.jsonl", "/out/test_timing.jsonl"),
        ]
    );
}

#[test]
fn export_run_skips_missing_optional_paths() {
    let there = listing(&[&format!("{CONFIG}/team.yaml")], &[CONFIG]);
    let copied = export_run(PROJECT, &logs(), &there, "/out").unwrap();
    assert_eq!(destinations(&copied), vec!["/out/team.yaml"]);
}

#[test]
fn export_run_missing_team_yaml_errors() {
    let error = export_run(PROJECT, &logs(), &listing(&[], &[CONFIG]), "/out")
        .err()
        .unwrap();
    assert!(error.contains("team config missing"));
}

#[test]
fn exports_of_one_second_are_numbered() {
    let exports = exports_dir(PROJECT);
    assert_eq!(exports, "/home/u/project/.batty/exports");
    let free = listing(&[], &[]);
    assert_eq!(create_run_export_dir_at(PROJECT, 5, &free), format!("{exports}/5"));
    let one = listing(&[], &[&format!("{exports}/5")]);
    assert_eq!(create_run_export_dir_at(PROJECT, 5, &one), format!("{exports}/5-1"));
    let two = listing(&[&format!("{exports}/5-1")], &[&format!("{exports}/5")]);
    assert_eq!(create_run_export_dir_at(PROJECT, 5, &two), format!("{exports}/5-2"));
    let now = create_run_export_dir(PROJECT, &free);
    assert!(now.starts_with("/home/u/project/.batty/exports/"));
    assert!(now.len() > exports.len() + 9);
}

#[test]
fn children_lie_directly_below() {
    assert_eq!(child_of("/a", "/a/b").as_deref(), Some("b"));
    assert_eq!(child_of("/a", "/a/b/c"), None);
    assert_eq!(child_of("/a", "/ab"), None);
    assert_eq!(child_of("/a", "/a"), None);
}

#[test]
fn trees_are_copied_with_their_shape() {
    let there = listing(
        &["/t/a.md", "/t/x/b.md", "/t/x/y/c.md", "/other/d.md"],
        &["/t", "/t/x", "/t/x/y"],
    );
    let copied = copy_template_dir(&there, "/t", "/d");
    let mut found = pairs(&copied);
    found.sort();
    assert_eq!(
        found,
        vec![
            ("/t/a.md", "/d/a.md"),
            ("/t/x/b.md", "/d/x/b.md"),
            ("/t/x/y/c.md", "/d/x/y/c.md"),
        ]
    );
}

#[test]
fn an_exported_template_is_restored() {
    let there = listing(
        &[&format!("{CONFIG}/team.yaml"), &format!("{CONFIG}/manager.md")],
        &[CONFIG],
    );
    let exported = export_template(PROJECT, TEMPLATES, "mine", &there).unwrap();
    let later = listing(
        &destinations(&exported),
        &[TEMPLATES, &format!("{TEMPLATES}/mine")],
    );
    let restored = init_from_template(PROJECT, TEMPLATES, "mine", &later).unwrap();
    let back: Vec<(&str, &str)> = pairs(&exported).iter().map(|p| (p.1, p.0)).collect();
    assert_eq!(pairs(&restored), back);
    assert_eq!(back.len(), 2);
}
