use batty_team::merge::git_ops::{
    commits_command, diff_names_command, diff_stat_command,
    changed_paths_from_main, code_files_changed_from_main, commits_ahead_of_main,
    diff_stat_from_main, files_changed_from_main, force_clean_worktree, is_completion_noise_path,
    is_non_code_path, GitReply,
};
use batty_team::merge::lock::{MergeMode, MergeOutcome, MergeSuccess};
use batty_team::merge::multi_repo::{
    finish_multi_merge, merge_multi_repo_engineer_branch, multi_repo_code_files_changed_from_main,
    multi_repo_commits_ahead_of_main, multi_repo_diff_stat_from_main,
    multi_repo_files_changed_from_main, multi_repo_task_branch, next_repo_to_merge,
    record_merge_test_timing, repo_worktree_dir, reset_engineer_worktree_in_repo,
    start_multi_merge, worktrees_to_reset, MultiMergeState, SubRepo, TimingRecord,
};
use batty_team::merge::scope::{
    path_exists_on_main, revert_out_of_scope_files, revert_request, start_revert, RevertState,
};
use batty_team::merge::verification::{
    detect_flaky_failures, empty_test_results, kind_name, phase_name, snapshot_path,
    structured_failure_details, verification_fix_message, verification_outcome_label,
    verification_retry_budget, EvidenceKind, TestFailure, VerificationPhase, VerificationState,
};
use batty_team::team::ClaudeNames;

fn names() -> ClaudeNames {
    ClaudeNames {
        agent: "house".to_string(),
        adapter: "house-cli".to_string(),
        home: ".house".to_string(),
        guide: "HOUSE.md".to_string(),
    }
}

fn printed(stdout: &str) -> GitReply {
    GitReply::Ran {
        success: true,
        stdout: stdout.to_string(),
        stderr: String::new(),
    }
}

fn failed(stderr: &str) -> GitReply {
    GitReply::Ran {
        success: false,
        stdout: String::new(),
        stderr: stderr.to_string(),
    }
}

fn ahead_error() {
    let error = commits_ahead_of_main("/tmp/x", &failed("fatal: not a git repository\n")).unwrap_err();
    assert!(error.contains("count commits ahead of main before accepting engineer completion"));
    assert!(error.contains("git rev-list --count main..HEAD"));
    assert!(error.ends_with("` in /tmp/x returned: fatal: not a git repository"));
    let error = commits_ahead_of_main("/tmp/x", &GitReply::NotRun).unwrap_err();
    assert!(error.contains("could not execute `git rev-list --count main..HEAD` in /tmp/x"));
}

#[test]
fn git_ops_commits_ahead_of_main_error_includes_command_and_intent() {
    ahead_error();
}

#[test]
fn merge_commits_ahead_of_main_error_includes_command_and_intent() {
    ahead_error();
}

#[test]
fn commits_are_counted() {
    assert_eq!(commits_ahead_of_main("/w", &printed("3\n")), Ok(3));
    assert!(commits_ahead_of_main("/w", &printed("many\n")).is_err());
    assert!(commits_ahead_of_main("/w", &printed("4294967296\n")).is_err());
}

#[test]
fn files_changed_from_main_error_on_non_repo() {
    let error = files_changed_from_main(&names(), "/w", &failed("fatal")).unwrap_err();
    assert!(error.contains("narration-only detection"));
}

#[test]
fn files_changed_from_main_zero_when_no_changes() {
    assert_eq!(diff_stat_from_main("/w", &printed("")).unwrap(), "");
    assert_eq!(files_changed_from_main(&names(), "/w", &printed("")).unwrap(), 0);
}

#[test]
fn files_changed_from_main_counts_changed_files() {
    let stat = " src.rs  | 1 +\n test.rs | 1 +\n 2 files changed, 2 insertions(+)\n";
    let diff_stat = diff_stat_from_main("/w", &printed(stat)).unwrap();
    assert!(diff_stat.contains("src.rs"));
    assert!(diff_stat.contains("test.rs"));
    assert_eq!(
        files_changed_from_main(&names(), "/w", &printed("src.rs\ntest.rs\n")).unwrap(),
        2
    );
    assert_eq!(
        changed_paths_from_main("/w", &printed("src.rs\n\n test.rs \n")).unwrap(),
        vec!["src.rs", "test.rs"]
    );
}

#[test]
fn code_files_changed_from_main_ignores_docs_only_diff() {
    let reply = printed("docs/notes.md\n");
    assert_eq!(files_changed_from_main(&names(), "/w", &reply).unwrap(), 1);
    assert_eq!(code_files_changed_from_main(&names(), "/w", &reply).unwrap(), 0);
}

#[test]
fn files_changed_from_main_ignores_runtime_noise_paths() {
    let reply = printed(".batty-target/CACHEDIR.TAG\n.batty/state.json\ndocs/notes.md\n");
    assert_eq!(files_changed_from_main(&names(), "/w", &reply).unwrap(), 1);
    assert_eq!(code_files_changed_from_main(&names(), "/w", &reply).unwrap(), 0);
}

#[test]
fn code_files_changed_from_main_counts_source_changes_but_skips_runtime_noise() {
    let reply = printed(".batty-target/CACHEDIR.TAG\nsrc/main.rs\n");
    assert_eq!(files_changed_from_main(&names(), "/w", &reply).unwrap(), 1);
    assert_eq!(code_files_changed_from_main(&names(), "/w", &reply).unwrap(), 1);
}

#[test]
fn is_non_code_path_preserves_code_adjacent_files() {
    assert!(!is_non_code_path("Cargo.toml"));
    assert!(!is_non_code_path("Cargo.lock"));
    assert!(!is_non_code_path("src/main.rs"));
    assert!(is_non_code_path("docs/guide.md"));
    assert!(is_non_code_path("assets/logo.svg"));
}

#[test]
fn completion_noise_paths_are_excluded_from_evidence_counts() {
    let names = names();
    assert!(is_completion_noise_path(&names, ".batty-target/debug/output"));
    assert!(is_completion_noise_path(&names, ".batty/state.json"));
    assert!(is_completion_noise_path(&names, "target/debug/batty"));
    assert!(is_completion_noise_path(&names, "HOUSE.md"));
    assert!(is_completion_noise_path(&names, "sub/AGENTS.md"));
    assert!(is_completion_noise_path(&names, ".house/settings.json"));
    assert!(!is_completion_noise_path(&names, "docs/guide.md"));
    assert!(!is_completion_noise_path(&names, "src/main.rs"));
}

#[test]
fn a_worktree_is_cleaned_by_two_commands() {
    let commands = force_clean_worktree("/w");
    let lines: Vec<String> = commands
        .iter()
        .map(|c| format!("{}: {}", c.dir, c.args.join(" ")))
        .collect();
    assert_eq!(lines, vec!["/w: reset --hard", "/w: clean -fd --exclude=.batty/"]);
}

#[test]
fn files_on_main_are_restored_and_others_removed() {
    let files = vec!["old.rs".to_string(), "new.rs".to_string()];
    let mut state = start_revert(&files);
    let mut commands: Vec<String> = vec![];
    while let Some(command) = revert_request("/w", &files, &state) {
        let reply = match command.args[0].as_str() {
            "ls-tree" if command.args.contains(&"old.rs".to_string()) => printed("old.rs\n"),
            "diff" => failed(""),
            _ => printed(""),
        };
        commands.push(command.args.join(" "));
        state = revert_out_of_scope_files("/w", &files, &state, &reply);
    }
    assert!(matches!(state, RevertState::Done { committed: true }));
    assert_eq!(commands[0], "ls-tree -r --name-only main -- old.rs");
    assert!(commands[1].ends_with(" old.rs") && commands[1].contains("main"));
    assert_eq!(commands[2], "ls-tree -r --name-only main -- new.rs");
    assert!(commands[3].starts_with("rm ") && commands[3].ends_with(" new.rs"));
    assert!(commands.last().unwrap().starts_with("commit -m Restore fenced files"));

    assert!(matches!(start_revert(&vec![]), RevertState::Done { committed: false }));
    assert_eq!(path_exists_on_main("/w", "f", &printed("f\n")), Ok(true));
    assert_eq!(path_exists_on_main("/w", "f", &printed("\n")), Ok(false));
    assert_eq!(
        path_exists_on_main("/w", "f", &failed("bad\n")),
        Err("failed to inspect whether f exists on main in /w: bad".to_string())
    );
}

fn repo(name: &str, commits: Option<u32>, branch: Result<&str, &str>) -> SubRepo {
    SubRepo {
        name: name.to_string(),
        exists: true,
        commits,
        files: Some(2),
        code_files: Some(1),
        diff_stat: Some(format!("{name}.rs | 1 +")),
        branch: match branch {
            Ok(b) => Ok(b.to_string()),
            Err(e) => Err(e.to_string()),
        },
    }
}

#[test]
fn repositories_of_a_project_are_summed() {
    let mut gone = repo("gone", Some(9), Ok("x"));
    gone.exists = false;
    let repos = vec![
        gone,
        repo("a", Some(0), Ok("main")),
        repo("b", Some(2), Ok("e/1")),
        repo("c", None, Ok("main")),
        repo("d", Some(3), Ok("e/1")),
    ];
    assert_eq!(multi_repo_commits_ahead_of_main(&repos), 5);
    assert_eq!(multi_repo_files_changed_from_main(&repos), 8);
    assert_eq!(multi_repo_code_files_changed_from_main(&repos), 4);
    assert_eq!(multi_repo_task_branch("/w", &repos), Ok("e/1".to_string()));
    assert_eq!(
        multi_repo_task_branch("/w", &vec![]),
        Err("no sub-repo worktrees found in /w".to_string())
    );
    assert!(multi_repo_diff_stat_from_main(&repos).starts_with("[a]\na.rs | 1 +\n[b]\n"));
    assert_eq!(next_repo_to_merge(&repos, 0), Some(2));
    assert_eq!(next_repo_to_merge(&repos, 3), Some(4));
    assert_eq!(next_repo_to_merge(&repos, 5), None);
}

#[test]
fn repositories_are_merged_one_after_the_other() {
    let repos = vec![
        repo("a", Some(1), Ok("e/1")),
        repo("b", Some(0), Ok("main")),
        repo("c", Some(1), Ok("e/1")),
    ];
    let success = MergeOutcome::Success(MergeSuccess {
        mode: MergeMode::DirectRoot,
        reason: None,
    });
    assert!(matches!(start_multi_merge(&repos), MultiMergeState::Merging(0)));
    assert!(matches!(
        merge_multi_repo_engineer_branch(&repos, 0, &success),
        MultiMergeState::Merging(2)
    ));
    assert!(matches!(
        merge_multi_repo_engineer_branch(&repos, 2, &success),
        MultiMergeState::Resetting
    ));
    assert!(matches!(
        merge_multi_repo_engineer_branch(
            &repos,
            0,
            &MergeOutcome::RebaseConflict("CONFLICT".to_string())
        ),
        MultiMergeState::Finished(MergeOutcome::RebaseConflict(_))
    ));
    assert!(matches!(
        finish_multi_merge(),
        MultiMergeState::Finished(MergeOutcome::Success(_))
    ));
    let dir = repo_worktree_dir("/r", "e", "a");
    assert_eq!(reset_engineer_worktree_in_repo("/r", "e", "a", true), Some(dir));
    assert_eq!(reset_engineer_worktree_in_repo("/r", "e", "a", false), None);
}

#[test]
fn slower_test_runs_are_noted() {
    let mut record = TimingRecord {
        duration_ms: 1500,
        rolling_average_ms: Some(1000),
        regression_pct: Some(50),
        regression_detected: true,
    };
    assert_eq!(
        record_merge_test_timing(&record).as_deref(),
        Some("runtime_ms=1500 avg_ms=1000 pct=50")
    );
    record.rolling_average_ms = None;
    record.regression_pct = None;
    assert_eq!(
        record_merge_test_timing(&record).as_deref(),
        Some("runtime_ms=1500 avg_ms=0 pct=0")
    );
    record.regression_detected = false;
    assert_eq!(record_merge_test_timing(&record), None);
}

#[test]
fn verification_states_advance() {
    let mut state = VerificationState::new(2);
    assert!(!state.reached_max_iterations());
    state.begin_iteration();
    state.record_evidence(EvidenceKind::CommitsAhead, "3".to_string());
    assert_eq!(state.transition(VerificationPhase::Fixing), VerificationPhase::Executing);
    state.begin_iteration();
    assert!(state.reached_max_iterations());
    assert_eq!(state.evidence.len(), 1);
    state.clear_evidence();
    assert!(state.evidence.is_empty());
    assert_eq!(phase_name(state.phase), "fixing");
    assert_eq!(kind_name(EvidenceKind::CodeFilesChanged), "code_files_changed");
    assert_eq!(
        verification_outcome_label(VerificationPhase::Complete),
        "verification_passed"
    );
    let budgets: Vec<u32> = [0, 1, 2, 3, 9].iter().map(|n| verification_retry_budget(*n)).collect();
    assert_eq!(budgets, vec![1, 1, 2, 3, 3]);
}

#[test]
fn failed_tests_are_described() {
    let failure = |message: Option<&str>, location: Option<&str>| TestFailure {
        test_name: "t".to_string(),
        message: message.map(|s| s.to_string()),
        location: location.map(|s| s.to_string()),
    };
    let mut results = empty_test_results("cargo", None);
    assert_eq!(results.failed, 0);
    results.failed = 1;
    results.failures = vec![
        failure(Some("boom"), Some("src/a.rs:1")),
        failure(Some("boom"), None),
        failure(None, Some("src/a.rs:1")),
        failure(Some(""), None),
    ];
    assert_eq!(
        structured_failure_details(&results),
        vec!["t (boom at src/a.rs:1)", "t (boom)", "t (at src/a.rs:1)", "t"]
    );
    let green = empty_test_results("cargo", None);
    assert_eq!(detect_flaky_failures(&Some(results), &green).len(), 4);
    assert!(detect_flaky_failures(&None, &green).is_empty());
}

#[test]
fn fix_messages_are_written_in_full() {
    let mut state = VerificationState::new(5);
    state.begin_iteration();
    let failures: Vec<String> = (1..10).map(|i| format!("f{i}")).collect();
    let message = verification_fix_message(&state, "Failed.", &failures, &vec![], " out \n");
    assert_eq!(
        message,
        "Failed.\nFix attempt 1/3.\nFailures:\n- f1\n- f2\n- f3\n- f4\n- f5\n- f6\n- f7\n- f8\n\
         Latest verification output:\n```\nout\n```\n\
         Fix these failures, then report completion again."
    );
    assert_eq!(
        snapshot_path(7, "eng-1", 0),
        ".batty/reports/verification/completion/task-007-eng-1-attempt-1.json"
    );
}

#[test]
fn every_worktree_is_reset_after_the_merge() {
    let mut repos = vec![
        repo("api", Some(0), Ok("eng-1")),
        repo("gone", Some(1), Ok("eng-1")),
        repo("web", None, Err("no branch")),
    ];
    repos[1].exists = false;
    assert_eq!(
        worktrees_to_reset("/p", "eng-1", &repos),
        vec!["/p/.batty/worktrees/eng-1/api", "/p/.batty/worktrees/eng-1/web"]
    );
}

#[test]
fn what_git_is_asked_about_a_branch() {
    let commits = commits_command("/w");
    assert_eq!(commits.dir, "/w");
    assert_eq!(commits.args, vec!["rev-list", "--count", "main..HEAD"]);
    assert_eq!(
        commits.intent,
        "count commits ahead of main before accepting engineer completion"
    );
    assert_eq!(diff_stat_command("/w").args, vec!["diff", "--stat", "main..HEAD"]);
    assert_eq!(diff_names_command("/w").args, vec!["diff", "--name-only", "main..HEAD"]);
}
