use batty_team::merge::completion::{
    handle_engineer_completion, review_fallback, Action, AutoMergeDecision, BranchFacts,
    CompletionAction, CompletionContext, CompletionEvent, CompletionPolicy, CompletionState,
    DecisionKind, Desk, DiffSummary, MemberState, MergeFacts, Progress, ScopeFence, Snapshot,
    VerificationRun,
};
use batty_team::merge::lock::{MergeMode, MergeOutcome, MergeSuccess};
use batty_team::merge::verification::{
    empty_test_results, TestFailure, VerificationPhase, VerificationState,
};

/// A daemon with one engineer, in whose repository everything is as set here.
struct Daemon {
    context: CompletionContext,
    desk: Desk<VerificationState>,
    facts: BranchFacts<String>,
    fence: Option<ScopeFence>,
    run: VerificationRun,
    merge_facts: MergeFacts,
    decision: AutoMergeDecision,
    review_commits: u32,
    outcome: MergeOutcome<String>,
    board_ok: bool,
    log: Vec<Action>,
}

fn diff() -> DiffSummary {
    DiffSummary {
        files_changed: 3,
        lines_changed: 40,
        has_migrations: false,
        has_config_changes: true,
        rename_count: 1,
        confidence_bits: 0.75f64.to_bits(),
    }
}

fn passing_run() -> VerificationRun {
    VerificationRun {
        passed: true,
        output: "test result: ok".to_string(),
        results: empty_test_results("cargo", None),
        failure_summary: String::new(),
        failures: vec![],
        file_paths: vec![],
    }
}

fn failing_run(test: &str) -> VerificationRun {
    let mut results = empty_test_results("cargo", None);
    results.failed = 1;
    results.failures = vec![TestFailure {
        test_name: test.to_string(),
        message: Some("assertion failed".to_string()),
        location: Some("src/lib.rs:5".to_string()),
    }];
    VerificationRun {
        passed: false,
        output: format!("test {test} ... FAILED\n"),
        results,
        failure_summary: format!("1 tests failed: {test}"),
        failures: vec![format!("{test} (assertion failed at src/lib.rs:5)")],
        file_paths: vec!["src/lib.rs".to_string()],
    }
}

fn success() -> MergeOutcome<String> {
    MergeOutcome::Success(MergeSuccess {
        mode: MergeMode::DirectRoot,
        reason: None,
    })
}

impl Daemon {
    fn new() -> Daemon {
        Daemon {
            context: CompletionContext {
                engineer: "eng-1".to_string(),
                manager: Some("manager".to_string()),
                board_dir: "/repo/.batty/team_config/board".to_string(),
                uses_worktrees: true,
                policy: CompletionPolicy {
                    auto_run_tests: true,
                    require_evidence: true,
                    max_iterations: 5,
                    auto_merge_enabled: true,
                },
            },
            desk: Desk {
                active_task: Some(42),
                member_state: MemberState::Working,
                retry_count: None,
                narration_rejections: None,
                verification: None,
            },
            facts: BranchFacts {
                commits: 1,
                files: 1,
                code_files: 1,
                diff_stat: "note.txt | 1 +".to_string(),
            },
            fence: None,
            run: passing_run(),
            merge_facts: MergeFacts {
                branch: "eng-1".to_string(),
                title: "auto-merge-task".to_string(),
                previous_results: None,
                auto_merge_override: None,
                diff: Some(diff()),
            },
            decision: AutoMergeDecision {
                accepted: true,
                confidence: "0.90".to_string(),
                confidence_bits: 0.90f64.to_bits(),
                reasons: vec![],
            },
            review_commits: 1,
            outcome: success(),
            board_ok: true,
            log: vec![],
        }
    }

    fn snapshot(&self) -> &Snapshot {
        self.log
            .iter()
            .find_map(|a| match a {
                CompletionAction::PersistSnapshot(s) => Some(s),
                _ => None,
            })
            .unwrap()
    }

    fn without_commits() -> Daemon {
        let mut daemon = Daemon::new();
        daemon.facts = BranchFacts {
            commits: 0,
            files: 0,
            code_files: 0,
            diff_stat: String::new(),
        };
        daemon
    }

    fn with_narration() -> Daemon {
        let mut daemon = Daemon::without_commits();
        daemon.facts.commits = 1;
        daemon
    }

    fn with_conflict() -> Daemon {
        let mut daemon = Daemon::new();
        daemon.context.policy.auto_merge_enabled = false;
        daemon.outcome = MergeOutcome::RebaseConflict("CONFLICT in conflict.txt".to_string());
        daemon
    }

    /// Performs a whole completion.
    fn complete(&mut self) {
        self.log.clear();
        let mut state: Progress = CompletionState::Reported;
        let mut event = CompletionEvent::Reported;
        loop {
            let turn = handle_engineer_completion(&self.context, self.desk.clone(), state, event);
            self.desk = turn.desk;
            self.log.extend(turn.actions);
            event = match &turn.state {
                CompletionState::Done => return,
                CompletionState::Reported => panic!("back at the start"),
                CompletionState::AwaitBranch { .. } => CompletionEvent::Branch(self.facts.clone()),
                CompletionState::AwaitScope { .. } => CompletionEvent::Scope(self.fence.clone()),
                CompletionState::AwaitTests { .. } => CompletionEvent::Tests(self.run.clone(), 100),
                CompletionState::AwaitMergeFacts { .. } => {
                    CompletionEvent::MergeFacts(self.merge_facts.clone())
                }
                CompletionState::AwaitDecision { .. } => {
                    CompletionEvent::Decision(self.decision.clone())
                }
                CompletionState::AwaitReviewCommits { .. } => {
                    CompletionEvent::ReviewCommits(self.review_commits)
                }
                CompletionState::AwaitMerge { .. } => CompletionEvent::Merged(self.outcome.clone()),
                CompletionState::AwaitBoard { .. } => {
                    CompletionEvent::Board(self.board_ok, Some("board title".to_string()))
                }
            };
            state = turn.state;
        }
    }

    /// The messages to somebody: sender and body.
    fn messages_to(&self, name: &str) -> Vec<(String, String)> {
        self.log
            .iter()
            .filter_map(|action| match action {
                CompletionAction::SendMessage { from, to, body } if to == name => {
                    Some((from.clone(), body.clone()))
                }
                _ => None,
            })
            .collect()
    }

    fn phases(&self) -> Vec<String> {
        self.log
            .iter()
            .filter_map(|action| match action {
                CompletionAction::RecordPhaseChanged { previous, next, iteration } => {
                    Some(format!("from={previous} to={next} iteration={iteration}"))
                }
                _ => None,
            })
            .collect()
    }

    fn escalations(&self) -> Vec<String> {
        self.log
            .iter()
            .filter_map(|action| match action {
                CompletionAction::RecordEscalated(reason) => Some(reason.clone()),
                _ => None,
            })
            .collect()
    }

    fn did_merge(&self) -> bool {
        self.log.iter().any(|a| matches!(a, CompletionAction::Merge))
    }
}

#[test]
fn completion_completion_routes_engineers_with_tasks() {
    let mut daemon = Daemon::new();
    daemon.context.uses_worktrees = false;
    daemon.complete();
    assert_eq!(daemon.desk.active_task, Some(42));
    assert!(daemon.log.is_empty());
}

#[test]
fn merge_completion_routes_engineers_with_tasks() {
    let mut daemon = Daemon::new();
    daemon.context.uses_worktrees = false;
    daemon.complete();
    assert_eq!(daemon.desk.active_task, Some(42));
}

#[test]
fn a_completion_without_a_task_does_nothing() {
    let mut daemon = Daemon::new();
    daemon.desk.active_task = None;
    daemon.complete();
    assert!(daemon.log.is_empty());
}

#[test]
fn completion_gate_rejects_zero_commits_but_keeps_task_active() {
    let mut daemon = Daemon::without_commits();
    daemon.complete();

    // Task stays active: the engineer still owns it
    assert_eq!(daemon.desk.active_task, Some(42));
    assert_eq!(daemon.desk.retry_count, None);
}

#[test]
fn completion_completion_gate_passes_with_commits() {
    let mut daemon = Daemon::new();
    daemon.context.policy.auto_merge_enabled = false;
    daemon.complete();

    assert_eq!(daemon.desk.active_task, None);
    assert_eq!(daemon.desk.member_state, MemberState::Idle);
    assert!(daemon.did_merge());
    assert!(daemon.log.iter().any(|a| matches!(
        a,
        CompletionAction::RecordTiming { branch, duration_ms: 100 } if branch == "eng-1"
    )));
    assert!(daemon.log.iter().any(|a| matches!(
        a,
        CompletionAction::PersistSnapshot(s)
            if s.passed
                && s.path.ends_with("task-042-eng-1-attempt-1.json")
                && s.phase == "complete"
                && s.outcome == "verification_passed"
    )));
}

#[test]
fn completion_skips_automatic_verification_when_disabled() {
    let mut daemon = Daemon::new();
    daemon.context.policy.auto_run_tests = false;
    daemon.context.policy.auto_merge_enabled = false;
    daemon.run = failing_run("tests::smoke_test");
    daemon.complete();

    assert_eq!(daemon.desk.active_task, None);
    assert_eq!(daemon.desk.member_state, MemberState::Idle);
    assert!(!daemon.log.iter().any(|a| matches!(a, CompletionAction::RunTests)));
    assert!(daemon.log.iter().any(|a| matches!(
        a,
        CompletionAction::RecordEvidence { detail, .. }
            if detail == "automatic verification skipped by policy"
    )));
}

#[test]
fn failing_verification_transitions_to_fixing_with_context() {
    let mut daemon = Daemon::new();
    daemon.run = failing_run("tests::smoke_test");
    daemon.complete();

    assert_eq!(daemon.desk.active_task, Some(42));
    assert_eq!(daemon.desk.member_state, MemberState::Working);
    let verification = daemon.desk.verification.clone().unwrap();
    assert_eq!(verification.phase, VerificationPhase::Fixing);
    assert_eq!(verification.iteration, 1);
    assert!(!verification.last_test_passed);
    assert!(verification
        .last_test_output
        .as_deref()
        .is_some_and(|output| output.contains("smoke_test")));

    let messages = daemon.messages_to("eng-1");
    assert_eq!(messages.len(), 1);
    assert!(messages[0].1.contains("Fix attempt 1/3"));
    assert!(messages[0]
        .1
        .contains("Verification failed because the test command did not pass."));
    assert!(messages[0].1.contains("Latest verification output:"));

    let phases = daemon.phases();
    assert!(phases.contains(&"from=executing to=verifying iteration=0".to_string()));
    assert!(phases.contains(&"from=verifying to=fixing iteration=1".to_string()));
    assert!(daemon.log.iter().any(|a| matches!(
        a,
        CompletionAction::RecordEvidence { kind, .. } if kind == "tests_failed"
    )));
    assert!(daemon.log.iter().any(|a| matches!(
        a,
        CompletionAction::PersistSnapshot(s)
            if !s.passed && s.phase == "fixing" && s.outcome == "verification_retry_required"
    )));
}

#[test]
fn verification_max_iterations_blocks_task_and_escalates_manager() {
    let mut daemon = Daemon::new();
    daemon.context.policy.max_iterations = 1;
    daemon.run = failing_run("tests::smoke_test");
    daemon.complete();

    assert_eq!(daemon.desk.active_task, None);
    assert_eq!(daemon.desk.member_state, MemberState::Idle);
    assert!(daemon.desk.verification.is_none());
    assert!(daemon
        .messages_to("eng-1")
        .iter()
        .any(|m| m.1.contains("Fix attempt 1/1")));
    let manager = daemon.messages_to("manager");
    assert!(manager
        .iter()
        .any(|m| m.1.contains("hit verification max iterations on task #42")));
    assert!(manager.iter().any(|m| m.1.contains("Latest phase: failed")));
    assert!(daemon.log.iter().any(|a| matches!(
        a,
        CompletionAction::BlockTask(reason)
            if reason.contains("verification escalation after 1 attempts")
    )));
    assert!(daemon
        .phases()
        .contains(&"from=verifying to=failed iteration=1".to_string()));
    assert!(daemon.log.iter().any(|a| matches!(
        a,
        CompletionAction::RecordMaxIterations { iteration: 1, manager } if manager == "manager"
    )));
    assert_eq!(daemon.escalations(), vec!["verification_failed"]);
}

#[test]
fn completion_zero_commit_retry_message_sent() {
    let mut daemon = Daemon::without_commits();
    daemon.complete();

    let messages = daemon.messages_to("eng-1");
    assert_eq!(messages.len(), 1);
    assert_eq!(messages[0].0, "batty");
    assert!(messages[0].1.contains("no commits ahead of main"));
    assert!(messages[0].1.contains("git add -A"));
    // The manager is not notified on the first rejection
    assert!(daemon.messages_to("manager").is_empty());
}

#[test]
fn scope_violation_completion_reverts_and_emits_event() {
    let mut daemon = Daemon::new();
    daemon.fence = Some(ScopeFence {
        ack_present: true,
        out_of_scope_files: vec!["docs/notes.md".to_string()],
    });
    daemon.complete();

    assert!(daemon.log.iter().any(|a| matches!(
        a,
        CompletionAction::RevertFiles(files) if files == &vec!["docs/notes.md".to_string()]
    )));
    assert!(daemon.log.iter().any(|a| matches!(
        a,
        CompletionAction::EmitScopeViolation(reason) if reason.contains("reclaim_requested=true")
    )));
}

#[test]
fn narration_only_completion_retries_then_escalates_after_two_rejections() {
    let text = "Your previous attempt only produced commentary. \
                Execute the actual commands to make the code changes.";
    let mut daemon = Daemon::with_narration();
    daemon.complete();

    let messages = daemon.messages_to("eng-1");
    assert_eq!(messages.len(), 1);
    assert!(messages[0].1.contains(text));
    assert!(messages[0].1.contains("git diff --stat main..HEAD"));
    assert!(daemon.messages_to("manager").is_empty());
    assert_eq!(daemon.desk.active_task, Some(42));
    assert!(daemon
        .log
        .iter()
        .any(|a| matches!(a, CompletionAction::RecordNarrationRejection { count: 1 })));

    daemon.complete();

    let messages = daemon.messages_to("eng-1");
    assert_eq!(messages.len(), 1);
    assert!(messages[0].1.contains(text));
    let manager = daemon.messages_to("manager");
    assert_eq!(manager.len(), 1);
    assert!(manager[0].1.contains("hit the narration-only quality gate 2 times"));
    assert!(manager[0].1.contains("completion diff is narration-only"));
    assert!(daemon
        .log
        .iter()
        .any(|a| matches!(a, CompletionAction::RecordNarrationRejection { count: 2 })));
}

#[test]
fn narration_rejection_count_is_task_scoped() {
    let mut daemon = Daemon::with_narration();
    daemon.complete();
    assert_eq!(daemon.desk.narration_rejections, Some(1));

    let mut daemon = Daemon::with_narration();
    daemon.desk.active_task = Some(43);
    daemon.complete();
    assert_eq!(daemon.desk.narration_rejections, Some(1));
}

#[test]
fn narration_only_completion_rejects_docs_only_diff() {
    let mut daemon = Daemon::with_narration();
    daemon.facts.files = 1;
    daemon.facts.diff_stat = "docs/notes.md | 1 +".to_string();
    daemon.complete();

    let messages = daemon.messages_to("eng-1");
    assert_eq!(messages.len(), 1);
    assert!(messages[0].1.contains("found no code changes"));
    assert!(messages[0].1.contains("Code files changed: 0"));
    assert!(daemon
        .log
        .iter()
        .any(|a| matches!(a, CompletionAction::RecordNarrationRejection { .. })));
}

#[test]
fn no_commits_rejection_keeps_assignment() {
    let mut daemon = Daemon::without_commits();
    daemon.complete();
    assert_eq!(daemon.desk.active_task, Some(42));
}

#[test]
fn no_commits_rejection_does_not_retry_and_keeps_task() {
    let mut daemon = Daemon::without_commits();
    daemon.complete();
    assert_eq!(daemon.desk.retry_count, None);
    assert_eq!(daemon.desk.active_task, Some(42));
}

fn first_conflict() {
    let mut daemon = Daemon::with_conflict();
    daemon.complete();

    let messages = daemon.messages_to("eng-1");
    assert_eq!(messages.len(), 1);
    assert_eq!(messages[0].0, "batty");
    assert!(messages[0].1.contains("Merge conflict during rebase onto main"));
    assert!(messages[0].1.ends_with("CONFLICT in conflict.txt"));
}

#[test]
fn completion_rebase_conflict_first_retry_messages_engineer() {
    first_conflict();
}

#[test]
fn merge_rebase_conflict_first_retry_messages_engineer() {
    first_conflict();
}

#[test]
fn completion_rebase_conflict_first_retry_keeps_task_active_and_counts_retry() {
    let mut daemon = Daemon::with_conflict();
    daemon.complete();

    assert_eq!(daemon.desk.active_task, Some(42));
    assert_eq!(daemon.desk.retry_count, Some(1));
    assert_eq!(daemon.desk.member_state, MemberState::Working);
}

fn third_conflict() {
    let mut daemon = Daemon::with_conflict();
    daemon.desk.retry_count = Some(2);
    daemon.complete();

    assert!(daemon
        .messages_to("manager")
        .iter()
        .any(|m| m.0 == "eng-1" && m.1.contains("unresolvable merge conflicts after 2 retries")));
}

#[test]
fn completion_rebase_conflict_third_attempt_escalates_to_manager() {
    third_conflict();
}

#[test]
fn merge_rebase_conflict_third_attempt_escalates_to_manager() {
    third_conflict();
}

#[test]
fn completion_rebase_conflict_third_attempt_clears_task_and_sets_idle() {
    let mut daemon = Daemon::with_conflict();
    daemon.desk.retry_count = Some(2);
    daemon.complete();

    assert_eq!(daemon.desk.active_task, None);
    assert_eq!(daemon.desk.retry_count, None);
    assert_eq!(daemon.desk.member_state, MemberState::Idle);
}

#[test]
fn completion_rebase_conflict_third_attempt_records_escalation_event() {
    let mut daemon = Daemon::with_conflict();
    daemon.desk.retry_count = Some(2);
    daemon.complete();
    assert_eq!(daemon.escalations(), vec!["merge_conflict"]);
}

#[test]
fn handle_engineer_completion_escalates_isolated_merge_prep_failures_without_crashing() {
    let mut daemon = Daemon::new();
    daemon.context.policy.auto_merge_enabled = false;
    daemon.outcome =
        MergeOutcome::MergeFailure("isolated merge path failed: not a directory".to_string());
    daemon.complete();

    assert_eq!(daemon.desk.active_task, None);
    assert_eq!(daemon.desk.member_state, MemberState::Idle);
    let manager = daemon.messages_to("manager");
    assert_eq!(manager.len(), 1);
    assert_eq!(manager[0].0, "daemon");
    assert!(manager[0].1.contains("could not be merged to main"));
    assert!(manager[0].1.contains("isolated merge path failed"));
    let engineer = daemon.messages_to("eng-1");
    assert_eq!(engineer.len(), 1);
    assert_eq!(engineer[0].0, "daemon");
    assert!(engineer[0].1.contains("could not merge it into main"));
}

#[test]
fn test_failure_retry_message_includes_structured_summary() {
    let mut daemon = Daemon::new();
    daemon.run = failing_run("tests::test_dispatch_wip_guard");
    daemon.complete();

    let messages = daemon.messages_to("eng-1");
    assert_eq!(messages.len(), 1);
    assert!(messages[0]
        .1
        .contains("1 tests failed: tests::test_dispatch_wip_guard"));
    assert!(messages[0].1.contains("src/lib.rs"));
    assert!(daemon.log.iter().any(|a| matches!(
        a,
        CompletionAction::PersistSnapshot(s)
            if !s.passed
                && s.path.ends_with("task-042-eng-1-attempt-1.json")
                && s.outcome == "verification_retry_required"
    )));
}

#[test]
fn test_failure_escalation_includes_structured_summary() {
    let mut daemon = Daemon::new();
    daemon.context.policy.max_iterations = 1;
    daemon.run = failing_run("tests::test_dispatch_wip_guard");
    daemon.complete();

    assert!(daemon.messages_to("manager").iter().any(|m| {
        m.1.contains("Summary: 1 tests failed") && m.1.contains("tests::test_dispatch_wip_guard")
    }));
}

#[test]
fn test_failure_escalation_is_suppressed_when_recently_sent() {
    let mut daemon = Daemon::new();
    daemon.context.policy.max_iterations = 1;
    daemon.run = failing_run("tests::test_dispatch_wip_guard");
    daemon.complete();

    assert!(
        daemon
            .messages_to("manager")
            .iter()
            .all(|m| !m.1.contains("failed tests after 2 retries")),
        "recent test failure escalation should be suppressed"
    );
}

#[test]
fn completion_auto_merges_small_clean_diff() {
    let mut daemon = Daemon::new();
    daemon.complete();

    assert!(daemon.log.iter().any(|a| matches!(
        a,
        CompletionAction::EnqueueMerge {
            branch,
            duration_ms: 100,
            verify_after: true,
            confidence_bits,
            files_changed: 3,
            lines_changed: 40,
        } if branch == "eng-1" && f64::from_bits(*confidence_bits) == 0.90
    )));
    assert_eq!(daemon.desk.active_task, Some(42));
    assert_eq!(daemon.desk.member_state, MemberState::Working);
    assert!(daemon.log.iter().any(|a| matches!(a, CompletionAction::MoveToReview { .. })));
    assert!(daemon.log.iter().any(|a| matches!(
        a,
        CompletionAction::RecordDecision { accepted: true, confidence, reasons, .. }
            if confidence == "0.90" && reasons.is_empty()
    )));
    assert!(daemon
        .log
        .iter()
        .any(|a| matches!(a, CompletionAction::RecordConfidence(d) if *d == diff())));
    assert!(!daemon.did_merge());
}

#[test]
fn completion_routes_large_diff_to_review() {
    let mut daemon = Daemon::new();
    daemon.decision = AutoMergeDecision {
        accepted: false,
        confidence: "0.35".to_string(),
        confidence_bits: 0.35f64.to_bits(),
        reasons: vec!["10 files".to_string(), "500 lines".to_string()],
    };
    daemon.complete();

    assert!(daemon.log.iter().any(|a| matches!(
        a,
        CompletionAction::MoveToReview { manager: Some(m) } if m == "manager"
    )));
    assert_eq!(daemon.desk.active_task, None);
    assert_eq!(daemon.desk.member_state, MemberState::Idle);
    let manager = daemon.messages_to("manager");
    assert!(manager.iter().any(|m| m.1.contains("manual review")));
    assert!(manager[0].1.ends_with("Confidence: 0.35\nReasons: 10 files; 500 lines"));
}

#[test]
fn move_task_to_review_requires_commits_ahead_of_main() {
    let mut daemon = Daemon::new();
    daemon.review_commits = 0;
    daemon.complete();

    assert!(
        !daemon.log.iter().any(|a| matches!(a, CompletionAction::MoveToReview { .. })),
        "review transition should be blocked without commits"
    );
    assert!(daemon
        .messages_to("eng-1")
        .iter()
        .any(|m| m.1.contains("no commits ahead of main")));
    assert!(daemon.messages_to("manager").is_empty());
    assert_eq!(daemon.desk.active_task, Some(42));
}

#[test]
fn completion_respects_disabled_policy() {
    let mut daemon = Daemon::new();
    daemon.context.policy.auto_merge_enabled = false;
    daemon.complete();

    assert_eq!(daemon.desk.active_task, None);
    assert_eq!(daemon.desk.member_state, MemberState::Idle);
    assert!(daemon.did_merge());
    assert!(!daemon
        .log
        .iter()
        .any(|a| matches!(a, CompletionAction::EnqueueMerge { .. })));
}

#[test]
fn completion_respects_per_task_override() {
    let mut daemon = Daemon::new();
    daemon.merge_facts.auto_merge_override = Some(false);
    daemon.complete();

    assert!(daemon
        .messages_to("manager")
        .iter()
        .any(|m| m.1.contains("Auto-merge disabled by override")));
    assert!(!daemon.did_merge());
}

#[test]
fn overrides_and_missing_diffs_choose_the_question() {
    let asked = |daemon: &Daemon| {
        daemon.log.iter().find_map(|a| match a {
            CompletionAction::AskDecision(kind) => Some(*kind),
            _ => None,
        })
    };
    let mut daemon = Daemon::new();
    daemon.context.policy.auto_merge_enabled = false;
    daemon.merge_facts.auto_merge_override = Some(true);
    daemon.complete();
    assert_eq!(asked(&daemon), Some(DecisionKind::ForcedAuto(diff())));

    let mut daemon = Daemon::new();
    daemon.merge_facts.diff = None;
    daemon.complete();
    assert_eq!(asked(&daemon), None);
    assert!(daemon.did_merge());
}

#[test]
fn a_completed_task_is_reported() {
    let mut daemon = Daemon::new();
    daemon.context.policy.auto_merge_enabled = false;
    daemon.board_ok = false;
    daemon.outcome = MergeOutcome::Success(MergeSuccess {
        mode: MergeMode::IsolatedIntegration,
        reason: Some("root is dirty".to_string()),
    });
    daemon.complete();

    let manager = daemon.messages_to("manager");
    assert_eq!(
        manager[0].1,
        "[eng-1] Task #42 completed.\nTitle: auto-merge-task\nTests: passed\nMerge: success\n\
         Merge mode: isolated integration checkout\nMerge reason: root is dirty\n\
         Board: update failed; decide next board action manually."
    );
    assert!(daemon.log.iter().any(|a| matches!(
        a,
        CompletionAction::AppendLearning(text)
            if text == "Task #42 merged cleanly after passing verification. Title: board title"
    )));
    assert!(daemon.log.iter().any(|a| matches!(
        a,
        CompletionAction::RecordOrchestratorNote(note)
            if note == "completion merge: isolated merge for task #42 (root is dirty)"
    )));
}

#[test]
fn tests_that_turn_green_are_noted_as_flaky() {
    let mut daemon = Daemon::new();
    daemon.merge_facts.previous_results = Some(failing_run("t").results);
    daemon.complete();
    assert!(daemon.log.iter().any(|a| matches!(
        a,
        CompletionAction::RecordTestResults(record)
            if record.flaky.len() == 1 && record.flaky[0].test_name == "t"
    )));
}

#[test]
fn a_snapshot_holds_the_run_and_the_evidence() {
    let mut daemon = Daemon::new();
    daemon.run = failing_run("tests::smoke_test");
    daemon.complete();
    let snapshot = daemon.snapshot();
    assert_eq!(snapshot.task, 42);
    assert_eq!(snapshot.engineer, "eng-1");
    assert_eq!(snapshot.results.failed, 1);
    assert_eq!(snapshot.results.failures[0].test_name, "tests::smoke_test");
    assert_eq!(
        snapshot.failures,
        vec!["tests::smoke_test (assertion failed at src/lib.rs:5)"]
    );
    assert_eq!(snapshot.file_paths, vec!["src/lib.rs"]);
    assert_eq!(snapshot.output, "test tests::smoke_test ... FAILED\n");
    assert_eq!(
        snapshot.evidence.last().unwrap().detail,
        "tests::smoke_test (assertion failed at src/lib.rs:5)"
    );
}

#[test]
fn skipped_tests_are_filed_as_such() {
    let mut daemon = Daemon::new();
    daemon.context.policy.auto_run_tests = false;
    daemon.complete();
    let snapshot = daemon.snapshot();
    assert!(snapshot.passed);
    assert_eq!(snapshot.results.framework, "cargo");
    assert_eq!(
        snapshot.results.summary.as_deref(),
        Some("automatic verification skipped by policy")
    );
    assert_eq!(snapshot.results.total, None);
    assert_eq!(
        snapshot.output,
        "automatic verification skipped because workflow_policy.verification.auto_run_tests=false"
    );
    assert!(daemon.log.iter().any(|a| matches!(
        a,
        CompletionAction::RecordTestResults(record)
            if record.results.framework == "cargo" && record.flaky.is_empty()
    )));
}

#[test]
fn a_refused_move_to_review_takes_a_detour() {
    assert!(review_fallback(true).is_empty());
    assert_eq!(review_fallback(false), vec!["in-progress", "review"]);
}
