use std::collections::BTreeMap;

use batty_team::merge::branch::{
    merge_engineer_branch, merge_engineer_branch_in_repo, merge_request, repo_merge_command,
    MergeContext, MergeReply, MergeRequest, MergeState, RepoMergeState, VerifyReport,
};
use batty_team::merge::git_ops::{GitCommand, GitReply};
use batty_team::merge::lock::{
    acquire, merge_lock_path, LockAttempt, LockStep, MergeMode, MergeOutcome,
};
use batty_team::merge::operations::{
    is_auto_resolvable, reset_engineer_worktree, reset_request, resolve_request,
    try_auto_resolve_rebase, ResetReply, ResetRequest, ResetState, ResolveRequest, ResolveState,
};

const ROOT: &str = "/repo";

fn base_branch(engineer: &str) -> String {
    format!("eng-main/{engineer}")
}

fn ran(success: bool, stdout: &str, stderr: &str) -> GitReply {
    GitReply::Ran {
        success,
        stdout: stdout.to_string(),
        stderr: stderr.to_string(),
    }
}

/// A repository with one worktree, in which git and its surroundings are
/// acted out.
struct Repo {
    engineer: String,
    has_worktree: bool,
    root_branch: String,
    root_can_leave: bool,
    worktree_branch: String,
    is_dirty: bool,
    branches: BTreeMap<String, Vec<String>>,
    /// The files that conflict, at each stop of a rebase.
    stops: Vec<Vec<String>>,
    is_rebasing: bool,
    /// The files for which the version of `main` was taken.
    from_main: Vec<String>,
    merge_error: Option<String>,
    report: VerifyReport,
}

impl Repo {
    fn new(engineer: &str, branch: &str) -> Repo {
        let mut branches = BTreeMap::new();
        branches.insert("main".to_string(), vec!["initial".to_string()]);
        branches.insert(branch.to_string(), vec!["initial".to_string()]);
        Repo {
            engineer: engineer.to_string(),
            has_worktree: true,
            root_branch: "main".to_string(),
            root_can_leave: true,
            worktree_branch: branch.to_string(),
            is_dirty: false,
            branches,
            stops: vec![],
            is_rebasing: false,
            from_main: vec![],
            merge_error: None,
            report: VerifyReport {
                failed: false,
                regressions: vec![],
                report_path: None,
            },
        }
    }

    fn commit(&mut self, branch: &str, name: &str) {
        self.branches.get_mut(branch).unwrap().push(name.to_string());
    }

    fn main_has(&self, name: &str) -> bool {
        self.branches["main"].iter().any(|c| c == name)
    }

    fn join(&mut self, from: &str, into: &str) {
        let missing: Vec<String> = self.branches[from]
            .iter()
            .filter(|c| !self.branches[into].contains(c))
            .cloned()
            .collect();
        self.branches.get_mut(into).unwrap().extend(missing);
    }

    fn git(&mut self, command: &GitCommand) -> GitReply {
        let args: Vec<&str> = command.args.iter().map(|s| s.as_str()).collect();
        let branch = self.worktree_branch.clone();
        match args.as_slice() {
            ["checkout", "main"] => {
                if self.root_can_leave {
                    self.root_branch = "main".to_string();
                }
                ran(self.root_can_leave, "", "cannot leave\n")
            }
            ["fetch", ".", "main:main"] => GitReply::NotRun,
            ["rebase", "main"] => {
                if self.stops.is_empty() {
                    self.join("main", &branch);
                    ran(true, "", "")
                } else {
                    self.is_rebasing = true;
                    ran(false, "", " CONFLICT (content)\n")
                }
            }
            ["rebase", "--abort"] => {
                self.is_rebasing = false;
                ran(true, "", "")
            }
            ["rebase", "--continue"] => {
                if self.stops[0].is_empty() {
                    self.stops.remove(0);
                }
                if self.stops.is_empty() {
                    self.is_rebasing = false;
                    self.join("main", &branch);
                }
                ran(self.stops.is_empty(), "", "")
            }
            ["diff", "--name-only", "--diff-filter=U"] => {
                ran(true, &(self.stops[0].join("\n") + "\n"), "")
            }
            ["checkout", "--ours", file] => {
                self.from_main.push(file.to_string());
                ran(true, "", "")
            }
            ["add", file] => {
                self.stops[0].retain(|f| f != file);
                ran(true, "", "")
            }
            ["merge", name, "--no-edit"] => match &self.merge_error {
                Some(error) => ran(false, "", error),
                None => {
                    let name = name.to_string();
                    self.join(&name, "main");
                    ran(true, "", "")
                }
            },
            other => panic!("unexpected command {other:?}"),
        }
    }

    fn resolve(&mut self, request: ResolveRequest) -> GitReply {
        match request {
            ResolveRequest::Run(command) => self.git(&command),
            ResolveRequest::RunAll(commands) => {
                for command in &commands {
                    self.git(command);
                }
                ran(true, "", "")
            }
            ResolveRequest::Nothing => panic!("nothing to resolve"),
        }
    }

    fn reset(&mut self, request: ResetRequest) -> ResetReply<String> {
        match request {
            ResetRequest::Exists(_) => ResetReply::Flag(self.has_worktree),
            ResetRequest::CurrentBranch(_) => ResetReply::Branch(self.worktree_branch.clone()),
            ResetRequest::SafeToMutate(_) => {
                let is_base = self.worktree_branch == base_branch(&self.engineer);
                ResetReply::Flag(!self.is_dirty || is_base)
            }
            ResetRequest::CommitThenRun(dir, commands) => {
                let lines: Vec<String> = commands.iter().map(|c| c.args.join(" ")).collect();
                assert_eq!(lines, vec!["reset --hard", "clean -fd --exclude=.batty/"]);
                assert!(commands.iter().all(|c| c.dir == dir));
                self.is_dirty = false;
                ResetReply::Finished
            }
            ResetRequest::CheckoutFromMain(_, branch) => {
                let main = self.branches["main"].clone();
                self.branches.insert(branch.clone(), main);
                self.worktree_branch = branch;
                ResetReply::Finished
            }
            ResetRequest::IsMergedIntoMain(_, branch) => {
                ResetReply::Flag(self.branches[&branch].iter().all(|c| self.main_has(c)))
            }
            ResetRequest::DeleteBranch(_, branch) => {
                self.branches.remove(&branch);
                ResetReply::Finished
            }
            ResetRequest::Nothing => panic!("nothing to reset"),
        }
    }

    fn merge(&mut self) -> Result<MergeOutcome<String>, String> {
        let engineer = self.engineer.clone();
        let base = base_branch(&engineer);
        let context = MergeContext {
            project_root: ROOT,
            engineer: &engineer,
            base_branch: &base,
        };
        let mut state = MergeState::Locate;
        loop {
            let reply = match merge_request(&context, &state) {
                MergeRequest::Exists(_) => MergeReply::Exists(self.has_worktree),
                MergeRequest::CurrentBranch(dir) => MergeReply::Branch(if dir == ROOT {
                    self.root_branch.clone()
                } else {
                    self.worktree_branch.clone()
                }),
                MergeRequest::Run(command) => MergeReply::Git(self.git(&command)),
                MergeRequest::Resolve(request) => MergeReply::Git(self.resolve(request)),
                MergeRequest::Verify(_, _) => MergeReply::Verified(VerifyReport {
                    failed: self.report.failed,
                    regressions: self.report.regressions.clone(),
                    report_path: self.report.report_path.clone(),
                }),
                MergeRequest::Reset(request) => MergeReply::Reset(self.reset(request)),
                MergeRequest::Nothing => {
                    return match state {
                        MergeState::Finished(outcome) => Ok(outcome),
                        MergeState::Failed(error) => Err(error),
                        _ => panic!("stuck"),
                    }
                }
            };
            state = merge_engineer_branch(&context, &state, &reply);
        }
    }

    fn reset_worktree(&mut self) -> Result<bool, String> {
        let engineer = self.engineer.clone();
        let base = base_branch(&engineer);
        let mut state = ResetState::Locate;
        loop {
            match state {
                ResetState::Done { reset } => return Ok(reset),
                ResetState::Failed { error } => return Err(error),
                _ => {}
            }
            let request = reset_request(ROOT, &engineer, &base, &state);
            let reply = self.reset(request);
            state = reset_engineer_worktree(&engineer, &base, &state, &reply);
        }
    }
}

fn is_success(outcome: &Result<MergeOutcome<String>, String>) -> bool {
    matches!(outcome, Ok(MergeOutcome::Success(s)) if s.mode == MergeMode::DirectRoot)
}

fn missing_worktree() {
    let mut repo = Repo::new("eng-1-1", "eng-1-1");
    repo.has_worktree = false;
    let err = repo.merge().err().unwrap();
    assert!(err.contains("no worktree found"));
    assert_eq!(err, "no worktree found for 'eng-1-1' at /repo/.batty/worktrees/eng-1-1");
}

#[test]
fn operations_merge_rejects_missing_worktree() {
    missing_worktree();
}

#[test]
fn merge_merge_rejects_missing_worktree() {
    missing_worktree();
}

fn rebased_merge() {
    let mut repo = Repo::new("eng-1", "eng-1");
    repo.commit("eng-1", "engineer feature");
    repo.commit("main", "main advance");

    let result = repo.merge();
    assert!(is_success(&result));
    assert!(repo.main_has("engineer feature"));
    assert!(repo.main_has("main advance"));
}

#[test]
fn operations_merge_with_rebase_picks_up_main() {
    rebased_merge();
}

#[test]
fn merge_merge_with_rebase_picks_up_main() {
    rebased_merge();
}

#[test]
fn merge_blocks_when_verification_detects_regression() {
    let mut repo = Repo::new("eng-verify", "eng-verify");
    repo.commit("eng-verify", "introduce regression");
    repo.report = VerifyReport {
        failed: true,
        regressions: vec!["Screen fill".to_string(), "Sound".to_string()],
        report_path: Some("/repo/report.md".to_string()),
    };

    match repo.merge().unwrap() {
        MergeOutcome::MergeFailure(message) => {
            assert!(message.contains("verification detected regressions"));
            assert!(message.contains("Screen fill"));
            assert_eq!(
                message,
                "verification detected regressions for behavior(s): Screen fill, Sound. \
                 Report: /repo/report.md"
            );
        }
        other => panic!("expected verification failure, got {other:?}"),
    }
    assert_eq!(repo.root_branch, "main");
    assert!(!repo.main_has("introduce regression"));

    repo.report.regressions = vec![];
    repo.report.report_path = None;
    assert!(matches!(
        repo.merge(),
        Ok(MergeOutcome::MergeFailure(m))
            if m == "verification detected regressions for behavior(s): unknown. Report: (none)"
    ));
}

#[test]
fn operations_reset_worktree_after_merge() {
    let mut repo = Repo::new("eng-1", "eng-1");
    repo.commit("eng-1", "engineer work");

    assert!(is_success(&repo.merge()));
    assert_eq!(repo.branches["main"], repo.branches[&repo.worktree_branch]);
}

fn empty_merge() {
    let mut repo = Repo::new("eng-empty", "eng-empty");
    let main_before = repo.branches["main"].clone();

    assert!(is_success(&repo.merge()));
    assert_eq!(repo.branches["main"], main_before);
}

#[test]
fn operations_merge_empty_diff_returns_success() {
    empty_merge();
}

#[test]
fn merge_merge_empty_diff_returns_success() {
    empty_merge();
}

fn empty_merge_resets() {
    let mut repo = Repo::new("eng-empty", "eng-empty");

    assert!(is_success(&repo.merge()));
    assert_eq!(repo.worktree_branch, base_branch("eng-empty"));
}

#[test]
fn operations_merge_empty_diff_resets_worktree_to_engineer_base_branch() {
    empty_merge_resets();
}

#[test]
fn merge_merge_empty_diff_resets_worktree_to_engineer_base_branch() {
    empty_merge_resets();
}

#[test]
fn operations_merge_with_two_main_advances_rebases_cleanly() {
    let mut repo = Repo::new("eng-stale", "eng-stale");
    repo.commit("eng-stale", "engineer feature");
    repo.commit("main", "main advance 1");
    repo.commit("main", "main advance 2");

    assert!(is_success(&repo.merge()));
    assert!(repo.main_has("engineer feature"));
    assert!(repo.main_has("main advance 1"));
    assert!(repo.main_has("main advance 2"));
}

#[test]
fn operations_reset_worktree_restores_engineer_base_branch_after_task_merge() {
    let mut repo = Repo::new("eng-1", "eng-1/42");
    repo.commit("eng-1/42", "engineer work");

    assert!(is_success(&repo.merge()));
    assert_eq!(repo.worktree_branch, base_branch("eng-1"));
    assert!(
        !repo.branches.contains_key("eng-1/42"),
        "merged task branch should be deleted"
    );
}

#[test]
fn operations_reset_worktree_leaves_clean_state() {
    let mut repo = Repo::new("eng-1", "eng-1");
    repo.commit("eng-1", "add file");
    assert!(is_success(&repo.merge()));
    assert!(!repo.is_dirty);
}

fn missing_worktree_is_not_reset() {
    let mut repo = Repo::new("eng-missing", "eng-missing");
    repo.has_worktree = false;
    assert_eq!(repo.reset_worktree(), Ok(false));
}

#[test]
fn operations_reset_worktree_noops_when_worktree_is_missing() {
    missing_worktree_is_not_reset();
}

#[test]
fn merge_reset_worktree_noops_when_worktree_is_missing() {
    missing_worktree_is_not_reset();
}

#[test]
fn operations_reset_worktree_keeps_unmerged_task_branch() {
    let mut repo = Repo::new("eng-keep", "eng-keep/77");
    repo.commit("eng-keep/77", "unmerged feature");

    assert_eq!(repo.reset_worktree(), Ok(true));
    assert_eq!(repo.worktree_branch, base_branch("eng-keep"));
    assert!(repo.branches.contains_key("eng-keep/77"));
}

#[test]
fn operations_reset_worktree_deletes_merged_legacy_task_branch() {
    let mut repo = Repo::new("eng-legacy", "eng-legacy/task-55");
    repo.commit("eng-legacy/task-55", "legacy task work");
    repo.join("eng-legacy/task-55", "main");

    assert_eq!(repo.reset_worktree(), Ok(true));
    assert!(!repo.branches.contains_key("eng-legacy/task-55"));
    assert_eq!(repo.worktree_branch, base_branch("eng-legacy"));
}

#[test]
fn operations_reset_worktree_keeps_non_engineer_namespace_branch() {
    let mut repo = Repo::new("eng-keep", "feature/custom");

    assert_eq!(repo.reset_worktree(), Ok(true));
    assert!(repo.branches.contains_key("feature/custom"));
}

#[test]
fn operations_merge_success_deletes_merged_engineer_branch_namespace() {
    let mut repo = Repo::new("eng-delete", "eng-delete");
    repo.commit("eng-delete", "engineer work");

    assert!(is_success(&repo.merge()));
    assert!(!repo.branches.contains_key("eng-delete"));
}

#[test]
fn operations_merge_rebase_conflict_returns_conflict() {
    let mut repo = Repo::new("eng-2", "eng-2");
    repo.stops = vec![vec!["conflict.txt".to_string()]];

    match repo.merge().unwrap() {
        MergeOutcome::RebaseConflict(text) => {
            assert!(text.contains("git rebase main"));
            assert!(text.ends_with("CONFLICT (content)"));
        }
        other => panic!("expected a conflict, got {other:?}"),
    }
}

fn conflict_aborts() {
    let mut repo = Repo::new("eng-4", "eng-4");
    repo.stops = vec![vec!["conflict.txt".to_string()]];

    assert!(matches!(repo.merge(), Ok(MergeOutcome::RebaseConflict(_))));
    assert!(!repo.is_rebasing);
}

#[test]
fn operations_merge_rebase_conflict_aborts_rebase_state() {
    conflict_aborts();
}

#[test]
fn merge_merge_rebase_conflict_aborts_rebase_state() {
    conflict_aborts();
}

#[test]
fn conflicts_in_managed_files_are_settled() {
    let mut repo = Repo::new("eng-5", "eng-5");
    repo.commit("eng-5", "work");
    repo.stops = vec![
        vec![".cargo/config.toml".to_string()],
        vec!["src/team/templates/batty_manager.md".to_string(), "x/.cargo/config.toml".to_string()],
    ];
    assert!(is_success(&repo.merge()));
    assert!(repo.main_has("work"));
    assert_eq!(
        repo.from_main,
        vec![
            ".cargo/config.toml",
            "src/team/templates/batty_manager.md",
            "x/.cargo/config.toml",
        ]
    );

    // A conflict in another file ends the attempt, also at a later stop.
    let mut repo = Repo::new("eng-5", "eng-5");
    repo.stops = vec![
        vec![".cargo/config.toml".to_string()],
        vec![".cargo/config.toml".to_string(), "src/lib.rs".to_string()],
    ];
    assert!(matches!(repo.merge(), Ok(MergeOutcome::RebaseConflict(_))));
    assert!(!repo.is_rebasing);
}

#[test]
fn managed_files_are_known() {
    assert!(is_auto_resolvable(".cargo/config.toml"));
    assert!(is_auto_resolvable("sub/.cargo/config.toml"));
    assert!(is_auto_resolvable("src/team/templates/batty_engineer.md"));
    assert!(!is_auto_resolvable("src/team/templates/architect.md"));
    assert!(!is_auto_resolvable("config.toml"));
}

#[test]
fn a_rebase_is_continued_for_twenty_rounds_at_most() {
    let mut state = ResolveState::List;
    state = try_auto_resolve_rebase(&state, &ran(true, ".cargo/config.toml\n", ""));
    let mut rounds = 0;
    loop {
        let reply = match resolve_request("/w", &state) {
            ResolveRequest::Run(command) => {
                if command.args[0] == "rebase" {
                    rounds += 1;
                    ran(false, "", "")
                } else {
                    ran(true, "", "")
                }
            }
            ResolveRequest::RunAll(commands) => {
                assert_eq!(commands.len(), 2);
                ran(true, "", "")
            }
            ResolveRequest::Nothing => break,
        };
        state = try_auto_resolve_rebase(&state, &reply);
    }
    assert!(matches!(state, ResolveState::Unresolved));
    assert_eq!(rounds, 20);
}

#[test]
fn operations_merge_with_dirty_main_returns_merge_failure() {
    let mut repo = Repo::new("eng-3", "eng-3");
    repo.commit("eng-3", "engineer update");
    repo.merge_error =
        Some("error: Your local changes would be overwritten by merge.\n".to_string());

    match repo.merge().unwrap() {
        MergeOutcome::MergeFailure(stderr) => {
            assert!(
                stderr.contains("would be overwritten by merge")
                    || stderr.contains("Please commit your changes or stash them"),
                "unexpected merge failure stderr: {stderr}"
            );
        }
        other => panic!("expected merge failure outcome, got {other:?}"),
    }
}

#[test]
fn operations_merge_failure_retains_engineer_branch_for_manual_recovery() {
    let mut repo = Repo::new("eng-3", "eng-3");
    repo.merge_error = Some("dirty".to_string());

    assert!(matches!(repo.merge(), Ok(MergeOutcome::MergeFailure(_))));
    assert_eq!(repo.worktree_branch, "eng-3");
    assert!(repo.branches.contains_key("eng-3"));
}

#[test]
fn reset_clears_task_branch() {
    let mut repo = Repo::new("eng-reset", "eng-reset/task-99");
    repo.commit("eng-reset/task-99", "task work");
    repo.join("eng-reset/task-99", "main");

    assert_eq!(repo.reset_worktree(), Ok(true));
    assert_eq!(repo.worktree_branch, base_branch("eng-reset"));
    assert!(
        !repo.branches.contains_key("eng-reset/task-99"),
        "merged task branch should have been deleted"
    );
}

#[test]
fn reset_handles_uncommitted_changes_on_base_branch() {
    let base = base_branch("eng-dirty");
    let mut repo = Repo::new("eng-dirty", &base);
    repo.is_dirty = true;

    // The base branch is safe to mutate even when dirty.
    assert_eq!(repo.reset_worktree(), Ok(true));
    assert_eq!(repo.worktree_branch, base);
    assert!(!repo.is_dirty);
}

#[test]
fn reset_skips_when_dirty_task_branch() {
    let mut repo = Repo::new("eng-dirty-task", "eng-dirty-task/task-88");
    repo.is_dirty = true;

    assert_eq!(repo.reset_worktree(), Ok(false));
    assert_eq!(repo.worktree_branch, "eng-dirty-task/task-88");
    assert!(repo.is_dirty);
}

#[test]
fn reset_handles_detached_head() {
    let mut repo = Repo::new("eng-detach", "HEAD");
    assert_eq!(repo.reset_worktree(), Ok(true));
    assert_eq!(repo.worktree_branch, base_branch("eng-detach"));
    assert!(repo.branches.contains_key("HEAD"));
}

#[test]
fn merge_fails_when_project_root_not_on_main() {
    let mut repo = Repo::new("eng-off", "eng-off");
    repo.root_branch = "HEAD".to_string();
    assert!(is_success(&repo.merge()));
    assert_eq!(repo.root_branch, "main");

    let mut repo = Repo::new("eng-off", "eng-off");
    repo.root_branch = "HEAD".to_string();
    repo.root_can_leave = false;
    match repo.merge().unwrap() {
        MergeOutcome::MergeFailure(msg) => {
            assert!(
                msg.contains("not 'main'"),
                "expected branch mismatch message, got: {msg}"
            );
            assert_eq!(
                msg,
                "project root is on 'HEAD', not 'main', and checkout failed: cannot leave"
            );
        }
        other => panic!("expected MergeFailure, got {other:?}"),
    }
}

#[test]
fn merge_succeeds_when_project_root_on_main() {
    let mut repo = Repo::new("eng-ok", "eng-ok");
    repo.commit("eng-ok", "engineer work");
    assert_eq!(repo.root_branch, "main");

    assert!(is_success(&repo.merge()));
    assert!(repo.main_has("engineer work"));
}

#[test]
fn reset_worktree_skips_when_dirty_task_branch() {
    let mut repo = Repo::new("eng-wip", "eng-wip/88");
    repo.is_dirty = true;

    // Skips, and does not fail, when dirty on a task branch.
    assert_eq!(repo.reset_worktree(), Ok(false));
    assert_eq!(repo.worktree_branch, "eng-wip/88");
    assert!(repo.is_dirty);
}

#[test]
fn errors_end_a_merge_and_a_reset() {
    let context = MergeContext {
        project_root: ROOT,
        engineer: "e",
        base_branch: "b",
    };
    let after = merge_engineer_branch(
        &context,
        &MergeState::ReadBranch,
        &MergeReply::Error("no branch".to_string()),
    );
    assert!(matches!(after, MergeState::Failed(e) if e == "no branch"));
    let verify = MergeState::Verify {
        branch: "e/1".to_string(),
    };
    let after = merge_engineer_branch(&context, &verify, &MergeReply::Error("x".to_string()));
    assert!(matches!(
        after,
        MergeState::Failed(e) if e == "run verification before merging branch 'e/1' for 'e'"
    ));
    let after = reset_engineer_worktree(
        "e",
        "b",
        &ResetState::ReadBranch,
        &ResetReply::Error("gone".to_string()),
    );
    assert!(matches!(after, ResetState::Failed { error } if error == "gone"));
}

#[test]
fn a_repository_of_several_is_merged_like_one() {
    let mut state = RepoMergeState::ReadBranch;
    let mut commands: Vec<String> = vec![];
    let replies = vec![
        MergeReply::Branch("e/1".to_string()),
        MergeReply::Branch("main".to_string()),
        MergeReply::Git(ran(true, "", "")),
        MergeReply::Git(ran(true, "", "")),
    ];
    for reply in replies {
        if let Some(command) = repo_merge_command("/r", "/w", &state) {
            commands.push(format!("{}: {}", command.dir, command.args.join(" ")));
        }
        state = merge_engineer_branch_in_repo("/r", "/w", &state, &reply);
    }
    assert_eq!(commands, vec!["/w: rebase main", "/r: merge e/1 --no-edit"]);
    assert!(matches!(state, RepoMergeState::Finished(MergeOutcome::Success(_))));
}

#[test]
fn lock_merge_lock_acquire_release() {
    assert_eq!(merge_lock_path("/p"), "/p/.batty/merge.lock");
    assert!(matches!(acquire("/l", &LockAttempt::Created, 0), LockStep::Acquired));
}

#[test]
fn lock_merge_lock_second_acquire_waits_for_release() {
    for elapsed in [0, 600_000_000, 60_000_000_000] {
        assert!(matches!(
            acquire("/l", &LockAttempt::Exists, elapsed),
            LockStep::RetryAfterMillis(500)
        ));
    }
    assert!(matches!(
        acquire("/l", &LockAttempt::Created, 600_000_000),
        LockStep::Acquired
    ));
    assert!(matches!(
        acquire("/l", &LockAttempt::Exists, 60_000_000_001),
        LockStep::Failed(e) if e == "merge lock timeout after 60s: /l"
    ));
    assert!(matches!(
        acquire("/l", &LockAttempt::Failed("denied".to_string()), 0),
        LockStep::Failed(e) if e == "failed to acquire merge lock: denied"
    ));
}

#[test]
fn one_merge_at_a_time_holds_the_lock() {
    let mut file = false;
    let mut holders = 0;
    let attempt = |file: &mut bool, elapsed: u128| {
        let reply = if *file { LockAttempt::Exists } else { LockAttempt::Created };
        *file = true;
        matches!(acquire("/l", &reply, elapsed), LockStep::Acquired)
    };
    for release in [false, false, true, false, true] {
        if release {
            file = false;
            holders -= 1;
        }
        if attempt(&mut file, 1) {
            holders += 1;
        }
        assert_eq!(holders, 1);
    }
}
