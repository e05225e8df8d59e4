//! The merge of one engineer's branch into `main`.
//!
//! `merge_engineer_branch` drives a project with a single repository and
//! `merge_engineer_branch_in_repo` one repository of several. Both are
//! machines in the sense of [`super::operations`].

use vstd::prelude::*;
use vstd::string::*;

use super::git_ops::{
    args2, args3, describe_git_failure, describe_not_run, GitCommand,
    GitCommandView, GitReply,
};
use super::lock::{MergeMode, MergeOutcome, MergeSuccess};
use super::operations::{
    clone_reset, reset_engineer_worktree, reset_request, resolve_request, try_auto_resolve_rebase, ResetReply,
    ResetRequest, ResetRequestView, ResetState, ResolveRequest, ResolveRequestView, ResolveState,
    ResolveView,
};
use crate::paths::worktree_dir;
use crate::text::{clone_strings, copy, join_strings, same, trimmed_str};

verus! {

/// Who is merged, and where.
pub struct MergeContext<'a> {
    pub project_root: &'a str,
    pub engineer: &'a str,
    /// The branch that the worktree rests on between tasks.
    pub base_branch: &'a str,
}

/// What the verification before a merge reported.
#[derive(Clone, Debug)]
pub struct VerifyReport {
    pub failed: bool,
    pub regressions: Vec<String>,
    pub report_path: Option<String>,
}

/// The answer to a merge request.
#[derive(Clone, Debug)]
pub enum MergeReply {
    Exists(bool),
    Branch(String),
    Git(GitReply),
    Verified(VerifyReport),
    Reset(ResetReply<String>),
    /// The question could not be answered.
    Error(String),
}

/// Where a merge stands. `T` is the type of texts, `R` that of a resolution.
#[derive(Clone, Debug)]
pub enum MergeState<T, R> {
    Locate,
    ReadBranch,
    ReadRootBranch { branch: T },
    CheckoutMain { branch: T, root_branch: T },
    FetchMain { branch: T },
    Rebase { branch: T },
    Resolve { branch: T, stderr: T, resolve: R },
    AbortRebase { branch: T, stderr: T },
    Verify { branch: T },
    Merge { branch: T },
    Reset { branch: T, reset: ResetState<T> },
    Finished(MergeOutcome<T>),
    Failed(T),
}

/// A merge state as it exists at run time.
pub type MergeProgress = MergeState<String, ResolveState>;

/// A merge state as contracts see it.
pub type MergeProgressView = MergeState<Seq<char>, ResolveView>;

impl MergeState<String, ResolveState> {
    /// The state with the texts that its strings hold.
    pub open spec fn text(self) -> MergeProgressView {
        match self {
            MergeState::Locate => MergeState::Locate,
            MergeState::ReadBranch => MergeState::ReadBranch,
            MergeState::ReadRootBranch { branch } => MergeState::ReadRootBranch { branch: branch@ },
            MergeState::CheckoutMain { branch, root_branch } => MergeState::CheckoutMain {
                branch: branch@,
                root_branch: root_branch@,
            },
            MergeState::FetchMain { branch } => MergeState::FetchMain { branch: branch@ },
            MergeState::Rebase { branch } => MergeState::Rebase { branch: branch@ },
            MergeState::Resolve { branch, stderr, resolve } => MergeState::Resolve {
                branch: branch@,
                stderr: stderr@,
                resolve: resolve@,
            },
            MergeState::AbortRebase { branch, stderr } => MergeState::AbortRebase {
                branch: branch@,
                stderr: stderr@,
            },
            MergeState::Verify { branch } => MergeState::Verify { branch: branch@ },
            MergeState::Merge { branch } => MergeState::Merge { branch: branch@ },
            MergeState::Reset { branch, reset } => MergeState::Reset {
                branch: branch@,
                reset: reset.text(),
            },
            MergeState::Finished(outcome) => MergeState::Finished(outcome.text()),
            MergeState::Failed(error) => MergeState::Failed(error@),
        }
    }
}

/// Why a branch is rebased.
pub open spec fn rebase_intent(branch: Seq<char>, engineer: Seq<char>) -> Seq<char> {
    "rebase engineer branch '"@ + branch + "' onto main before merging for '"@ + engineer + "'"@
}

/// Why a branch is merged.
pub open spec fn merge_intent(branch: Seq<char>, engineer: Seq<char>) -> Seq<char> {
    "merge engineer branch '"@ + branch + "' from '"@ + engineer + "' into main"@
}

fn rebase_intent_of(branch: &str, engineer: &str) -> (r: String)
    ensures
        r@ == rebase_intent(branch@, engineer@),
{
    copy("rebase engineer branch '").concat(branch).concat(
        "' onto main before merging for '",
    ).concat(engineer).concat("'")
}

fn merge_intent_of(branch: &str, engineer: &str) -> (r: String)
    ensures
        r@ == merge_intent(branch@, engineer@),
{
    copy("merge engineer branch '").concat(branch).concat("' from '").concat(engineer).concat(
        "' into main",
    )
}

/// The message for a worktree that does not exist.
pub open spec fn no_worktree_text(project_root: Seq<char>, engineer: Seq<char>) -> Seq<char> {
    "no worktree found for '"@ + engineer + "' at "@ + crate::paths::worktree_path(
        project_root,
        engineer,
    )
}

/// The message for a project root that could not be put on `main`.
pub open spec fn checkout_failed_text(root_branch: Seq<char>, stderr: Seq<char>) -> Seq<char> {
    "project root is on '"@ + root_branch + "', not 'main', and checkout failed: "@
        + crate::text::trim(stderr)
}

/// The message for a verification that found regressions.
pub open spec fn regression_text(report: VerifyReport) -> Seq<char> {
    "verification detected regressions for behavior(s): "@ + (if report.regressions@.len() == 0 {
        "unknown"@
    } else {
        crate::text::join(crate::text::views(report.regressions@), ", "@)
    }) + ". Report: "@ + (match report.report_path {
        Some(p) => p@,
        None => "(none)"@,
    })
}

/// The message for a verification that could not run.
pub open spec fn verification_error_text(branch: Seq<char>, engineer: Seq<char>) -> Seq<char> {
    "run verification before merging branch '"@ + branch + "' for '"@ + engineer + "'"@
}

/// What an advanced resolution means for the merge.
pub open spec fn after_resolve(
    branch: Seq<char>,
    stderr: Seq<char>,
    resolve: ResolveView,
) -> MergeProgressView {
    match resolve {
        ResolveView::Resolved => MergeState::Verify { branch },
        ResolveView::Unresolved => MergeState::AbortRebase { branch, stderr },
        _ => MergeState::Resolve { branch, stderr, resolve },
    }
}

/// The state that follows a reply. A reply of the wrong kind changes nothing.
pub open spec fn merge_next(
    project_root: Seq<char>,
    engineer: Seq<char>,
    base_branch: Seq<char>,
    state: MergeProgressView,
    reply: MergeReply,
) -> MergeProgressView {
    let dir = crate::paths::worktree_path(project_root, engineer);
    match (state, reply) {
        (MergeState::Locate, MergeReply::Exists(exists)) => if exists {
            MergeState::ReadBranch
        } else {
            MergeState::Failed(no_worktree_text(project_root, engineer))
        },
        (MergeState::ReadBranch, MergeReply::Branch(branch)) => MergeState::ReadRootBranch {
            branch: branch@,
        },
        (MergeState::ReadBranch, MergeReply::Error(error)) => MergeState::Failed(error@),
        (MergeState::ReadRootBranch { branch }, MergeReply::Branch(root_branch)) => if root_branch@
            == "main"@ {
            MergeState::FetchMain { branch }
        } else {
            MergeState::CheckoutMain { branch, root_branch: root_branch@ }
        },
        (MergeState::ReadRootBranch { branch }, MergeReply::Error(error)) => MergeState::Failed(
            error@,
        ),
        (MergeState::CheckoutMain { branch, root_branch }, MergeReply::Git(git)) => match git {
            GitReply::NotRun => MergeState::Failed(
                super::git_ops::not_run_text(
                    project_root,
                    seq!["checkout"@, "main"@],
                    "checkout main in project root before merge"@,
                ),
            ),
            GitReply::Ran { success, stderr, .. } => if success {
                MergeState::FetchMain { branch }
            } else {
                MergeState::Finished(
                    MergeOutcome::MergeFailure(checkout_failed_text(root_branch, stderr@)),
                )
            },
        },
        (MergeState::FetchMain { branch }, MergeReply::Git(_)) => MergeState::Rebase { branch },
        (MergeState::Rebase { branch }, MergeReply::Git(git)) => match git {
            GitReply::NotRun => MergeState::Failed(
                super::git_ops::not_run_text(dir, seq!["rebase"@, "main"@], rebase_intent(branch, engineer)),
            ),
            GitReply::Ran { success, stderr, .. } => if success {
                MergeState::Verify { branch }
            } else {
                MergeState::Resolve {
                    branch,
                    stderr: crate::text::trim(stderr@),
                    resolve: ResolveView::List,
                }
            },
        },
        (MergeState::Resolve { branch, stderr, resolve }, MergeReply::Git(git)) => after_resolve(
            branch,
            stderr,
            super::operations::resolve_next(resolve, git),
        ),
        (MergeState::AbortRebase { branch, stderr }, MergeReply::Git(_)) => MergeState::Finished(
            MergeOutcome::RebaseConflict(
                super::git_ops::failure_text(
                    dir,
                    seq!["rebase"@, "main"@],
                    rebase_intent(branch, engineer),
                    stderr,
                ),
            ),
        ),
        (MergeState::Verify { branch }, MergeReply::Verified(report)) => if report.failed {
            MergeState::Finished(MergeOutcome::MergeFailure(regression_text(report)))
        } else {
            MergeState::Merge { branch }
        },
        (MergeState::Verify { branch }, MergeReply::Error(_)) => MergeState::Failed(
            verification_error_text(branch, engineer),
        ),
        (MergeState::Merge { branch }, MergeReply::Git(git)) => match git {
            GitReply::NotRun => MergeState::Failed(
                super::git_ops::not_run_text(
                    project_root,
                    seq!["merge"@, branch, "--no-edit"@],
                    merge_intent(branch, engineer),
                ),
            ),
            GitReply::Ran { success, stderr, .. } => if success {
                MergeState::Reset { branch, reset: ResetState::Locate }
            } else {
                MergeState::Finished(
                    MergeOutcome::MergeFailure(
                        super::git_ops::failure_text(
                            project_root,
                            seq!["merge"@, branch, "--no-edit"@],
                            merge_intent(branch, engineer),
                            crate::text::trim(stderr@),
                        ),
                    ),
                )
            },
        },
        (MergeState::Reset { branch, reset }, MergeReply::Reset(answer)) => {
            let next = super::operations::reset_next(engineer, base_branch, reset, answer.text());
            match next {
                ResetState::Done { .. } => MergeState::Finished(super::lock::plain_success()),
                ResetState::Failed { .. } => MergeState::Finished(super::lock::plain_success()),
                _ => MergeState::Reset { branch, reset: next },
            }
        },
        _ => state,
    }
}

/// A copy of a resolution.
fn clone_resolve(state: &ResolveState) -> (r: ResolveState)
    ensures
        r@ == state@,
{
    match state {
        ResolveState::List => ResolveState::List,
        ResolveState::Settle { first, files, rounds, give_up } => ResolveState::Settle {
            first: *first,
            files: clone_strings(files),
            rounds: *rounds,
            give_up: *give_up,
        },
        ResolveState::Continue { rounds } => ResolveState::Continue { rounds: *rounds },
        ResolveState::ListRemaining { rounds } => ResolveState::ListRemaining { rounds: *rounds },
        ResolveState::Resolved => ResolveState::Resolved,
        ResolveState::Unresolved => ResolveState::Unresolved,
    }
}

/// A copy of an outcome.
pub fn clone_outcome(outcome: &MergeOutcome<String>) -> (r: MergeOutcome<String>)
    ensures
        r == *outcome,
{
    match outcome {
        MergeOutcome::Success(s) => MergeOutcome::Success(
            MergeSuccess {
                mode: s.mode,
                reason: match &s.reason {
                    Some(t) => Some(t.clone()),
                    None => None,
                },
            },
        ),
        MergeOutcome::RebaseConflict(s) => MergeOutcome::RebaseConflict(s.clone()),
        MergeOutcome::MergeFailure(s) => MergeOutcome::MergeFailure(s.clone()),
    }
}

/// A copy of a merge state.
fn clone_merge(state: &MergeProgress) -> (r: MergeProgress)
    ensures
        r.text() == state.text(),
{
    match state {
        MergeState::Locate => MergeState::Locate,
        MergeState::ReadBranch => MergeState::ReadBranch,
        MergeState::ReadRootBranch { branch } => MergeState::ReadRootBranch {
            branch: branch.clone(),
        },
        MergeState::CheckoutMain { branch, root_branch } => MergeState::CheckoutMain {
            branch: branch.clone(),
            root_branch: root_branch.clone(),
        },
        MergeState::FetchMain { branch } => MergeState::FetchMain { branch: branch.clone() },
        MergeState::Rebase { branch } => MergeState::Rebase { branch: branch.clone() },
        MergeState::Resolve { branch, stderr, resolve } => MergeState::Resolve {
            branch: branch.clone(),
            stderr: stderr.clone(),
            resolve: clone_resolve(resolve),
        },
        MergeState::AbortRebase { branch, stderr } => MergeState::AbortRebase {
            branch: branch.clone(),
            stderr: stderr.clone(),
        },
        MergeState::Verify { branch } => MergeState::Verify { branch: branch.clone() },
        MergeState::Merge { branch } => MergeState::Merge { branch: branch.clone() },
        MergeState::Reset { branch, reset } => MergeState::Reset {
            branch: branch.clone(),
            reset: clone_reset(reset),
        },
        MergeState::Finished(outcome) => MergeState::Finished(clone_outcome(outcome)),
        MergeState::Failed(error) => MergeState::Failed(error.clone()),
    }
}

/// A successful merge with nothing to remark.
fn succeeded() -> (r: MergeOutcome<String>)
    ensures
        r.text() == super::lock::plain_success(),
{
    MergeOutcome::Success(MergeSuccess { mode: MergeMode::DirectRoot, reason: None })
}

/// The message for a verification that found regressions.
fn describe_regressions(report: &VerifyReport) -> (r: String)
    ensures
        r@ == regression_text(*report),
{
    let regressions: String = if report.regressions.len() == 0 {
        copy("unknown")
    } else {
        join_strings(&report.regressions, ", ")
    };
    let path: String = match &report.report_path {
        Some(p) => p.clone(),
        None => copy("(none)"),
    };
    copy("verification detected regressions for behavior(s): ").concat(
        regressions.as_str(),
    ).concat(". Report: ").concat(path.as_str())
}

/// Advances the merge of an engineer's branch by one reply.
///
/// The branch is rebased onto `main`, verified, merged in the project root,
/// and the worktree is reset. A conflict that cannot be settled aborts the
/// rebase; a failed checkout, verification or merge is reported as such.
pub fn merge_engineer_branch(
    context: &MergeContext,
    state: &MergeProgress,
    reply: &MergeReply,
) -> (r: MergeProgress)
    ensures
        r.text() == merge_next(
            context.project_root@,
            context.engineer@,
            context.base_branch@,
            state.text(),
            *reply,
        ),
{
    let root: &str = context.project_root;
    let engineer: &str = context.engineer;
    match (state, reply) {
        (MergeState::Locate, MergeReply::Exists(exists)) => {
            if *exists {
                MergeState::ReadBranch
            } else {
                let dir: String = worktree_dir(root, engineer);
                MergeState::Failed(
                    copy("no worktree found for '").concat(engineer).concat("' at ").concat(
                        dir.as_str(),
                    ),
                )
            }
        },
        (MergeState::ReadBranch, MergeReply::Branch(branch)) => MergeState::ReadRootBranch {
            branch: branch.clone(),
        },
        (MergeState::ReadBranch, MergeReply::Error(error)) => MergeState::Failed(error.clone()),
        (MergeState::ReadRootBranch { branch }, MergeReply::Branch(root_branch)) => {
            if same(root_branch.as_str(), "main") {
                MergeState::FetchMain { branch: branch.clone() }
            } else {
                MergeState::CheckoutMain {
                    branch: branch.clone(),
                    root_branch: root_branch.clone(),
                }
            }
        },
        (MergeState::ReadRootBranch { branch }, MergeReply::Error(error)) => MergeState::Failed(
            error.clone(),
        ),
        (MergeState::CheckoutMain { branch, root_branch }, MergeReply::Git(git)) => match git {
            GitReply::NotRun => MergeState::Failed(
                describe_not_run(
                    root,
                    &args2("checkout", "main"),
                    "checkout main in project root before merge",
                ),
            ),
            GitReply::Ran { success, stderr, .. } => {
                if *success {
                    MergeState::FetchMain { branch: branch.clone() }
                } else {
                    MergeState::Finished(
                        MergeOutcome::MergeFailure(
                            copy("project root is on '").concat(root_branch.as_str()).concat(
                                "', not 'main', and checkout failed: ",
                            ).concat(trimmed_str(stderr.as_str()).as_str()),
                        ),
                    )
                }
            },
        },
        (MergeState::FetchMain { branch }, MergeReply::Git(_)) => MergeState::Rebase {
            branch: branch.clone(),
        },
        (MergeState::Rebase { branch }, MergeReply::Git(git)) => match git {
            GitReply::NotRun => {
                let dir: String = worktree_dir(root, engineer);
                MergeState::Failed(
                    describe_not_run(
                        dir.as_str(),
                        &args2("rebase", "main"),
                        rebase_intent_of(branch.as_str(), engineer).as_str(),
                    ),
                )
            },
            GitReply::Ran { success, stderr, .. } => {
                if *success {
                    MergeState::Verify { branch: branch.clone() }
                } else {
                    MergeState::Resolve {
                        branch: branch.clone(),
                        stderr: trimmed_str(stderr.as_str()),
                        resolve: ResolveState::List,
                    }
                }
            },
        },
        (MergeState::Resolve { branch, stderr, resolve }, MergeReply::Git(git)) => {
            let next: ResolveState = try_auto_resolve_rebase(resolve, git);
            match next {
                ResolveState::Resolved => MergeState::Verify { branch: branch.clone() },
                ResolveState::Unresolved => MergeState::AbortRebase {
                    branch: branch.clone(),
                    stderr: stderr.clone(),
                },
                _ => MergeState::Resolve {
                    branch: branch.clone(),
                    stderr: stderr.clone(),
                    resolve: next,
                },
            }
        },
        (MergeState::AbortRebase { branch, stderr }, MergeReply::Git(_)) => {
            let dir: String = worktree_dir(root, engineer);
            MergeState::Finished(
                MergeOutcome::RebaseConflict(
                    describe_git_failure(
                        dir.as_str(),
                        &args2("rebase", "main"),
                        rebase_intent_of(branch.as_str(), engineer).as_str(),
                        stderr.as_str(),
                    ),
                ),
            )
        },
        (MergeState::Verify { branch }, MergeReply::Verified(report)) => {
            if report.failed {
                MergeState::Finished(MergeOutcome::MergeFailure(describe_regressions(report)))
            } else {
                MergeState::Merge { branch: branch.clone() }
            }
        },
        (MergeState::Verify { branch }, MergeReply::Error(_)) => MergeState::Failed(
            copy("run verification before merging branch '").concat(branch.as_str()).concat(
                "' for '",
            ).concat(engineer).concat("'"),
        ),
        (MergeState::Merge { branch }, MergeReply::Git(git)) => match git {
            GitReply::NotRun => MergeState::Failed(
                describe_not_run(
                    root,
                    &args3("merge", branch.as_str(), "--no-edit"),
                    merge_intent_of(branch.as_str(), engineer).as_str(),
                ),
            ),
            GitReply::Ran { success, stderr, .. } => {
                if *success {
                    MergeState::Reset { branch: branch.clone(), reset: ResetState::Locate }
                } else {
                    MergeState::Finished(
                        MergeOutcome::MergeFailure(
                            describe_git_failure(
                                root,
                                &args3("merge", branch.as_str(), "--no-edit"),
                                merge_intent_of(branch.as_str(), engineer).as_str(),
                                trimmed_str(stderr.as_str()).as_str(),
                            ),
                        ),
                    )
                }
            },
        },
        (MergeState::Reset { branch, reset }, MergeReply::Reset(answer)) => {
            let next: ResetState<String> = reset_engineer_worktree(
                engineer,
                context.base_branch,
                reset,
                answer,
            );
            match next {
                ResetState::Done { .. } => MergeState::Finished(succeeded()),
                ResetState::Failed { .. } => MergeState::Finished(succeeded()),
                _ => MergeState::Reset { branch: branch.clone(), reset: next },
            }
        },
        _ => clone_merge(state),
    }
}

/// What a merge asks for.
#[derive(Clone, Debug)]
pub enum MergeRequest {
    /// Does this directory exist? Reply `Exists`.
    Exists(String),
    /// Which branch is checked out here? Reply `Branch`.
    CurrentBranch(String),
    /// Run one command. Reply `Git`.
    Run(GitCommand),
    /// Part of a resolution. Reply `Git`.
    Resolve(ResolveRequest),
    /// Verify the worktree (first) against the project root (second). Reply
    /// `Verified`.
    Verify(String, String),
    /// Part of the reset after a merge of this branch. Reply `Reset`.
    Reset(ResetRequest),
    /// Nothing is left to do.
    Nothing,
}

/// The texts of a [`MergeRequest`].
pub enum MergeRequestView {
    Exists(Seq<char>),
    CurrentBranch(Seq<char>),
    Run(GitCommandView),
    Resolve(ResolveRequestView),
    Verify(Seq<char>, Seq<char>),
    Reset(ResetRequestView),
    Nothing,
}

impl View for MergeRequest {
    type V = MergeRequestView;

    open spec fn view(&self) -> MergeRequestView {
        match *self {
            MergeRequest::Exists(d) => MergeRequestView::Exists(d@),
            MergeRequest::CurrentBranch(d) => MergeRequestView::CurrentBranch(d@),
            MergeRequest::Run(c) => MergeRequestView::Run(c@),
            MergeRequest::Resolve(r) => MergeRequestView::Resolve(r@),
            MergeRequest::Verify(a, b) => MergeRequestView::Verify(a@, b@),
            MergeRequest::Reset(r) => MergeRequestView::Reset(r@),
            MergeRequest::Nothing => MergeRequestView::Nothing,
        }
    }
}

/// The request that is open in a state.
pub open spec fn merge_request_spec(
    project_root: Seq<char>,
    engineer: Seq<char>,
    base_branch: Seq<char>,
    state: MergeProgressView,
) -> MergeRequestView {
    let dir = crate::paths::worktree_path(project_root, engineer);
    match state {
        MergeState::Locate => MergeRequestView::Exists(dir),
        MergeState::ReadBranch => MergeRequestView::CurrentBranch(dir),
        MergeState::ReadRootBranch { .. } => MergeRequestView::CurrentBranch(project_root),
        MergeState::CheckoutMain { .. } => MergeRequestView::Run(
            GitCommandView {
                dir: project_root,
                args: seq!["checkout"@, "main"@],
                intent: "checkout main in project root before merge"@,
            },
        ),
        MergeState::FetchMain { .. } => MergeRequestView::Run(
            GitCommandView {
                dir,
                args: seq!["fetch"@, "."@, "main:main"@],
                intent: "fetch main into worktree before rebase"@,
            },
        ),
        MergeState::Rebase { branch } => MergeRequestView::Run(
            GitCommandView {
                dir,
                args: seq!["rebase"@, "main"@],
                intent: rebase_intent(branch, engineer),
            },
        ),
        MergeState::Resolve { resolve, .. } => MergeRequestView::Resolve(
            super::operations::resolve_request_spec(dir, resolve),
        ),
        MergeState::AbortRebase { branch, .. } => MergeRequestView::Run(
            GitCommandView {
                dir,
                args: seq!["rebase"@, "--abort"@],
                intent: "abort rebase for engineer branch '"@ + branch + "' after conflict"@,
            },
        ),
        MergeState::Verify { .. } => MergeRequestView::Verify(dir, project_root),
        MergeState::Merge { branch } => MergeRequestView::Run(
            GitCommandView {
                dir: project_root,
                args: seq!["merge"@, branch, "--no-edit"@],
                intent: merge_intent(branch, engineer),
            },
        ),
        MergeState::Reset { reset, .. } => MergeRequestView::Reset(
            super::operations::reset_request_spec(project_root, engineer, base_branch, reset),
        ),
        MergeState::Finished(_) => MergeRequestView::Nothing,
        MergeState::Failed(_) => MergeRequestView::Nothing,
    }
}

/// The request that is open in `state`.
pub fn merge_request(context: &MergeContext, state: &MergeProgress) -> (r: MergeRequest)
    ensures
        r@ == merge_request_spec(
            context.project_root@,
            context.engineer@,
            context.base_branch@,
            state.text(),
        ),
{
    let root: &str = context.project_root;
    let engineer: &str = context.engineer;
    let dir: String = worktree_dir(root, engineer);
    match state {
        MergeState::Locate => MergeRequest::Exists(dir),
        MergeState::ReadBranch => MergeRequest::CurrentBranch(dir),
        MergeState::ReadRootBranch { .. } => MergeRequest::CurrentBranch(copy(root)),
        MergeState::CheckoutMain { .. } => MergeRequest::Run(
            GitCommand {
                dir: copy(root),
                args: args2("checkout", "main"),
                intent: copy("checkout main in project root before merge"),
            },
        ),
        MergeState::FetchMain { .. } => MergeRequest::Run(
            GitCommand {
                dir,
                args: args3("fetch", ".", "main:main"),
                intent: copy("fetch main into worktree before rebase"),
            },
        ),
        MergeState::Rebase { branch } => MergeRequest::Run(
            GitCommand {
                dir,
                args: args2("rebase", "main"),
                intent: rebase_intent_of(branch.as_str(), engineer),
            },
        ),
        MergeState::Resolve { resolve, .. } => MergeRequest::Resolve(
            resolve_request(dir.as_str(), resolve),
        ),
        MergeState::AbortRebase { branch, .. } => MergeRequest::Run(
            GitCommand {
                dir,
                args: args2("rebase", "--abort"),
                intent: copy("abort rebase for engineer branch '").concat(branch.as_str()).concat(
                    "' after conflict",
                ),
            },
        ),
        MergeState::Verify { .. } => MergeRequest::Verify(dir, copy(root)),
        MergeState::Merge { branch } => MergeRequest::Run(
            GitCommand {
                dir: copy(root),
                args: args3("merge", branch.as_str(), "--no-edit"),
                intent: merge_intent_of(branch.as_str(), engineer),
            },
        ),
        MergeState::Reset { reset, .. } => MergeRequest::Reset(
            reset_request(root, engineer, context.base_branch, reset),
        ),
        MergeState::Finished(_) => MergeRequest::Nothing,
        MergeState::Failed(_) => MergeRequest::Nothing,
    }
}

/// A merge only starts on a project root that is on `main`: the rebase is
/// reached only after the root reported `main`, or after a successful
/// checkout of it.
pub proof fn law_merge_lands_on_main(
    project_root: Seq<char>,
    engineer: Seq<char>,
    base_branch: Seq<char>,
    state: MergeProgressView,
    reply: MergeReply,
)
    requires
        !(state is FetchMain),
        merge_next(project_root, engineer, base_branch, state, reply) is FetchMain,
    ensures
        (state is ReadRootBranch && (reply matches MergeReply::Branch(b) && b@ == "main"@)) || (
        state is CheckoutMain && (reply matches MergeReply::Git(g) && (g matches GitReply::Ran {
            success,
            ..
        } && success))),
{
}

/// A branch is merged only after a verification that did not fail, and the
/// merge counts as a success only after git reported one.
pub proof fn law_success_needs_verification_and_merge(
    project_root: Seq<char>,
    engineer: Seq<char>,
    base_branch: Seq<char>,
    state: MergeProgressView,
    reply: MergeReply,
)
    ensures
        !(state is Merge) && merge_next(
            project_root,
            engineer,
            base_branch,
            state,
            reply,
        ) is Merge ==> state is Verify && (reply matches MergeReply::Verified(v) && !v.failed),
        !(state is Reset) && merge_next(
            project_root,
            engineer,
            base_branch,
            state,
            reply,
        ) is Reset ==> state is Merge && (reply matches MergeReply::Git(g) && (g
            matches GitReply::Ran { success, .. } && success)),
        !(state is Finished) && (merge_next(project_root, engineer, base_branch, state, reply)
            matches MergeState::Finished(o) && o is Success) ==> state is Reset,
{
}

/// A rebase conflict is reported only after the rebase was aborted.
pub proof fn law_conflict_aborts_the_rebase(
    project_root: Seq<char>,
    engineer: Seq<char>,
    base_branch: Seq<char>,
    state: MergeProgressView,
    reply: MergeReply,
)
    requires
        !(state is Finished),
        merge_next(project_root, engineer, base_branch, state, reply) matches MergeState::Finished(
            o,
        ) && o is RebaseConflict,
    ensures
        state is AbortRebase,
        merge_request_spec(project_root, engineer, base_branch, state) matches MergeRequestView::Run(
            c,
        ) && c.args == seq!["rebase"@, "--abort"@],
{
}

// ---------------------------------------------------------------------------
// One repository of several

/// Where the merge of one repository stands.
#[derive(Clone, Debug)]
pub enum RepoMergeState<T> {
    ReadBranch,
    ReadRootBranch { branch: T },
    CheckoutMain { branch: T, root_branch: T },
    Rebase { branch: T },
    AbortRebase { stderr: T },
    Merge { branch: T },
    Finished(MergeOutcome<T>),
    Failed(T),
}

impl RepoMergeState<String> {
    /// The state with the texts that its strings hold.
    pub open spec fn text(self) -> RepoMergeState<Seq<char>> {
        match self {
            RepoMergeState::ReadBranch => RepoMergeState::ReadBranch,
            RepoMergeState::ReadRootBranch { branch } => RepoMergeState::ReadRootBranch {
                branch: branch@,
            },
            RepoMergeState::CheckoutMain { branch, root_branch } => RepoMergeState::CheckoutMain {
                branch: branch@,
                root_branch: root_branch@,
            },
            RepoMergeState::Rebase { branch } => RepoMergeState::Rebase { branch: branch@ },
            RepoMergeState::AbortRebase { stderr } => RepoMergeState::AbortRebase {
                stderr: stderr@,
            },
            RepoMergeState::Merge { branch } => RepoMergeState::Merge { branch: branch@ },
            RepoMergeState::Finished(outcome) => RepoMergeState::Finished(outcome.text()),
            RepoMergeState::Failed(error) => RepoMergeState::Failed(error@),
        }
    }
}

/// The command that is open in a state, where one is.
pub open spec fn repo_command(
    repo_root: Seq<char>,
    worktree: Seq<char>,
    state: RepoMergeState<Seq<char>>,
) -> Option<GitCommandView> {
    match state {
        RepoMergeState::CheckoutMain { .. } => Some(
            GitCommandView {
                dir: repo_root,
                args: seq!["checkout"@, "main"@],
                intent: "checkout main in sub-repo before merge"@,
            },
        ),
        RepoMergeState::Rebase { branch } => Some(
            GitCommandView {
                dir: worktree,
                args: seq!["rebase"@, "main"@],
                intent: "rebase '"@ + branch + "' onto main in "@ + repo_root,
            },
        ),
        RepoMergeState::AbortRebase { .. } => Some(
            GitCommandView {
                dir: worktree,
                args: seq!["rebase"@, "--abort"@],
                intent: "abort rebase"@,
            },
        ),
        RepoMergeState::Merge { branch } => Some(
            GitCommandView {
                dir: repo_root,
                args: seq!["merge"@, branch, "--no-edit"@],
                intent: "merge '"@ + branch + "' into main in "@ + repo_root,
            },
        ),
        _ => None,
    }
}

/// The command that is open in `state`, where one is. In the two reading
/// states a branch name is asked for instead.
pub fn repo_merge_command(repo_root: &str, worktree: &str, state: &RepoMergeState<String>) -> (r:
    Option<GitCommand>)
    ensures
        r is Some == repo_command(repo_root@, worktree@, state.text()) is Some,
        r matches Some(c) ==> Some(c@) == repo_command(repo_root@, worktree@, state.text()),
{
    match state {
        RepoMergeState::CheckoutMain { .. } => Some(
            GitCommand {
                dir: copy(repo_root),
                args: args2("checkout", "main"),
                intent: copy("checkout main in sub-repo before merge"),
            },
        ),
        RepoMergeState::Rebase { branch } => Some(
            GitCommand {
                dir: copy(worktree),
                args: args2("rebase", "main"),
                intent: copy("rebase '").concat(branch.as_str()).concat("' onto main in ").concat(
                    repo_root,
                ),
            },
        ),
        RepoMergeState::AbortRebase { .. } => Some(
            GitCommand {
                dir: copy(worktree),
                args: args2("rebase", "--abort"),
                intent: copy("abort rebase"),
            },
        ),
        RepoMergeState::Merge { branch } => Some(
            GitCommand {
                dir: copy(repo_root),
                args: args3("merge", branch.as_str(), "--no-edit"),
                intent: copy("merge '").concat(branch.as_str()).concat("' into main in ").concat(
                    repo_root,
                ),
            },
        ),
        _ => None,
    }
}

/// The failure of the open command to start.
pub open spec fn repo_not_run(
    repo_root: Seq<char>,
    worktree: Seq<char>,
    state: RepoMergeState<Seq<char>>,
) -> RepoMergeState<Seq<char>> {
    match repo_command(repo_root, worktree, state) {
        Some(c) => RepoMergeState::Failed(super::git_ops::not_run_text(c.dir, c.args, c.intent)),
        None => state,
    }
}

/// The state that follows a reply. A reply of the wrong kind changes nothing.
pub open spec fn repo_merge_next(
    repo_root: Seq<char>,
    worktree: Seq<char>,
    state: RepoMergeState<Seq<char>>,
    reply: MergeReply,
) -> RepoMergeState<Seq<char>> {
    match (state, reply) {
        (RepoMergeState::ReadBranch, MergeReply::Branch(branch)) => RepoMergeState::ReadRootBranch {
            branch: branch@,
        },
        (RepoMergeState::ReadBranch, MergeReply::Error(error)) => RepoMergeState::Failed(error@),
        (
            RepoMergeState::ReadRootBranch { branch },
            MergeReply::Branch(root_branch),
        ) => if root_branch@ == "main"@ {
            RepoMergeState::Rebase { branch }
        } else {
            RepoMergeState::CheckoutMain { branch, root_branch: root_branch@ }
        },
        (RepoMergeState::ReadRootBranch { .. }, MergeReply::Error(error)) => RepoMergeState::Failed(
            error@,
        ),
        (RepoMergeState::CheckoutMain { branch, root_branch }, MergeReply::Git(git)) => match git {
            GitReply::NotRun => repo_not_run(repo_root, worktree, state),
            GitReply::Ran { success, stderr, .. } => if success {
                RepoMergeState::Rebase { branch }
            } else {
                RepoMergeState::Finished(
                    MergeOutcome::MergeFailure(
                        "sub-repo "@ + repo_root + " on '"@ + root_branch
                            + "', checkout main failed: "@ + crate::text::trim(stderr@),
                    ),
                )
            },
        },
        (RepoMergeState::Rebase { branch }, MergeReply::Git(git)) => match git {
            GitReply::NotRun => repo_not_run(repo_root, worktree, state),
            GitReply::Ran { success, stderr, .. } => if success {
                RepoMergeState::Merge { branch }
            } else {
                RepoMergeState::AbortRebase { stderr: crate::text::trim(stderr@) }
            },
        },
        (RepoMergeState::AbortRebase { stderr }, MergeReply::Git(_)) => RepoMergeState::Finished(
            MergeOutcome::RebaseConflict("rebase conflict in "@ + repo_root + ": "@ + stderr),
        ),
        (RepoMergeState::Merge { branch }, MergeReply::Git(git)) => match git {
            GitReply::NotRun => repo_not_run(repo_root, worktree, state),
            GitReply::Ran { success, stderr, .. } => if success {
                RepoMergeState::Finished(super::lock::plain_success())
            } else {
                RepoMergeState::Finished(
                    MergeOutcome::MergeFailure(
                        "merge failed in "@ + repo_root + ": "@ + crate::text::trim(stderr@),
                    ),
                )
            },
        },
        _ => state,
    }
}

/// A copy of a repository's merge state.
fn clone_repo_merge(state: &RepoMergeState<String>) -> (r: RepoMergeState<String>)
    ensures
        r == *state,
{
    match state {
        RepoMergeState::ReadBranch => RepoMergeState::ReadBranch,
        RepoMergeState::ReadRootBranch { branch } => RepoMergeState::ReadRootBranch {
            branch: branch.clone(),
        },
        RepoMergeState::CheckoutMain { branch, root_branch } => RepoMergeState::CheckoutMain {
            branch: branch.clone(),
            root_branch: root_branch.clone(),
        },
        RepoMergeState::Rebase { branch } => RepoMergeState::Rebase { branch: branch.clone() },
        RepoMergeState::AbortRebase { stderr } => RepoMergeState::AbortRebase {
            stderr: stderr.clone(),
        },
        RepoMergeState::Merge { branch } => RepoMergeState::Merge { branch: branch.clone() },
        RepoMergeState::Finished(outcome) => RepoMergeState::Finished(clone_outcome(outcome)),
        RepoMergeState::Failed(error) => RepoMergeState::Failed(error.clone()),
    }
}

/// The failure of the open command to start.
fn fail_to_run(repo_root: &str, worktree: &str, state: &RepoMergeState<String>) -> (r:
    RepoMergeState<String>)
    ensures
        r.text() == repo_not_run(repo_root@, worktree@, state.text()),
{
    match repo_merge_command(repo_root, worktree, state) {
        Some(c) => RepoMergeState::Failed(
            describe_not_run(c.dir.as_str(), &c.args, c.intent.as_str()),
        ),
        None => clone_repo_merge(state),
    }
}

/// Advances the merge of one repository's worktree branch by one reply.
pub fn merge_engineer_branch_in_repo(
    repo_root: &str,
    worktree: &str,
    state: &RepoMergeState<String>,
    reply: &MergeReply,
) -> (r: RepoMergeState<String>)
    ensures
        r.text() == repo_merge_next(repo_root@, worktree@, state.text(), *reply),
{
    match (state, reply) {
        (RepoMergeState::ReadBranch, MergeReply::Branch(branch)) => RepoMergeState::ReadRootBranch {
            branch: branch.clone(),
        },
        (RepoMergeState::ReadBranch, MergeReply::Error(error)) => RepoMergeState::Failed(
            error.clone(),
        ),
        (RepoMergeState::ReadRootBranch { branch }, MergeReply::Branch(root_branch)) => {
            if same(root_branch.as_str(), "main") {
                RepoMergeState::Rebase { branch: branch.clone() }
            } else {
                RepoMergeState::CheckoutMain {
                    branch: branch.clone(),
                    root_branch: root_branch.clone(),
                }
            }
        },
        (RepoMergeState::ReadRootBranch { .. }, MergeReply::Error(error)) => RepoMergeState::Failed(
            error.clone(),
        ),
        (RepoMergeState::CheckoutMain { branch, root_branch }, MergeReply::Git(git)) => match git {
            GitReply::NotRun => fail_to_run(repo_root, worktree, state),
            GitReply::Ran { success, stderr, .. } => {
                if *success {
                    RepoMergeState::Rebase { branch: branch.clone() }
                } else {
                    RepoMergeState::Finished(
                        MergeOutcome::MergeFailure(
                            copy("sub-repo ").concat(repo_root).concat(" on '").concat(
                                root_branch.as_str(),
                            ).concat("', checkout main failed: ").concat(
                                trimmed_str(stderr.as_str()).as_str(),
                            ),
                        ),
                    )
                }
            },
        },
        (RepoMergeState::Rebase { branch }, MergeReply::Git(git)) => match git {
            GitReply::NotRun => fail_to_run(repo_root, worktree, state),
            GitReply::Ran { success, stderr, .. } => {
                if *success {
                    RepoMergeState::Merge { branch: branch.clone() }
                } else {
                    RepoMergeState::AbortRebase { stderr: trimmed_str(stderr.as_str()) }
                }
            },
        },
        (RepoMergeState::AbortRebase { stderr }, MergeReply::Git(_)) => RepoMergeState::Finished(
            MergeOutcome::RebaseConflict(
                copy("rebase conflict in ").concat(repo_root).concat(": ").concat(stderr.as_str()),
            ),
        ),
        (RepoMergeState::Merge { branch }, MergeReply::Git(git)) => match git {
            GitReply::NotRun => fail_to_run(repo_root, worktree, state),
            GitReply::Ran { success, stderr, .. } => {
                if *success {
                    RepoMergeState::Finished(succeeded())
                } else {
                    RepoMergeState::Finished(
                        MergeOutcome::MergeFailure(
                            copy("merge failed in ").concat(repo_root).concat(": ").concat(
                                trimmed_str(stderr.as_str()).as_str(),
                            ),
                        ),
                    )
                }
            },
        },
        _ => clone_repo_merge(state),
    }
}

} // verus!
