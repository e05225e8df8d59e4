//! Rebasing an engineer's branch onto `main`, merging it, and returning the
//! worktree to its base branch.
//!
//! Each operation is a machine: its state says which request is open, and a
//! reply to that request leads to the next state. Whoever drives a machine
//! performs the request and hands the reply back.

use vstd::prelude::*;
use vstd::string::*;

use super::git_ops::{args2, args3, force_clean_worktree, GitCommand, GitCommandView, GitReply};
use crate::paths::worktree_dir;
use crate::text::{begins, chars_of, copy, ends, same, split_lines, string_of_all, trimmed};

verus! {

// ---------------------------------------------------------------------------
// Resolving rebase conflicts in managed files

/// Rounds of `git rebase --continue` that are tried at most.
pub const MAX_REBASE_ROUNDS: u32 = 20;

/// Files that the tool manages itself: `main`'s version wins.
pub open spec fn auto_resolvable(path: Seq<char>) -> bool {
    ||| path == ".cargo/config.toml"@
    ||| crate::text::ends_with(path, ".cargo/config.toml"@)
    ||| crate::text::starts_with(path, "src/team/templates/batty_"@)
}

/// Tells whether `main`'s version of `path` wins a conflict.
pub fn is_auto_resolvable(path: &str) -> (r: bool)
    ensures
        r == auto_resolvable(path@),
{
    let p: Vec<char> = chars_of(path);
    same(path, ".cargo/config.toml") || ends(&p, ".cargo/config.toml") || begins(
        &p,
        "src/team/templates/batty_",
    )
}

/// The conflicted files that git listed.
pub open spec fn conflict_list(stdout: Seq<char>) -> Seq<Seq<char>> {
    crate::text::lines(crate::text::trim(stdout))
}

/// The length of the longest prefix of `files` that is all managed.
pub open spec fn managed_prefix(files: Seq<Seq<char>>) -> nat
    decreases files.len(),
{
    if files.len() > 0 && auto_resolvable(files[0]) {
        1 + managed_prefix(files.skip(1))
    } else {
        0
    }
}

/// Where the resolution of a stopped rebase stands.
#[derive(Clone, Debug)]
pub enum ResolveState {
    /// The conflicted files of the first stop are being listed.
    List,
    /// `main`'s version of `files` is being taken. Then the rebase goes on
    /// with `rounds` rounds left, or is given up.
    Settle { first: bool, files: Vec<String>, rounds: u32, give_up: bool },
    /// The rebase is being continued; `rounds` counts this round.
    Continue { rounds: u32 },
    /// The conflicted files after a failed round are being listed.
    ListRemaining { rounds: u32 },
    /// The rebase is complete.
    Resolved,
    /// The rebase cannot be completed here.
    Unresolved,
}

/// The texts of a [`ResolveState`].
pub enum ResolveView {
    List,
    Settle { first: bool, files: Seq<Seq<char>>, rounds: u32, give_up: bool },
    Continue { rounds: u32 },
    ListRemaining { rounds: u32 },
    Resolved,
    Unresolved,
}

impl View for ResolveState {
    type V = ResolveView;

    open spec fn view(&self) -> ResolveView {
        match *self {
            ResolveState::List => ResolveView::List,
            ResolveState::Settle { first, files, rounds, give_up } => ResolveView::Settle {
                first,
                files: crate::text::views(files@),
                rounds,
                give_up,
            },
            ResolveState::Continue { rounds } => ResolveView::Continue { rounds },
            ResolveState::ListRemaining { rounds } => ResolveView::ListRemaining { rounds },
            ResolveState::Resolved => ResolveView::Resolved,
            ResolveState::Unresolved => ResolveView::Unresolved,
        }
    }
}

/// What a resolution asks for.
#[derive(Clone, Debug)]
pub enum ResolveRequest {
    /// Run one command and reply.
    Run(GitCommand),
    /// Run all commands in order, whatever each answers.
    RunAll(Vec<GitCommand>),
    /// Nothing is left to do.
    Nothing,
}

/// The next round, if one is left.
pub open spec fn next_round(rounds: u32) -> ResolveView {
    if rounds == 0 {
        ResolveView::Unresolved
    } else {
        ResolveView::Continue { rounds }
    }
}

/// What a listing of conflicted files leads to.
pub open spec fn settle_listed(first: bool, files: Seq<Seq<char>>, rounds: u32) -> ResolveView {
    let managed = managed_prefix(files);
    if files.len() == 0 {
        if first {
            ResolveView::Unresolved
        } else {
            next_round(rounds)
        }
    } else if managed == files.len() {
        ResolveView::Settle { first, files, rounds, give_up: false }
    } else if managed == 0 {
        ResolveView::Unresolved
    } else {
        ResolveView::Settle { first, files: files.take(managed as int), rounds, give_up: true }
    }
}

/// The state that follows a reply.
pub open spec fn resolve_next(state: ResolveView, reply: GitReply) -> ResolveView {
    match state {
        ResolveView::List => match reply {
            GitReply::NotRun => ResolveView::Unresolved,
            GitReply::Ran { stdout, .. } => settle_listed(
                true,
                conflict_list(stdout@),
                MAX_REBASE_ROUNDS,
            ),
        },
        ResolveView::Settle { rounds, give_up, .. } => if give_up {
            ResolveView::Unresolved
        } else {
            next_round(rounds)
        },
        ResolveView::Continue { rounds } => match reply {
            GitReply::NotRun => ResolveView::Unresolved,
            GitReply::Ran { success, .. } => if success {
                ResolveView::Resolved
            } else if rounds == 0 {
                ResolveView::Unresolved
            } else {
                ResolveView::ListRemaining { rounds: (rounds - 1) as u32 }
            },
        },
        ResolveView::ListRemaining { rounds } => match reply {
            GitReply::NotRun => ResolveView::Unresolved,
            GitReply::Ran { stdout, .. } => settle_listed(false, conflict_list(stdout@), rounds),
        },
        ResolveView::Resolved => ResolveView::Resolved,
        ResolveView::Unresolved => ResolveView::Unresolved,
    }
}

/// The files that git listed as conflicted.
fn read_conflicts(stdout: &str) -> (r: Vec<String>)
    ensures
        crate::text::views(r@) == conflict_list(stdout@),
{
    let text: Vec<char> = trimmed(&chars_of(stdout));
    let ls: Vec<Vec<char>> = split_lines(&text);
    let ghost all = crate::text::lines(text@);
    let mut out: Vec<String> = Vec::new();
    let mut i: usize = 0;
    while i < ls.len()
        invariant
            i <= ls@.len(),
            ls@.len() == all.len(),
            forall|k: int| 0 <= k < ls@.len() ==> (#[trigger] ls@[k])@ == all[k],
            crate::text::views(out@) == all.take(i as int),
        decreases ls@.len() - i,
    {
        let ghost before = out@;
        out.push(string_of_all(&ls[i]));
        assert(crate::text::views(out@) == crate::text::views(before).push(all[i as int]));
        i += 1;
        assert(all.take(i as int) == all.take(i - 1).push(all[i - 1]));
    }
    assert(all.take(i as int) == all);
    out
}

/// Decides what a listing of conflicted files leads to.
fn settle(first: bool, files: Vec<String>, rounds: u32) -> (r: ResolveState)
    ensures
        r@ == settle_listed(first, crate::text::views(files@), rounds),
{
    let ghost all = crate::text::views(files@);
    if files.len() == 0 {
        return if first || rounds == 0 {
            ResolveState::Unresolved
        } else {
            ResolveState::Continue { rounds }
        };
    }
    let mut managed: Vec<String> = Vec::new();
    let mut i: usize = 0;
    assert(all.skip(0) == all);
    while i < files.len() && is_auto_resolvable(files[i].as_str())
        invariant
            i <= files@.len(),
            all == crate::text::views(files@),
            crate::text::views(managed@) == all.take(i as int),
            managed_prefix(all) == i + managed_prefix(all.skip(i as int)),
        decreases files@.len() - i,
    {
        let ghost before = managed@;
        managed.push(files[i].clone());
        assert(crate::text::views(managed@) == crate::text::views(before).push(all[i as int]));
        assert(all.skip(i as int).skip(1) == all.skip(i + 1));
        i += 1;
        assert(all.take(i as int) == all.take(i - 1).push(all[i - 1]));
    }
    assert(managed_prefix(all) == i);
    if i == files.len() {
        assert(all.take(i as int) == all);
        ResolveState::Settle { first, files: managed, rounds, give_up: false }
    } else if i == 0 {
        ResolveState::Unresolved
    } else {
        ResolveState::Settle { first, files: managed, rounds, give_up: true }
    }
}

/// Advances the resolution of a stopped rebase by one reply.
///
/// Conflicts in managed files are settled with `main`'s version and the
/// rebase is continued, for at most twenty rounds; a conflict in any other
/// file ends the attempt.
pub fn try_auto_resolve_rebase(state: &ResolveState, reply: &GitReply) -> (r: ResolveState)
    ensures
        r@ == resolve_next(state@, *reply),
{
    match state {
        ResolveState::List => match reply {
            GitReply::NotRun => ResolveState::Unresolved,
            GitReply::Ran { stdout, .. } => settle(
                true,
                read_conflicts(stdout.as_str()),
                MAX_REBASE_ROUNDS,
            ),
        },
        ResolveState::Settle { rounds, give_up, .. } => {
            if *give_up || *rounds == 0 {
                ResolveState::Unresolved
            } else {
                ResolveState::Continue { rounds: *rounds }
            }
        },
        ResolveState::Continue { rounds } => match reply {
            GitReply::NotRun => ResolveState::Unresolved,
            GitReply::Ran { success, .. } => {
                if *success {
                    ResolveState::Resolved
                } else if *rounds == 0 {
                    ResolveState::Unresolved
                } else {
                    ResolveState::ListRemaining { rounds: *rounds - 1 }
                }
            },
        },
        ResolveState::ListRemaining { rounds } => match reply {
            GitReply::NotRun => ResolveState::Unresolved,
            GitReply::Ran { stdout, .. } => settle(
                false,
                read_conflicts(stdout.as_str()),
                *rounds,
            ),
        },
        ResolveState::Resolved => ResolveState::Resolved,
        ResolveState::Unresolved => ResolveState::Unresolved,
    }
}

/// The two commands that take `main`'s version of `file`. While commits are
/// replayed onto `main`, git calls the side of `main` "ours".
pub open spec fn take_main_commands(
    first: bool,
    dir: Seq<char>,
    file: Seq<char>,
) -> Seq<GitCommandView> {
    seq![
        GitCommandView {
            dir,
            args: seq!["checkout"@, "--ours"@, file],
            intent: if first {
                "auto-resolve conflict in "@ + file + " (accept main)"@
            } else {
                "auto-resolve "@ + file
            },
        },
        GitCommandView {
            dir,
            args: seq!["add"@, file],
            intent: if first {
                "stage auto-resolved "@ + file
            } else {
                "stage "@ + file
            },
        },
    ]
}

/// The commands that take `main`'s version of each file, in order.
pub open spec fn settle_commands(
    first: bool,
    dir: Seq<char>,
    files: Seq<Seq<char>>,
) -> Seq<GitCommandView>
    decreases files.len(),
{
    if files.len() == 0 {
        Seq::empty()
    } else {
        settle_commands(first, dir, files.drop_last()) + take_main_commands(
            first,
            dir,
            files.last(),
        )
    }
}

/// The texts of a [`ResolveRequest`].
pub enum ResolveRequestView {
    Run(GitCommandView),
    RunAll(Seq<GitCommandView>),
    Nothing,
}

impl View for ResolveRequest {
    type V = ResolveRequestView;

    open spec fn view(&self) -> ResolveRequestView {
        match *self {
            ResolveRequest::Run(c) => ResolveRequestView::Run(c@),
            ResolveRequest::RunAll(v) => ResolveRequestView::RunAll(super::git_ops::command_views(v@)),
            ResolveRequest::Nothing => ResolveRequestView::Nothing,
        }
    }
}

/// The request that is open in a state.
pub open spec fn resolve_request_spec(dir: Seq<char>, state: ResolveView) -> ResolveRequestView {
    match state {
        ResolveView::List => ResolveRequestView::Run(
            GitCommandView {
                dir,
                args: seq!["diff"@, "--name-only"@, "--diff-filter=U"@],
                intent: "list rebase conflicts"@,
            },
        ),
        ResolveView::Settle { first, files, .. } => ResolveRequestView::RunAll(
            settle_commands(first, dir, files),
        ),
        ResolveView::Continue { .. } => ResolveRequestView::Run(
            GitCommandView {
                dir,
                args: seq!["rebase"@, "--continue"@],
                intent: "continue rebase after auto-resolve"@,
            },
        ),
        ResolveView::ListRemaining { .. } => ResolveRequestView::Run(
            GitCommandView {
                dir,
                args: seq!["diff"@, "--name-only"@, "--diff-filter=U"@],
                intent: "list remaining rebase conflicts"@,
            },
        ),
        ResolveView::Resolved => ResolveRequestView::Nothing,
        ResolveView::Unresolved => ResolveRequestView::Nothing,
    }
}

/// The commands that take `main`'s version of each file.
fn take_main(first: bool, dir: &str, files: &Vec<String>) -> (r: Vec<GitCommand>)
    ensures
        super::git_ops::command_views(r@) == settle_commands(first, dir@, crate::text::views(files@)),
{
    let ghost all = crate::text::views(files@);
    let mut out: Vec<GitCommand> = Vec::new();
    let mut i: usize = 0;
    assert(super::git_ops::command_views(out@) == settle_commands(first, dir@, all.take(0)));
    while i < files.len()
        invariant
            i <= files@.len(),
            all == crate::text::views(files@),
            super::git_ops::command_views(out@) == settle_commands(first, dir@, all.take(i as int)),
        decreases files@.len() - i,
    {
        let ghost before = out@;
        let file: &str = files[i].as_str();
        let checkout_intent: String = if first {
            copy("auto-resolve conflict in ").concat(file).concat(" (accept main)")
        } else {
            copy("auto-resolve ").concat(file)
        };
        let stage_intent: String = if first {
            copy("stage auto-resolved ").concat(file)
        } else {
            copy("stage ").concat(file)
        };
        out.push(
            GitCommand {
                dir: copy(dir),
                args: args3("checkout", "--ours", file),
                intent: checkout_intent,
            },
        );
        out.push(
            GitCommand { dir: copy(dir), args: args2("add", file), intent: stage_intent },
        );
        i += 1;
        proof {
            assert(all.take(i as int).drop_last() == all.take(i - 1));
            assert(all.take(i as int).last() == file@);
            assert(super::git_ops::command_views(out@) == super::git_ops::command_views(before) + take_main_commands(
                first,
                dir@,
                file@,
            ));
        }
    }
    assert(all.take(i as int) == all);
    out
}

/// The request that is open in `state`.
pub fn resolve_request(worktree_dir: &str, state: &ResolveState) -> (r: ResolveRequest)
    ensures
        r@ == resolve_request_spec(worktree_dir@, state@),
{
    match state {
        ResolveState::List => ResolveRequest::Run(
            GitCommand {
                dir: copy(worktree_dir),
                args: args3("diff", "--name-only", "--diff-filter=U"),
                intent: copy("list rebase conflicts"),
            },
        ),
        ResolveState::Settle { first, files, .. } => ResolveRequest::RunAll(
            take_main(*first, worktree_dir, files),
        ),
        ResolveState::Continue { .. } => ResolveRequest::Run(
            GitCommand {
                dir: copy(worktree_dir),
                args: args2("rebase", "--continue"),
                intent: copy("continue rebase after auto-resolve"),
            },
        ),
        ResolveState::ListRemaining { .. } => ResolveRequest::Run(
            GitCommand {
                dir: copy(worktree_dir),
                args: args3("diff", "--name-only", "--diff-filter=U"),
                intent: copy("list remaining rebase conflicts"),
            },
        ),
        ResolveState::Resolved => ResolveRequest::Nothing,
        ResolveState::Unresolved => ResolveRequest::Nothing,
    }
}

/// A bound on the replies that a resolution still takes.
pub open spec fn resolve_measure(state: ResolveView) -> nat {
    match state {
        ResolveView::List => 3 * MAX_REBASE_ROUNDS as nat + 2,
        ResolveView::Settle { rounds, .. } => 3 * rounds as nat + 1,
        ResolveView::Continue { rounds } => 3 * rounds as nat,
        ResolveView::ListRemaining { rounds } => 3 * rounds as nat + 2,
        ResolveView::Resolved => 0,
        ResolveView::Unresolved => 0,
    }
}

/// Every reply brings an unfinished resolution nearer to its end, so no
/// sequence of replies keeps it going for ever.
pub proof fn law_resolution_ends(state: ResolveView, reply: GitReply)
    requires
        !(state is Resolved),
        !(state is Unresolved),
        state matches ResolveView::Continue { rounds } ==> rounds > 0,
    ensures
        resolve_measure(resolve_next(state, reply)) < resolve_measure(state),
        resolve_next(state, reply) matches ResolveView::Continue { rounds } ==> rounds > 0,
{
}

/// A rebase counts as resolved only when git itself finished it.
pub proof fn law_resolved_means_git_finished(state: ResolveView, reply: GitReply)
    requires
        !(state is Resolved),
        resolve_next(state, reply) is Resolved,
    ensures
        state is Continue,
        reply matches GitReply::Ran { success, .. } && success,
{
}

proof fn lemma_managed_prefix(files: Seq<Seq<char>>, k: int)
    requires
        0 <= k < managed_prefix(files),
    ensures
        k < files.len(),
        auto_resolvable(files[k]),
    decreases files.len(),
{
    if k > 0 {
        lemma_managed_prefix(files.skip(1), k - 1);
    }
}

proof fn lemma_managed_prefix_len(files: Seq<Seq<char>>)
    ensures
        managed_prefix(files) <= files.len(),
    decreases files.len(),
{
    if files.len() > 0 && auto_resolvable(files[0]) {
        lemma_managed_prefix_len(files.skip(1));
    }
}

/// `main`'s version is only ever forced on managed files.
pub proof fn law_only_managed_files_are_settled(state: ResolveView, reply: GitReply)
    requires
        !(state is Settle),
    ensures
        resolve_next(state, reply) matches ResolveView::Settle { files, .. } ==> forall|k: int|
            0 <= k < files.len() ==> auto_resolvable(#[trigger] files[k]),
{
    if let GitReply::Ran { stdout, .. } = reply {
        let listed = conflict_list(stdout@);
        lemma_managed_prefix_len(listed);
        assert forall|k: int| 0 <= k < managed_prefix(listed) implies auto_resolvable(
            #[trigger] listed[k],
        ) by {
            lemma_managed_prefix(listed, k);
        }
    }
}

// ---------------------------------------------------------------------------
// Returning a worktree to its base branch

/// Where the reset of a worktree stands.
#[derive(Clone, Debug)]
pub enum ResetState<T> {
    /// Does the worktree exist?
    Locate,
    /// Which branch is checked out?
    ReadBranch,
    /// May uncommitted changes be discarded?
    CheckSafe { previous: T },
    /// Uncommitted changes are being committed or discarded.
    Clean { previous: T },
    /// The base branch is being checked out from `main`.
    CheckoutBase { previous: T },
    /// The checked-out branch is being read back.
    Confirm { previous: T },
    /// Is the previous branch merged into `main`?
    CheckMerged { previous: T },
    /// The previous branch is being deleted.
    DeleteBranch { previous: T },
    /// Finished; `reset` tells whether the worktree was reset.
    Done { reset: bool },
    /// A question could not be answered.
    Failed { error: T },
}

/// The answer to a reset request.
#[derive(Clone, Debug)]
pub enum ResetReply<T> {
    Flag(bool),
    Branch(T),
    Finished,
    Error(T),
}

/// What a reset asks for.
#[derive(Clone, Debug)]
pub enum ResetRequest {
    /// Does this directory exist? Reply `Flag`.
    Exists(String),
    /// Which branch is checked out here? Reply `Branch`.
    CurrentBranch(String),
    /// Is it safe to discard changes here? Reply `Flag`.
    SafeToMutate(String),
    /// Commit what is uncommitted, then run the commands in order, whatever
    /// each answers. Reply `Finished`.
    CommitThenRun(String, Vec<GitCommand>),
    /// Check out the second argument from `main` in the first.
    CheckoutFromMain(String, String),
    /// Is the second argument merged into `main` in the first? Reply `Flag`.
    IsMergedIntoMain(String, String),
    /// Delete the branch named second in the repository named first.
    DeleteBranch(String, String),
    /// Nothing is left to do.
    Nothing,
}

impl ResetState<String> {
    /// The state with the texts that its strings hold.
    pub open spec fn text(self) -> ResetState<Seq<char>> {
        match self {
            ResetState::Locate => ResetState::Locate,
            ResetState::ReadBranch => ResetState::ReadBranch,
            ResetState::CheckSafe { previous } => ResetState::CheckSafe { previous: previous@ },
            ResetState::Clean { previous } => ResetState::Clean { previous: previous@ },
            ResetState::CheckoutBase { previous } => ResetState::CheckoutBase {
                previous: previous@,
            },
            ResetState::Confirm { previous } => ResetState::Confirm { previous: previous@ },
            ResetState::CheckMerged { previous } => ResetState::CheckMerged {
                previous: previous@,
            },
            ResetState::DeleteBranch { previous } => ResetState::DeleteBranch {
                previous: previous@,
            },
            ResetState::Done { reset } => ResetState::Done { reset },
            ResetState::Failed { error } => ResetState::Failed { error: error@ },
        }
    }
}

impl ResetReply<String> {
    /// The reply with the texts that its strings hold.
    pub open spec fn text(self) -> ResetReply<Seq<char>> {
        match self {
            ResetReply::Flag(b) => ResetReply::Flag(b),
            ResetReply::Branch(s) => ResetReply::Branch(s@),
            ResetReply::Finished => ResetReply::Finished,
            ResetReply::Error(e) => ResetReply::Error(e@),
        }
    }
}

/// Branches in the engineer's own namespace, other than the base branch.
pub open spec fn is_disposable_branch(
    engineer: Seq<char>,
    base_branch: Seq<char>,
    branch: Seq<char>,
) -> bool {
    &&& branch != base_branch
    &&& branch != "HEAD"@
    &&& (branch == engineer || crate::text::starts_with(branch, engineer + "/"@))
}

/// The state that follows a reply. A reply of the wrong kind changes nothing.
pub open spec fn reset_next(
    engineer: Seq<char>,
    base_branch: Seq<char>,
    state: ResetState<Seq<char>>,
    reply: ResetReply<Seq<char>>,
) -> ResetState<Seq<char>> {
    match (state, reply) {
        (ResetState::Locate, ResetReply::Flag(exists)) => if exists {
            ResetState::ReadBranch
        } else {
            ResetState::Done { reset: false }
        },
        (ResetState::ReadBranch, ResetReply::Branch(previous)) => ResetState::CheckSafe {
            previous,
        },
        (ResetState::ReadBranch, ResetReply::Error(error)) => ResetState::Failed { error },
        (ResetState::CheckSafe { previous }, ResetReply::Flag(safe)) => if safe {
            ResetState::Clean { previous }
        } else {
            ResetState::Done { reset: false }
        },
        (ResetState::CheckSafe { previous }, ResetReply::Error(error)) => ResetState::Failed {
            error,
        },
        (ResetState::Clean { previous }, ResetReply::Finished) => ResetState::CheckoutBase {
            previous,
        },
        (ResetState::CheckoutBase { previous }, ResetReply::Finished) => ResetState::Confirm {
            previous,
        },
        (ResetState::CheckoutBase { previous }, ResetReply::Error(_)) => ResetState::Done {
            reset: false,
        },
        (ResetState::Confirm { previous }, _) => if is_disposable_branch(
            engineer,
            base_branch,
            previous,
        ) {
            ResetState::CheckMerged { previous }
        } else {
            ResetState::Done { reset: true }
        },
        (ResetState::CheckMerged { previous }, ResetReply::Flag(merged)) => if merged {
            ResetState::DeleteBranch { previous }
        } else {
            ResetState::Done { reset: true }
        },
        (ResetState::CheckMerged { previous }, ResetReply::Error(error)) => ResetState::Failed {
            error,
        },
        (ResetState::DeleteBranch { previous }, _) => ResetState::Done { reset: true },
        _ => state,
    }
}

/// A copy of a reset state.
pub fn clone_reset(state: &ResetState<String>) -> (r: ResetState<String>)
    ensures
        r == *state,
{
    match state {
        ResetState::Locate => ResetState::Locate,
        ResetState::ReadBranch => ResetState::ReadBranch,
        ResetState::CheckSafe { previous } => ResetState::CheckSafe { previous: previous.clone() },
        ResetState::Clean { previous } => ResetState::Clean { previous: previous.clone() },
        ResetState::CheckoutBase { previous } => ResetState::CheckoutBase {
            previous: previous.clone(),
        },
        ResetState::Confirm { previous } => ResetState::Confirm { previous: previous.clone() },
        ResetState::CheckMerged { previous } => ResetState::CheckMerged {
            previous: previous.clone(),
        },
        ResetState::DeleteBranch { previous } => ResetState::DeleteBranch {
            previous: previous.clone(),
        },
        ResetState::Done { reset } => ResetState::Done { reset: *reset },
        ResetState::Failed { error } => ResetState::Failed { error: error.clone() },
    }
}

/// Advances the reset of an engineer's worktree by one reply.
///
/// A worktree that is missing, or that holds uncommitted work on a task
/// branch, is left alone. Otherwise the base branch is checked out from
/// `main`, and the previous branch is deleted where it lies in the engineer's
/// namespace and is merged.
pub fn reset_engineer_worktree(
    engineer: &str,
    base_branch: &str,
    state: &ResetState<String>,
    reply: &ResetReply<String>,
) -> (r: ResetState<String>)
    ensures
        r.text() == reset_next(engineer@, base_branch@, state.text(), reply.text()),
{
    match (state, reply) {
        (ResetState::Locate, ResetReply::Flag(exists)) => {
            if *exists {
                ResetState::ReadBranch
            } else {
                ResetState::Done { reset: false }
            }
        },
        (ResetState::ReadBranch, ResetReply::Branch(previous)) => ResetState::CheckSafe {
            previous: previous.clone(),
        },
        (ResetState::ReadBranch, ResetReply::Error(error)) => ResetState::Failed {
            error: error.clone(),
        },
        (ResetState::CheckSafe { previous }, ResetReply::Flag(safe)) => {
            if *safe {
                ResetState::Clean { previous: previous.clone() }
            } else {
                ResetState::Done { reset: false }
            }
        },
        (ResetState::CheckSafe { previous }, ResetReply::Error(error)) => ResetState::Failed {
            error: error.clone(),
        },
        (ResetState::Clean { previous }, ResetReply::Finished) => ResetState::CheckoutBase {
            previous: previous.clone(),
        },
        (ResetState::CheckoutBase { previous }, ResetReply::Finished) => ResetState::Confirm {
            previous: previous.clone(),
        },
        (ResetState::CheckoutBase { previous }, ResetReply::Error(_)) => ResetState::Done {
            reset: false,
        },
        (ResetState::Confirm { previous }, _) => {
            let namespace: String = copy(engineer).concat("/");
            let own: bool = same(previous.as_str(), engineer) || begins(
                &chars_of(previous.as_str()),
                namespace.as_str(),
            );
            if !same(previous.as_str(), base_branch) && !same(previous.as_str(), "HEAD") && own {
                ResetState::CheckMerged { previous: previous.clone() }
            } else {
                ResetState::Done { reset: true }
            }
        },
        (ResetState::CheckMerged { previous }, ResetReply::Flag(merged)) => {
            if *merged {
                ResetState::DeleteBranch { previous: previous.clone() }
            } else {
                ResetState::Done { reset: true }
            }
        },
        (ResetState::CheckMerged { previous }, ResetReply::Error(error)) => ResetState::Failed {
            error: error.clone(),
        },
        (ResetState::DeleteBranch { previous }, _) => ResetState::Done { reset: true },
        _ => clone_reset(state),
    }
}

/// The texts of a [`ResetRequest`].
pub enum ResetRequestView {
    Exists(Seq<char>),
    CurrentBranch(Seq<char>),
    SafeToMutate(Seq<char>),
    CommitThenRun(Seq<char>, Seq<GitCommandView>),
    CheckoutFromMain(Seq<char>, Seq<char>),
    IsMergedIntoMain(Seq<char>, Seq<char>),
    DeleteBranch(Seq<char>, Seq<char>),
    Nothing,
}

impl View for ResetRequest {
    type V = ResetRequestView;

    open spec fn view(&self) -> ResetRequestView {
        match *self {
            ResetRequest::Exists(d) => ResetRequestView::Exists(d@),
            ResetRequest::CurrentBranch(d) => ResetRequestView::CurrentBranch(d@),
            ResetRequest::SafeToMutate(d) => ResetRequestView::SafeToMutate(d@),
            ResetRequest::CommitThenRun(d, v) => ResetRequestView::CommitThenRun(
                d@,
                super::git_ops::command_views(v@),
            ),
            ResetRequest::CheckoutFromMain(d, b) => ResetRequestView::CheckoutFromMain(d@, b@),
            ResetRequest::IsMergedIntoMain(d, b) => ResetRequestView::IsMergedIntoMain(d@, b@),
            ResetRequest::DeleteBranch(d, b) => ResetRequestView::DeleteBranch(d@, b@),
            ResetRequest::Nothing => ResetRequestView::Nothing,
        }
    }
}

/// The request that is open in a state.
pub open spec fn reset_request_spec(
    project_root: Seq<char>,
    engineer: Seq<char>,
    base_branch: Seq<char>,
    state: ResetState<Seq<char>>,
) -> ResetRequestView {
    let dir = crate::paths::worktree_path(project_root, engineer);
    match state {
        ResetState::Locate => ResetRequestView::Exists(dir),
        ResetState::ReadBranch => ResetRequestView::CurrentBranch(dir),
        ResetState::CheckSafe { .. } => ResetRequestView::SafeToMutate(dir),
        ResetState::Clean { .. } => ResetRequestView::CommitThenRun(
            dir,
            seq![
                super::git_ops::reset_hard_command(dir),
                super::git_ops::clean_command(dir),
            ],
        ),
        ResetState::CheckoutBase { .. } => ResetRequestView::CheckoutFromMain(dir, base_branch),
        ResetState::Confirm { .. } => ResetRequestView::CurrentBranch(dir),
        ResetState::CheckMerged { previous } => ResetRequestView::IsMergedIntoMain(
            project_root,
            previous,
        ),
        ResetState::DeleteBranch { previous } => ResetRequestView::DeleteBranch(
            project_root,
            previous,
        ),
        ResetState::Done { .. } => ResetRequestView::Nothing,
        ResetState::Failed { .. } => ResetRequestView::Nothing,
    }
}

/// The request that is open in `state`.
pub fn reset_request(
    project_root: &str,
    engineer: &str,
    base_branch: &str,
    state: &ResetState<String>,
) -> (r: ResetRequest)
    ensures
        r@ == reset_request_spec(project_root@, engineer@, base_branch@, state.text()),
{
    let dir: String = worktree_dir(project_root, engineer);
    match state {
        ResetState::Locate => ResetRequest::Exists(dir),
        ResetState::ReadBranch => ResetRequest::CurrentBranch(dir),
        ResetState::CheckSafe { .. } => ResetRequest::SafeToMutate(dir),
        ResetState::Clean { .. } => {
            let commands: Vec<GitCommand> = force_clean_worktree(dir.as_str());
            ResetRequest::CommitThenRun(dir, commands)
        },
        ResetState::CheckoutBase { .. } => ResetRequest::CheckoutFromMain(dir, copy(base_branch)),
        ResetState::Confirm { .. } => ResetRequest::CurrentBranch(dir),
        ResetState::CheckMerged { previous } => ResetRequest::IsMergedIntoMain(
            copy(project_root),
            previous.clone(),
        ),
        ResetState::DeleteBranch { previous } => ResetRequest::DeleteBranch(
            copy(project_root),
            previous.clone(),
        ),
        ResetState::Done { .. } => ResetRequest::Nothing,
        ResetState::Failed { .. } => ResetRequest::Nothing,
    }
}

/// Changes are discarded only after the worktree was reported safe.
pub proof fn law_reset_never_discards_unsafe_work(
    engineer: Seq<char>,
    base_branch: Seq<char>,
    state: ResetState<Seq<char>>,
    reply: ResetReply<Seq<char>>,
)
    requires
        !(state is Clean),
        reset_next(engineer, base_branch, state, reply) is Clean,
    ensures
        state is CheckSafe,
        reply == ResetReply::<Seq<char>>::Flag(true),
{
}

/// Only a merged branch of the engineer's own namespace is deleted, and never
/// the base branch.
pub proof fn law_only_merged_own_branches_are_deleted(
    engineer: Seq<char>,
    base_branch: Seq<char>,
    before: ResetState<Seq<char>>,
    first: ResetReply<Seq<char>>,
    second: ResetReply<Seq<char>>,
)
    requires
        before is Confirm,
        reset_next(
            engineer,
            base_branch,
            reset_next(engineer, base_branch, before, first),
            second,
        ) is DeleteBranch,
    ensures
        is_disposable_branch(engineer, base_branch, before->Confirm_previous),
        second == ResetReply::<Seq<char>>::Flag(true),
{
}

} // verus!
