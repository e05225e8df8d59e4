//! What the merge machines do to a repository.
//!
//! A repository is modelled by what is checked out in which directory and by
//! what each branch contains. The model says what a git command does there,
//! by its arguments and the directory that it runs in. The laws run a machine
//! against the model, whatever git answers, and state what has become of the
//! repository in the end.

use vstd::prelude::*;

use super::branch;
use super::branch::{MergeProgressView, MergeReply, MergeRequestView, MergeState, RepoMergeState, VerifyReport};
use super::git_ops::{GitCommandView, GitReply};
use super::lock::MergeOutcome;
use super::operations;
use super::operations::{
    ResetReply, ResetRequestView, ResetState, ResolveRequestView, ResolveView,
};
use crate::paths;
use crate::text;
use crate::text_laws;

verus! {

/// A repository with its checkouts.
#[verifier::ext_equal]
pub struct Repository {
    /// The branch that is checked out in a directory.
    pub head: Map<Seq<char>, Seq<char>>,
    /// The changes that a branch contains. Replaying a branch onto another
    /// keeps its changes.
    pub changes: Map<Seq<char>, Set<int>>,
    /// The branch onto which a rebase that stopped in a directory goes.
    pub onto: Map<Seq<char>, Seq<char>>,
    /// The directories in which uncommitted work was discarded.
    pub wiped: Set<Seq<char>>,
    /// The branches that were deleted.
    pub deleted: Set<Seq<char>>,
}

/// The repository once the branch in `dir` contains the changes of `from` too.
pub open spec fn with_changes(repo: Repository, dir: Seq<char>, from: Seq<char>) -> Repository {
    Repository {
        changes: repo.changes.insert(
            repo.head[dir],
            repo.changes[repo.head[dir]].union(repo.changes[from]),
        ),
        ..repo
    }
}

/// What a git command does where it runs.
pub open spec fn git_effect(repo: Repository, c: GitCommandView, success: bool) -> Repository {
    let word = c.args[0];
    if c.args.len() == 2 && word == "checkout"@ {
        if success {
            Repository { head: repo.head.insert(c.dir, c.args[1]), ..repo }
        } else {
            repo
        }
    } else if c.args.len() == 3 && word == "merge"@ && c.args[2] == "--no-edit"@ {
        if success {
            with_changes(repo, c.dir, c.args[1])
        } else {
            repo
        }
    } else if c.args.len() == 2 && word == "rebase"@ && c.args[1] == "--abort"@ {
        Repository { onto: repo.onto.remove(c.dir), ..repo }
    } else if c.args.len() == 2 && word == "rebase"@ && c.args[1] == "--continue"@ {
        if success {
            with_changes(
                Repository { onto: repo.onto.remove(c.dir), ..repo },
                c.dir,
                repo.onto[c.dir],
            )
        } else {
            repo
        }
    } else if c.args.len() == 2 && word == "rebase"@ {
        if success {
            with_changes(repo, c.dir, c.args[1])
        } else {
            Repository { onto: repo.onto.insert(c.dir, c.args[1]), ..repo }
        }
    } else if c.args.len() > 0 && (word == "reset"@ || word == "clean"@) {
        Repository { wiped: repo.wiped.insert(c.dir), ..repo }
    } else {
        repo
    }
}

/// The command was run with this reply.
pub open spec fn is_run(
    before: Repository,
    c: GitCommandView,
    reply: GitReply,
    after: Repository,
) -> bool {
    match reply {
        GitReply::NotRun => after == before,
        GitReply::Ran { success, .. } => after == git_effect(before, c, success),
    }
}

/// The commands were run in order, whatever each answered.
pub open spec fn is_run_of_all(
    before: Repository,
    commands: Seq<GitCommandView>,
    after: Repository,
) -> bool
    decreases commands.len(),
{
    if commands.len() == 0 {
        after == before
    } else {
        exists|middle: Repository, success: bool|
            is_run_of_all(before, commands.drop_last(), middle) && after == #[trigger] git_effect(
                middle,
                commands.last(),
                success,
            )
    }
}

/// The request of a reset was carried out, with this reply.
pub open spec fn is_reset_answer(
    before: Repository,
    request: ResetRequestView,
    reply: ResetReply<Seq<char>>,
    after: Repository,
) -> bool {
    match request {
        ResetRequestView::CurrentBranch(dir) => {
            &&& after == before
            &&& reply matches ResetReply::Branch(b) ==> b == before.head[dir]
        },
        ResetRequestView::CommitThenRun(dir, commands) => exists|own: Set<int>|
            {
                &&& before.changes[before.head[dir]].subset_of(own)
                &&& is_run_of_all(
                    #[trigger] committed(before, before.head[dir], own),
                    commands,
                    after,
                )
            },
        ResetRequestView::CheckoutFromMain(dir, b) => if reply is Finished {
            after == (Repository {
                head: before.head.insert(dir, b),
                changes: before.changes.insert(b, before.changes["main"@]),
                ..before
            })
        } else {
            after == before
        },
        ResetRequestView::IsMergedIntoMain(_, b) => {
            &&& after == before
            &&& reply == ResetReply::<Seq<char>>::Flag(true) ==> before.changes[b].subset_of(
                before.changes["main"@],
            )
        },
        // A branch that is checked out cannot be deleted.
        ResetRequestView::DeleteBranch(_, b) => after == before || (after == (Repository {
            deleted: before.deleted.insert(b),
            ..before
        }) && forall|d: Seq<char>| #[trigger] before.head.contains_key(d) ==> before.head[d] != b),
        _ => after == before,
    }
}

/// The repository once `branch` contains `own`.
pub open spec fn committed(repo: Repository, branch: Seq<char>, own: Set<int>) -> Repository {
    Repository { changes: repo.changes.insert(branch, own), ..repo }
}

/// The request of a merge was carried out, with this reply.
pub open spec fn is_merge_answer(
    before: Repository,
    request: MergeRequestView,
    reply: MergeReply,
    after: Repository,
) -> bool {
    match (request, reply) {
        (MergeRequestView::CurrentBranch(dir), MergeReply::Branch(b)) => {
            &&& after == before
            &&& b@ == before.head[dir]
        },
        (MergeRequestView::Run(c), MergeReply::Git(answer)) => is_run(before, c, answer, after),
        (
            MergeRequestView::Resolve(ResolveRequestView::Run(c)),
            MergeReply::Git(answer),
        ) => is_run(before, c, answer, after),
        (MergeRequestView::Resolve(ResolveRequestView::RunAll(commands)), MergeReply::Git(_)) =>
            is_run_of_all(before, commands, after),
        (MergeRequestView::Reset(r), MergeReply::Reset(answer)) => is_reset_answer(
            before,
            r,
            answer.text(),
            after,
        ),
        _ => after == before,
    }
}

proof fn lemma_words()
    ensures
        "checkout"@ != "merge"@,
        "checkout"@ != "rebase"@,
        "checkout"@ != "fetch"@,
        "checkout"@ != "diff"@,
        "checkout"@ != "add"@,
        "checkout"@ != "reset"@,
        "checkout"@ != "clean"@,
        "merge"@ != "rebase"@,
        "merge"@ != "fetch"@,
        "merge"@ != "diff"@,
        "merge"@ != "clean"@,
        "merge"@ != "reset"@,
        "rebase"@ != "add"@,
        "rebase"@ != "reset"@,
        "rebase"@ != "clean"@,
        "reset"@ != "fetch"@,
        "reset"@ != "diff"@,
        "reset"@ != "add"@,
        "reset"@ != "checkout"@,
        "reset"@ != "merge"@,
        "clean"@ != "fetch"@,
        "clean"@ != "diff"@,
        "clean"@ != "add"@,
        "main"@ != "--abort"@,
        "main"@ != "--continue"@,
        "--abort"@ != "--continue"@,
{
    reveal_strlit("checkout");
    reveal_strlit("merge");
    reveal_strlit("rebase");
    reveal_strlit("fetch");
    reveal_strlit("diff");
    reveal_strlit("add");
    reveal_strlit("reset");
    reveal_strlit("clean");
    reveal_strlit("main");
    reveal_strlit("--abort");
    reveal_strlit("--continue");
    assert("merge"@[0] == 'm' && "fetch"@[0] == 'f' && "reset"@[0] == 'r' && "clean"@[0] == 'c');
    assert("--abort"@.len() == 7 && "--continue"@.len() == 10 && "main"@.len() == 4);
    assert("diff"@.len() == 4 && "add"@.len() == 3 && "rebase"@.len() == 6);
    assert("checkout"@.len() == 8 && "clean"@.len() == 5 && "merge"@.len() == 5);
    assert("fetch"@.len() == 5 && "reset"@.len() == 5);
}

/// A worktree never is the project root.
pub proof fn law_worktree_is_not_the_root(root: Seq<char>, engineer: Seq<char>)
    requires
        engineer.len() > 0,
        engineer[0] != '/',
    ensures
        paths::worktree_path(root, engineer) != root,
        text::starts_with(paths::worktree_path(root, engineer), root),
        text::ends_with(paths::worktree_path(root, engineer), engineer),
{
    reveal_strlit(".batty");
    reveal_strlit("worktrees");
    let a = paths::join_path(root, ".batty"@);
    let b = paths::join_path(a, "worktrees"@);
    let c = paths::join_path(b, engineer);
    assert(".batty"@.len() == 6 && ".batty"@[0] == '.');
    assert("worktrees"@.len() == 9 && "worktrees"@[0] == 'w');
    assert(c == paths::worktree_path(root, engineer));
    assert(c.len() > root.len());
    assert(c.subrange(0, root.len() as int) =~= root);
    assert(c.subrange(c.len() - engineer.len(), c.len() as int) =~= engineer);
}

// ---------------------------------------------------------------------------
// Resolving conflicts

/// The commands at `2 * k` take the side of `main`, which a rebase calls
/// "ours", of the file and stage it.
pub open spec fn is_settled(
    commands: Seq<GitCommandView>,
    dir: Seq<char>,
    file: Seq<char>,
    k: int,
) -> bool {
    let taken = commands[2 * k];
    let staged = commands[2 * k + 1];
    &&& taken.dir == dir && taken.args == seq!["checkout"@, "--ours"@, file]
    &&& staged.dir == dir && staged.args == seq!["add"@, file]
}

/// Conflicts are settled with the side of `main`, file by file, and nothing
/// else is done.
pub proof fn law_conflicts_are_settled_with_main(
    first: bool,
    dir: Seq<char>,
    files: Seq<Seq<char>>,
)
    ensures
        operations::settle_commands(first, dir, files).len() == 2 * files.len(),
        forall|k: int|
            0 <= k < files.len() ==> is_settled(
                operations::settle_commands(first, dir, files),
                dir,
                #[trigger] files[k],
                k,
            ),
    decreases files.len(),
{
    if files.len() > 0 {
        let front = files.drop_last();
        law_conflicts_are_settled_with_main(first, dir, front);
        let c0 = operations::settle_commands(first, dir, front);
        let c1 = operations::settle_commands(first, dir, files);
        assert forall|k: int| 0 <= k < files.len() implies is_settled(
            c1,
            dir,
            #[trigger] files[k],
            k,
        ) by {
            if k < front.len() {
                assert(is_settled(c0, dir, front[k], k));
                assert(c1[2 * k] == c0[2 * k]);
                assert(c1[2 * k + 1] == c0[2 * k + 1]);
            }
        }
    }
}

proof fn lemma_settling_moves_nothing(
    before: Repository,
    commands: Seq<GitCommandView>,
    after: Repository,
)
    requires
        is_run_of_all(before, commands, after),
        forall|k: int|
            0 <= k < commands.len() ==> ((#[trigger] commands[k]).args.len() == 3
                && commands[k].args[0] == "checkout"@) || (commands[k].args.len() == 2
                && commands[k].args[0] == "add"@),
    ensures
        after == before,
    decreases commands.len(),
{
    lemma_words();
    if commands.len() > 0 {
        let (middle, success) = choose|middle: Repository, success: bool|
            is_run_of_all(before, commands.drop_last(), middle) && after == #[trigger] git_effect(
                middle,
                commands.last(),
                success,
            );
        assert forall|k: int| 0 <= k < commands.drop_last().len() implies ((
        #[trigger] commands.drop_last()[k]).args.len() == 3 && commands.drop_last()[k].args[0]
            == "checkout"@) || (commands.drop_last()[k].args.len() == 2
            && commands.drop_last()[k].args[0] == "add"@) by {
            assert(commands.drop_last()[k] == commands[k]);
        }
        lemma_settling_moves_nothing(before, commands.drop_last(), middle);
        assert(commands[commands.len() - 1] == commands.last());
    }
}

// ---------------------------------------------------------------------------
// Resetting a worktree

/// A reset that ran from its beginning, step by step.
pub open spec fn is_reset_run(
    root: Seq<char>,
    engineer: Seq<char>,
    base: Seq<char>,
    repos: Seq<Repository>,
    states: Seq<ResetState<Seq<char>>>,
    replies: Seq<ResetReply<Seq<char>>>,
) -> bool {
    &&& states.len() == replies.len() + 1
    &&& repos.len() == replies.len() + 1
    &&& states[0] is Locate
    &&& forall|i: int|
        0 <= i < replies.len() ==> {
            &&& #[trigger] states[i + 1] == operations::reset_next(
                engineer,
                base,
                states[i],
                replies[i],
            )
            &&& is_reset_answer(
                repos[i],
                operations::reset_request_spec(root, engineer, base, states[i]),
                replies[i],
                repos[i + 1],
            )
        }
}

/// The project root and the worktree are checked out.
pub open spec fn has_checkouts(repo: Repository, root: Seq<char>, dir: Seq<char>) -> bool {
    repo.head.contains_key(root) && repo.head.contains_key(dir)
}

/// Only the worktree changed what it has checked out and lost what was not
/// committed, and `main` lost nothing.
pub open spec fn is_kept(start: Repository, now: Repository, root: Seq<char>, dir: Seq<char>) -> bool {
    &&& has_checkouts(now, root, dir)
    &&& forall|d: Seq<char>| d != dir ==> #[trigger] now.head[d] == start.head[d]
    &&& forall|d: Seq<char>| #[trigger] now.wiped.contains(d) ==> start.wiped.contains(d) || d == dir
    &&& start.changes["main"@].subset_of(now.changes["main"@])
    &&& start.head[dir] != "main"@ ==> now.changes["main"@] == start.changes["main"@]
}

spec fn reset_invariant(
    start: Repository,
    now: Repository,
    root: Seq<char>,
    engineer: Seq<char>,
    base: Seq<char>,
    state: ResetState<Seq<char>>,
) -> bool {
    let dir = paths::worktree_path(root, engineer);
    let own = start.head[dir];
    let landed = now.head[dir] == base && now.changes[base] == now.changes["main"@];
    &&& is_kept(start, now, root, dir)
    &&& match state {
        ResetState::Locate => now == start,
        ResetState::ReadBranch => now == start,
        ResetState::CheckSafe { previous } => now == start && previous == own,
        ResetState::Clean { previous } => now.deleted == start.deleted && previous == own
            && now.head[dir] == own,
        ResetState::CheckoutBase { previous } => now.deleted == start.deleted && previous == own
            && now.head[dir] == own,
        ResetState::Confirm { previous } => now.deleted == start.deleted && previous == own
            && landed,
        ResetState::CheckMerged { previous } => now.deleted == start.deleted && previous == own
            && landed && own != base && (own == engineer || text::starts_with(
            own,
            engineer + "/"@,
        )),
        ResetState::DeleteBranch { previous } => now.deleted == start.deleted && previous == own
            && landed && own != base && (own == engineer || text::starts_with(
            own,
            engineer + "/"@,
        )) && now.changes[own].subset_of(now.changes["main"@]),
        ResetState::Done { reset } => if reset {
            landed && may_be_deleted(start, now, engineer, base, own)
        } else {
            now.deleted == start.deleted && now.head[dir] == own
        },
        ResetState::Failed { .. } => now.deleted == start.deleted,
    }
}

/// No branch is gone but, at most, the one that was checked out, and that only
/// where it is the engineer's own, not the base branch, and `main` has all of
/// it.
pub open spec fn may_be_deleted(
    start: Repository,
    now: Repository,
    engineer: Seq<char>,
    base: Seq<char>,
    own: Seq<char>,
) -> bool {
    forall|b: Seq<char>|
        #[trigger] now.deleted.contains(b) && !start.deleted.contains(b) ==> {
            &&& b == own
            &&& own != base
            &&& own == engineer || text::starts_with(own, engineer + "/"@)
            &&& now.changes[own].subset_of(now.changes["main"@])
        }
}

proof fn lemma_clean_run(
    before: Repository,
    dir: Seq<char>,
    commands: Seq<GitCommandView>,
    after: Repository,
)
    requires
        is_run_of_all(before, commands, after),
        forall|k: int|
            0 <= k < commands.len() ==> (#[trigger] commands[k]).dir == dir && (commands[k].args
                == seq!["reset"@, "--hard"@] || commands[k].args == seq![
                "clean"@,
                "-fd"@,
                "--exclude=.batty/"@,
            ]),
    ensures
        after.head == before.head,
        after.changes == before.changes,
        after.onto == before.onto,
        after.deleted == before.deleted,
        forall|d: Seq<char>| #[trigger] after.wiped.contains(d) ==> before.wiped.contains(d) || d
            == dir,
    decreases commands.len(),
{
    lemma_words();
    if commands.len() > 0 {
        let (middle, success) = choose|middle: Repository, success: bool|
            is_run_of_all(before, commands.drop_last(), middle) && after == #[trigger] git_effect(
                middle,
                commands.last(),
                success,
            );
        let front = commands.drop_last();
        assert forall|k: int| 0 <= k < front.len() implies (#[trigger] front[k]).dir == dir && (
        front[k].args == seq!["reset"@, "--hard"@] || front[k].args == seq![
            "clean"@,
            "-fd"@,
            "--exclude=.batty/"@,
        ]) by {
            assert(front[k] == commands[k]);
        }
        lemma_clean_run(before, dir, front, middle);
        assert(commands[commands.len() - 1] == commands.last());
        assert(commands.last().args[0] == "reset"@ || commands.last().args[0] == "clean"@);
    }
}

proof fn lemma_reset_step(
    start: Repository,
    before: Repository,
    after: Repository,
    root: Seq<char>,
    engineer: Seq<char>,
    base: Seq<char>,
    state: ResetState<Seq<char>>,
    reply: ResetReply<Seq<char>>,
)
    requires
        engineer.len() > 0,
        engineer[0] != '/',
        reset_invariant(start, before, root, engineer, base, state),
        is_reset_answer(
            before,
            operations::reset_request_spec(root, engineer, base, state),
            reply,
            after,
        ),
    ensures
        reset_invariant(
            start,
            after,
            root,
            engineer,
            base,
            operations::reset_next(engineer, base, state, reply),
        ),
{
    law_worktree_is_not_the_root(root, engineer);
    let dir = paths::worktree_path(root, engineer);
    let own = start.head[dir];
    match state {
        ResetState::Clean { previous } => {
            let request = operations::reset_request_spec(root, engineer, base, state);
            let commands = request->CommitThenRun_1;
            let more = choose|more: Set<int>|
                {
                    &&& before.changes[before.head[dir]].subset_of(more)
                    &&& is_run_of_all(
                        #[trigger] committed(before, before.head[dir], more),
                        commands,
                        after,
                    )
                };
            assert(request->CommitThenRun_0 == dir);
            lemma_clean_run(committed(before, before.head[dir], more), dir, commands, after);
            assert(after.head[dir] == own);
            assert(is_kept(start, after, root, dir));
        },
        ResetState::CheckoutBase { previous } => {
            if reply is Finished {
                assert(after.head[dir] == base);
                assert(after.changes["main"@] =~= before.changes["main"@]);
            }
        },
        _ => {},
    }
}

/// Whatever is answered, a reset only ever touches the engineer's worktree:
/// every other directory keeps its branch and its uncommitted work, and `main`
/// keeps its changes. A worktree that counts as reset is on its base branch,
/// which is where `main` is; one that does not is on the branch that it was
/// on. No branch is deleted but the engineer's own, and that only once `main`
/// has all of it.
pub proof fn law_reset_puts_the_worktree_on_its_base_branch(
    root: Seq<char>,
    engineer: Seq<char>,
    base: Seq<char>,
    repos: Seq<Repository>,
    states: Seq<ResetState<Seq<char>>>,
    replies: Seq<ResetReply<Seq<char>>>,
)
    requires
        engineer.len() > 0,
        engineer[0] != '/',
        is_reset_run(root, engineer, base, repos, states, replies),
        has_checkouts(repos[0], root, paths::worktree_path(root, engineer)),
    ensures
        ({
            let dir = paths::worktree_path(root, engineer);
            let start = repos[0];
            let now = repos.last();
            &&& is_kept(start, now, root, dir)
            &&& now.head[root] == start.head[root]
            &&& states.last() == (ResetState::<Seq<char>>::Done { reset: true }) ==> {
                &&& now.head[dir] == base
                &&& now.changes[base] == now.changes["main"@]
                &&& may_be_deleted(start, now, engineer, base, start.head[dir])
            }
            &&& states.last() == (ResetState::<Seq<char>>::Done { reset: false })
                ==> now.head[dir] == start.head[dir] && now.deleted == start.deleted
        }),
{
    law_worktree_is_not_the_root(root, engineer);
    lemma_reset_run(root, engineer, base, repos, states, replies, replies.len() as int);
}

proof fn lemma_reset_run(
    root: Seq<char>,
    engineer: Seq<char>,
    base: Seq<char>,
    repos: Seq<Repository>,
    states: Seq<ResetState<Seq<char>>>,
    replies: Seq<ResetReply<Seq<char>>>,
    k: int,
)
    requires
        engineer.len() > 0,
        engineer[0] != '/',
        is_reset_run(root, engineer, base, repos, states, replies),
        has_checkouts(repos[0], root, paths::worktree_path(root, engineer)),
        0 <= k <= replies.len(),
    ensures
        reset_invariant(repos[0], repos[k], root, engineer, base, states[k]),
    decreases k,
{
    if k > 0 {
        lemma_reset_run(root, engineer, base, repos, states, replies, k - 1);
        assert(states[(k - 1) + 1] == operations::reset_next(
            engineer,
            base,
            states[k - 1],
            replies[k - 1],
        ));
        lemma_reset_step(
            repos[0],
            repos[k - 1],
            repos[k],
            root,
            engineer,
            base,
            states[k - 1],
            replies[k - 1],
        );
    }
}

/// A worktree that exists and is safe is reset: with every request carried
/// out, five answers lead to the question whether the branch may go.
pub proof fn law_safe_worktree_is_reset(
    engineer: Seq<char>,
    base: Seq<char>,
    previous: Seq<char>,
    merged: bool,
    last: ResetReply<Seq<char>>,
)
    ensures
        ({
            let s1 = operations::reset_next(
                engineer,
                base,
                ResetState::Locate,
                ResetReply::Flag(true),
            );
            let s2 = operations::reset_next(engineer, base, s1, ResetReply::Branch(previous));
            let s3 = operations::reset_next(engineer, base, s2, ResetReply::Flag(true));
            let s4 = operations::reset_next(engineer, base, s3, ResetReply::Finished);
            let s5 = operations::reset_next(engineer, base, s4, ResetReply::Finished);
            let s6 = operations::reset_next(engineer, base, s5, ResetReply::Branch(base));
            let s7 = operations::reset_next(engineer, base, s6, ResetReply::Flag(merged));
            let s8 = operations::reset_next(engineer, base, s7, last);
            let own = previous != base && previous != "HEAD"@ && (previous == engineer
                || text::starts_with(previous, engineer + "/"@));
            let done = ResetState::<Seq<char>>::Done { reset: true };
            &&& own && merged ==> s7 is DeleteBranch && s8 == done
            &&& own && !merged ==> s7 == done
            &&& !own ==> s6 == done
        }),
{
}

// ---------------------------------------------------------------------------
// Merging a branch

/// A merge that ran from its beginning, step by step.
pub open spec fn is_merge_run(
    root: Seq<char>,
    engineer: Seq<char>,
    base: Seq<char>,
    repos: Seq<Repository>,
    states: Seq<MergeProgressView>,
    replies: Seq<MergeReply>,
) -> bool {
    &&& states.len() == replies.len() + 1
    &&& repos.len() == replies.len() + 1
    &&& states[0] is Locate
    &&& forall|i: int|
        0 <= i < replies.len() ==> {
            &&& #[trigger] states[i + 1] == branch::merge_next(
                root,
                engineer,
                base,
                states[i],
                replies[i],
            )
            &&& is_merge_answer(
                repos[i],
                branch::merge_request_spec(root, engineer, base, states[i]),
                replies[i],
                repos[i + 1],
            )
        }
}

/// Nothing was merged yet: the worktree is on its branch, which has lost
/// nothing, and `main` is as it was.
spec fn is_unmerged(
    start: Repository,
    now: Repository,
    root: Seq<char>,
    dir: Seq<char>,
) -> bool {
    &&& now.head[dir] == start.head[dir]
    &&& start.changes[start.head[dir]].subset_of(now.changes[start.head[dir]])
    &&& now.changes["main"@] == start.changes["main"@]
    &&& now.deleted == start.deleted
    &&& now.wiped == start.wiped
}

spec fn merge_invariant(
    start: Repository,
    now: Repository,
    root: Seq<char>,
    engineer: Seq<char>,
    state: MergeProgressView,
) -> bool {
    let dir = paths::worktree_path(root, engineer);
    let own = start.head[dir];
    let on_main = now.head[root] == "main"@;
    let open = is_unmerged(start, now, root, dir);
    let merged = on_main && start.changes[own].subset_of(now.changes["main"@])
        && start.changes["main"@].subset_of(now.changes["main"@]) && (now.deleted.contains("main"@)
        ==> start.deleted.contains("main"@)) && (forall|d: Seq<char>| #[trigger]
        now.wiped.contains(d) ==> start.wiped.contains(d) || d == dir);
    &&& has_checkouts(now, root, dir)
    &&& forall|d: Seq<char>| d != dir && d != root ==> #[trigger] now.head[d] == start.head[d]
    &&& match state {
        MergeState::Locate => open,
        MergeState::ReadBranch => open,
        MergeState::ReadRootBranch { branch } => open && branch == own,
        MergeState::CheckoutMain { branch, .. } => open && branch == own,
        MergeState::FetchMain { branch } => open && branch == own && on_main,
        MergeState::Rebase { branch } => open && branch == own && on_main,
        MergeState::Resolve { branch, .. } => open && branch == own && on_main
            && now.onto[dir] == "main"@,
        MergeState::AbortRebase { branch, .. } => open && branch == own && on_main,
        MergeState::Verify { branch } => open && branch == own && on_main,
        MergeState::Merge { branch } => open && branch == own && on_main,
        MergeState::Reset { .. } => merged,
        MergeState::Finished(outcome) => if outcome is Success {
            merged
        } else {
            open
        },
        MergeState::Failed(_) => open,
    }
}

proof fn lemma_merge_rebase_step(
    start: Repository,
    before: Repository,
    after: Repository,
    root: Seq<char>,
    engineer: Seq<char>,
    base: Seq<char>,
    state: MergeProgressView,
    reply: MergeReply,
)
    requires
        engineer.len() > 0,
        engineer[0] != '/',
        merge_invariant(start, before, root, engineer, state),
        state is Rebase || state is AbortRebase || state is FetchMain,
        is_merge_answer(
            before,
            branch::merge_request_spec(root, engineer, base, state),
            reply,
            after,
        ),
    ensures
        merge_invariant(
            start,
            after,
            root,
            engineer,
            branch::merge_next(root, engineer, base, state, reply),
        ),
{
    law_worktree_is_not_the_root(root, engineer);
    lemma_words();
    let dir = paths::worktree_path(root, engineer);
    let own = start.head[dir];
    if own == "main"@ {
        assert(before.changes["main"@].union(before.changes["main"@])
            =~= before.changes["main"@]);
    }
}

proof fn lemma_merge_resolve_step(
    start: Repository,
    before: Repository,
    after: Repository,
    root: Seq<char>,
    engineer: Seq<char>,
    base: Seq<char>,
    state: MergeProgressView,
    reply: MergeReply,
)
    requires
        engineer.len() > 0,
        engineer[0] != '/',
        merge_invariant(start, before, root, engineer, state),
        state is Resolve,
        is_merge_answer(
            before,
            branch::merge_request_spec(root, engineer, base, state),
            reply,
            after,
        ),
    ensures
        merge_invariant(
            start,
            after,
            root,
            engineer,
            branch::merge_next(root, engineer, base, state, reply),
        ),
{
    law_worktree_is_not_the_root(root, engineer);
    lemma_words();
    let dir = paths::worktree_path(root, engineer);
    let own = start.head[dir];
    if let MergeState::Resolve { resolve, .. } = state {
        match resolve {
            ResolveView::Settle { first, files, .. } => {
                if reply is Git {
                    let commands = operations::settle_commands(first, dir, files);
                    law_conflicts_are_settled_with_main(first, dir, files);
                    assert forall|k: int| 0 <= k < commands.len() implies ((
                    #[trigger] commands[k]).args.len() == 3 && commands[k].args[0]
                        == "checkout"@) || (commands[k].args.len() == 2 && commands[k].args[0]
                        == "add"@) by {
                        assert(is_settled(commands, dir, files[k / 2], k / 2));
                        if k % 2 == 0 {
                            assert(commands[2 * (k / 2)] == commands[k]);
                        } else {
                            assert(commands[2 * (k / 2) + 1] == commands[k]);
                        }
                    }
                    lemma_settling_moves_nothing(before, commands, after);
                }
            },
            ResolveView::Continue { .. } => {
                if own == "main"@ {
                    assert(before.changes["main"@].union(before.changes["main"@])
                        =~= before.changes["main"@]);
                }
            },
            _ => {},
        }
    }
}

proof fn lemma_merge_reset_step(
    start: Repository,
    before: Repository,
    after: Repository,
    root: Seq<char>,
    engineer: Seq<char>,
    base: Seq<char>,
    state: MergeProgressView,
    reply: MergeReply,
)
    requires
        engineer.len() > 0,
        engineer[0] != '/',
        merge_invariant(start, before, root, engineer, state),
        state is Reset,
        is_merge_answer(
            before,
            branch::merge_request_spec(root, engineer, base, state),
            reply,
            after,
        ),
    ensures
        merge_invariant(
            start,
            after,
            root,
            engineer,
            branch::merge_next(root, engineer, base, state, reply),
        ),
{
    law_worktree_is_not_the_root(root, engineer);
    lemma_words();
    let dir = paths::worktree_path(root, engineer);
    let own = start.head[dir];
    if let MergeState::Reset { reset, .. } = state {
        if let MergeReply::Reset(answer) = reply {
            lemma_reset_keeps_main(before, after, root, engineer, base, reset, answer.text());
        }
    }
}

proof fn lemma_merge_step(
    start: Repository,
    before: Repository,
    after: Repository,
    root: Seq<char>,
    engineer: Seq<char>,
    base: Seq<char>,
    state: MergeProgressView,
    reply: MergeReply,
)
    requires
        engineer.len() > 0,
        engineer[0] != '/',
        merge_invariant(start, before, root, engineer, state),
        is_merge_answer(
            before,
            branch::merge_request_spec(root, engineer, base, state),
            reply,
            after,
        ),
    ensures
        merge_invariant(
            start,
            after,
            root,
            engineer,
            branch::merge_next(root, engineer, base, state, reply),
        ),
{
    law_worktree_is_not_the_root(root, engineer);
    match state {
        MergeState::Rebase { .. } => lemma_merge_rebase_step(
            start,
            before,
            after,
            root,
            engineer,
            base,
            state,
            reply,
        ),
        MergeState::AbortRebase { .. } => lemma_merge_rebase_step(
            start,
            before,
            after,
            root,
            engineer,
            base,
            state,
            reply,
        ),
        MergeState::FetchMain { .. } => lemma_merge_rebase_step(
            start,
            before,
            after,
            root,
            engineer,
            base,
            state,
            reply,
        ),
        MergeState::Resolve { .. } => lemma_merge_resolve_step(
            start,
            before,
            after,
            root,
            engineer,
            base,
            state,
            reply,
        ),
        MergeState::Reset { .. } => lemma_merge_reset_step(
            start,
            before,
            after,
            root,
            engineer,
            base,
            state,
            reply,
        ),
        _ => {
            lemma_words();
        },
    }
}

/// One step of a reset leaves `main` with its changes and in its place.
proof fn lemma_reset_keeps_main(
    before: Repository,
    after: Repository,
    root: Seq<char>,
    engineer: Seq<char>,
    base: Seq<char>,
    state: ResetState<Seq<char>>,
    reply: ResetReply<Seq<char>>,
)
    requires
        engineer.len() > 0,
        engineer[0] != '/',
        has_checkouts(before, root, paths::worktree_path(root, engineer)),
        before.head[root] == "main"@,
        is_reset_answer(
            before,
            operations::reset_request_spec(root, engineer, base, state),
            reply,
            after,
        ),
    ensures
        has_checkouts(after, root, paths::worktree_path(root, engineer)),
        after.head[root] == "main"@,
        forall|d: Seq<char>|
            d != paths::worktree_path(root, engineer) ==> #[trigger] after.head[d]
                == before.head[d],
        before.changes["main"@].subset_of(after.changes["main"@]),
        after.deleted.contains("main"@) ==> before.deleted.contains("main"@),
        forall|d: Seq<char>| #[trigger]
            after.wiped.contains(d) ==> before.wiped.contains(d) || d == paths::worktree_path(
                root,
                engineer,
            ),
{
    law_worktree_is_not_the_root(root, engineer);
    let dir = paths::worktree_path(root, engineer);
    match state {
        ResetState::Clean { .. } => {
            let request = operations::reset_request_spec(root, engineer, base, state);
            let commands = request->CommitThenRun_1;
            let more = choose|more: Set<int>|
                {
                    &&& before.changes[before.head[dir]].subset_of(more)
                    &&& is_run_of_all(
                        #[trigger] committed(before, before.head[dir], more),
                        commands,
                        after,
                    )
                };
            lemma_clean_run(committed(before, before.head[dir], more), dir, commands, after);
        },
        _ => {},
    }
}

proof fn lemma_merge_run(
    root: Seq<char>,
    engineer: Seq<char>,
    base: Seq<char>,
    repos: Seq<Repository>,
    states: Seq<MergeProgressView>,
    replies: Seq<MergeReply>,
    k: int,
)
    requires
        engineer.len() > 0,
        engineer[0] != '/',
        is_merge_run(root, engineer, base, repos, states, replies),
        has_checkouts(repos[0], root, paths::worktree_path(root, engineer)),
        0 <= k <= replies.len(),
    ensures
        merge_invariant(repos[0], repos[k], root, engineer, states[k]),
    decreases k,
{
    if k > 0 {
        lemma_merge_run(root, engineer, base, repos, states, replies, k - 1);
        assert(states[(k - 1) + 1] == branch::merge_next(
            root,
            engineer,
            base,
            states[k - 1],
            replies[k - 1],
        ));
        lemma_merge_step(
            repos[0],
            repos[k - 1],
            repos[k],
            root,
            engineer,
            base,
            states[k - 1],
            replies[k - 1],
        );
    }
}

/// Whatever git answers, a merge that counts as a success has brought every
/// change of the branch in the engineer's worktree onto `main`, which has lost
/// nothing and is what the project root has checked out. A merge that does not
/// count as one has left `main` as it was. No directory but the project root
/// and the worktree has another branch afterwards, and nothing uncommitted is
/// discarded but in the worktree.
pub proof fn law_successful_merge_brings_the_branch_to_main(
    root: Seq<char>,
    engineer: Seq<char>,
    base: Seq<char>,
    repos: Seq<Repository>,
    states: Seq<MergeProgressView>,
    replies: Seq<MergeReply>,
)
    requires
        engineer.len() > 0,
        engineer[0] != '/',
        is_merge_run(root, engineer, base, repos, states, replies),
        has_checkouts(repos[0], root, paths::worktree_path(root, engineer)),
    ensures
        ({
            let dir = paths::worktree_path(root, engineer);
            let start = repos[0];
            let now = repos.last();
            let own = start.head[dir];
            &&& (states.last() matches MergeState::Finished(MergeOutcome::Success(_))) ==> {
                &&& start.changes[own].subset_of(now.changes["main"@])
                &&& start.changes["main"@].subset_of(now.changes["main"@])
                &&& now.head[root] == "main"@
                &&& now.deleted.contains("main"@) ==> start.deleted.contains("main"@)
                &&& forall|d: Seq<char>| #[trigger]
                    now.wiped.contains(d) ==> start.wiped.contains(d) || d == dir
            }
            &&& (states.last() matches MergeState::Finished(o) && !(o is Success)) || (
            states.last() is Failed) ==> {
                &&& now.changes["main"@] == start.changes["main"@]
                &&& start.changes[own].subset_of(now.changes[own])
                &&& now.head[dir] == own
                &&& now.wiped == start.wiped
                &&& now.deleted == start.deleted
            }
            &&& forall|d: Seq<char>|
                d != dir && d != root ==> #[trigger] now.head[d] == start.head[d]
        }),
{
    lemma_merge_run(root, engineer, base, repos, states, replies, replies.len() as int);
}

/// A merge goes through where everything works: the root is on `main` or can
/// be put there, the rebase succeeds, the verification does not fail and the
/// merge succeeds. Then the reset begins, and whatever comes of it the merge
/// is a success.
pub proof fn law_merge_goes_through(
    root: Seq<char>,
    engineer: Seq<char>,
    base: Seq<char>,
    own: String,
    other: String,
    ok: GitReply,
    fetched: GitReply,
    report: super::branch::VerifyReport,
    reset: ResetState<Seq<char>>,
    answer: ResetReply<String>,
)
    requires
        ok matches GitReply::Ran { success, .. } && success,
        !report.failed,
        other@ != "main"@,
    ensures
        ({
            let next = |s: MergeProgressView, r: MergeReply|
                branch::merge_next(root, engineer, base, s, r);
            let s1 = next(MergeState::Locate, MergeReply::Exists(true));
            let s2 = next(s1, MergeReply::Branch(own));
            let s3 = next(s2, MergeReply::Branch(other));
            let s4 = next(s3, MergeReply::Git(ok));
            let s5 = next(s4, MergeReply::Git(fetched));
            let s6 = next(s5, MergeReply::Git(ok));
            let s7 = next(s6, MergeReply::Verified(report));
            let s8 = next(s7, MergeReply::Git(ok));
            let ended = operations::reset_next(engineer, base, reset, answer.text());
            &&& s3 is CheckoutMain
            &&& s4 is FetchMain
            &&& s8 == (MergeProgressView::Reset { branch: own@, reset: ResetState::Locate })
            &&& ended is Done || ended is Failed ==> (next(
                MergeState::Reset { branch: own@, reset },
                MergeReply::Reset(answer),
            ) matches MergeState::Finished(MergeOutcome::Success(_)))
            &&& branch::merge_request_spec(root, engineer, base, s6) == MergeRequestView::Verify(
                paths::worktree_path(root, engineer),
                root,
            )
        }),
{
}

/// A file that the tool manages, and for which `main` therefore wins.
pub open spec fn is_managed(file: Seq<char>) -> bool {
    text::ends_with(file, ".cargo/config.toml"@) || text::starts_with(
        file,
        "src/team/templates/batty_"@,
    )
}

/// Conflicts in nothing but managed files are all settled, and the rebase goes
/// on; a conflict in any other file ends in giving up, whatever git answers.
pub proof fn law_unmanaged_conflicts_give_up(
    first: bool,
    files: Seq<Seq<char>>,
    rounds: u32,
    reply: GitReply,
)
    requires
        files.len() > 0,
        rounds > 0,
    ensures
        ({
            let settled = operations::settle_listed(first, files, rounds);
            let next = operations::resolve_next(settled, reply);
            &&& (forall|k: int| 0 <= k < files.len() ==> is_managed(#[trigger] files[k])) ==> {
                &&& settled matches ResolveView::Settle { files: all, .. } && all == files
                &&& next == (ResolveView::Continue { rounds })
            }
            &&& (exists|k: int| 0 <= k < files.len() && !is_managed(#[trigger] files[k])) ==> {
                &&& settled is Unresolved || next is Unresolved
                &&& settled matches ResolveView::Settle { files: some, .. } ==> forall|k: int|
                    0 <= k < some.len() ==> is_managed(#[trigger] some[k])
            }
        }),
{
    lemma_managed(files);
    let n = operations::managed_prefix(files) as int;
    if exists|k: int| 0 <= k < files.len() && !is_managed(#[trigger] files[k]) {
        let k = choose|k: int| 0 <= k < files.len() && !is_managed(#[trigger] files[k]);
        assert(n <= k);
    }
}

proof fn lemma_managed(files: Seq<Seq<char>>)
    ensures
        operations::managed_prefix(files) <= files.len(),
        forall|k: int|
            0 <= k < operations::managed_prefix(files) ==> is_managed(#[trigger] files[k]),
        operations::managed_prefix(files) < files.len() ==> !is_managed(
            files[operations::managed_prefix(files) as int],
        ),
    decreases files.len(),
{
    if files.len() > 0 {
        let whole = ".cargo/config.toml"@;
        assert(whole.subrange(0, whole.len() as int) =~= whole);
        assert(is_managed(files[0]) == operations::auto_resolvable(files[0]));
        if is_managed(files[0]) {
            let rest = files.skip(1);
            lemma_managed(rest);
            assert forall|k: int| 0 <= k < operations::managed_prefix(files) implies is_managed(
                #[trigger] files[k],
            ) by {
                if k > 0 {
                    assert(files[k] == rest[k - 1]);
                }
            }
        }
    }
}

// ---------------------------------------------------------------------------
// Merging one repository of several

/// The request of a repository's merge was carried out, with this reply.
pub open spec fn is_repo_answer(
    root: Seq<char>,
    dir: Seq<char>,
    before: Repository,
    state: RepoMergeState<Seq<char>>,
    reply: MergeReply,
    after: Repository,
) -> bool {
    match (state, reply) {
        (RepoMergeState::ReadBranch, MergeReply::Branch(b)) => after == before && b@
            == before.head[dir],
        (RepoMergeState::ReadRootBranch { .. }, MergeReply::Branch(b)) => after == before && b@
            == before.head[root],
        (_, MergeReply::Git(answer)) => match branch::repo_command(root, dir, state) {
            Some(c) => is_run(before, c, answer, after),
            None => after == before,
        },
        _ => after == before,
    }
}

/// A repository's merge that ran from its beginning, step by step.
pub open spec fn is_repo_run(
    root: Seq<char>,
    dir: Seq<char>,
    repos: Seq<Repository>,
    states: Seq<RepoMergeState<Seq<char>>>,
    replies: Seq<MergeReply>,
) -> bool {
    &&& states.len() == replies.len() + 1
    &&& repos.len() == replies.len() + 1
    &&& states[0] is ReadBranch
    &&& forall|i: int|
        0 <= i < replies.len() ==> {
            &&& #[trigger] states[i + 1] == branch::repo_merge_next(
                root,
                dir,
                states[i],
                replies[i],
            )
            &&& is_repo_answer(root, dir, repos[i], states[i], replies[i], repos[i + 1])
        }
}

spec fn repo_invariant(
    start: Repository,
    now: Repository,
    root: Seq<char>,
    dir: Seq<char>,
    state: RepoMergeState<Seq<char>>,
) -> bool {
    let own = start.head[dir];
    let open = is_unmerged(start, now, root, dir);
    let on_main = now.head[root] == "main"@;
    &&& forall|d: Seq<char>| d != root ==> #[trigger] now.head[d] == start.head[d]
    &&& now.wiped == start.wiped && now.deleted == start.deleted
    &&& match state {
        RepoMergeState::ReadBranch => open,
        RepoMergeState::ReadRootBranch { branch } => open && branch == own,
        RepoMergeState::CheckoutMain { branch, .. } => open && branch == own,
        RepoMergeState::Rebase { branch } => open && branch == own && on_main,
        RepoMergeState::AbortRebase { .. } => open,
        RepoMergeState::Merge { branch } => open && branch == own && on_main,
        RepoMergeState::Finished(outcome) => if outcome is Success {
            on_main && start.changes[own].subset_of(now.changes["main"@])
                && start.changes["main"@].subset_of(now.changes["main"@])
        } else {
            open
        },
        RepoMergeState::Failed(_) => open,
    }
}

proof fn lemma_repo_step(
    start: Repository,
    before: Repository,
    after: Repository,
    root: Seq<char>,
    dir: Seq<char>,
    state: RepoMergeState<Seq<char>>,
    reply: MergeReply,
)
    requires
        root != dir,
        repo_invariant(start, before, root, dir, state),
        is_repo_answer(root, dir, before, state, reply, after),
    ensures
        repo_invariant(
            start,
            after,
            root,
            dir,
            branch::repo_merge_next(root, dir, state, reply),
        ),
{
    lemma_words();
    assert(before.changes["main"@].union(before.changes["main"@]) =~= before.changes["main"@]);
}

proof fn lemma_repo_run(
    root: Seq<char>,
    dir: Seq<char>,
    repos: Seq<Repository>,
    states: Seq<RepoMergeState<Seq<char>>>,
    replies: Seq<MergeReply>,
    k: int,
)
    requires
        root != dir,
        is_repo_run(root, dir, repos, states, replies),
        0 <= k <= replies.len(),
    ensures
        repo_invariant(repos[0], repos[k], root, dir, states[k]),
    decreases k,
{
    if k > 0 {
        lemma_repo_run(root, dir, repos, states, replies, k - 1);
        assert(states[(k - 1) + 1] == branch::repo_merge_next(
            root,
            dir,
            states[k - 1],
            replies[k - 1],
        ));
        lemma_repo_step(repos[0], repos[k - 1], repos[k], root, dir, states[k - 1], replies[k - 1]);
    }
}

/// The same holds of one repository of several: a success means that `main`
/// has every change of the branch in the worktree and has lost nothing; any
/// other end means that `main` is as it was.
pub proof fn law_successful_repo_merge_brings_the_branch_to_main(
    root: Seq<char>,
    dir: Seq<char>,
    repos: Seq<Repository>,
    states: Seq<RepoMergeState<Seq<char>>>,
    replies: Seq<MergeReply>,
)
    requires
        root != dir,
        is_repo_run(root, dir, repos, states, replies),
    ensures
        ({
            let start = repos[0];
            let now = repos.last();
            let own = start.head[dir];
            &&& (states.last() matches RepoMergeState::Finished(MergeOutcome::Success(_))) ==> {
                &&& start.changes[own].subset_of(now.changes["main"@])
                &&& start.changes["main"@].subset_of(now.changes["main"@])
                &&& now.head[root] == "main"@
            }
            &&& (states.last() matches RepoMergeState::Finished(o) && !(o is Success)) || (
            states.last() is Failed) ==> now.changes["main"@] == start.changes["main"@]
            &&& forall|d: Seq<char>| d != root ==> #[trigger] now.head[d] == start.head[d]
            &&& now.wiped == start.wiped && now.deleted == start.deleted
        }),
{
    lemma_repo_run(root, dir, repos, states, replies, replies.len() as int);
}

/// A repository's merge goes through where everything works.
pub proof fn law_repo_merge_goes_through(
    root: Seq<char>,
    dir: Seq<char>,
    own: String,
    on_main: String,
    ok: GitReply,
)
    requires
        ok matches GitReply::Ran { success, .. } && success,
        on_main@ == "main"@,
    ensures
        ({
            let next = |s: RepoMergeState<Seq<char>>, r: MergeReply|
                branch::repo_merge_next(root, dir, s, r);
            let s1 = next(RepoMergeState::ReadBranch, MergeReply::Branch(own));
            let s2 = next(s1, MergeReply::Branch(on_main));
            let s3 = next(s2, MergeReply::Git(ok));
            let s4 = next(s3, MergeReply::Git(ok));
            s4 matches RepoMergeState::Finished(MergeOutcome::Success(_))
        }),
{
}

/// A failed rebase that left no conflicts is given up at once, and so is one of
/// which git cannot list the conflicts or cannot be continued. Later, when no
/// conflict is left, the rebase goes on, as long as there are rounds left.
pub proof fn law_rebase_without_conflicts_is_given_up(reply: GitReply, rounds: u32)
    ensures
        (reply matches GitReply::Ran { stdout, .. } && text_laws::is_blank(stdout@)) ==> {
            &&& operations::resolve_next(ResolveView::List, reply) is Unresolved
            &&& rounds > 0 ==> operations::resolve_next(
                ResolveView::ListRemaining { rounds },
                reply,
            ) == (ResolveView::Continue { rounds })
            &&& rounds == 0 ==> operations::resolve_next(
                ResolveView::ListRemaining { rounds },
                reply,
            ) is Unresolved
        },
        reply is NotRun ==> operations::resolve_next(ResolveView::List, reply) is Unresolved
            && operations::resolve_next(ResolveView::ListRemaining { rounds }, reply) is Unresolved
            && operations::resolve_next(ResolveView::Continue { rounds }, reply) is Unresolved,
        operations::resolve_next(ResolveView::List, reply) matches ResolveView::Settle {
            rounds: first,
            ..
        } ==> first == 20,
        (reply matches GitReply::Ran { success, .. } && success) ==> operations::resolve_next(
            ResolveView::Continue { rounds },
            reply,
        ) is Resolved,
        (reply matches GitReply::Ran { success, .. } && !success && rounds > 0)
            ==> operations::resolve_next(ResolveView::Continue { rounds }, reply) == (
        ResolveView::ListRemaining { rounds: (rounds - 1) as u32 }),
{
    if reply is Ran && text_laws::is_blank(reply->stdout@) {
        let none = Seq::<char>::empty();
        let out = reply->stdout@;
        text_laws::law_trimming_takes_white_space(out, none, none, ' ');
        assert(out + none + none =~= out);
        assert(text::lines(none) =~= Seq::<Seq<char>>::empty());
    }
}

/// A merge that verification stopped is reported with the behaviors that broke,
/// as far as they are known, and with the report, where there is one.
pub proof fn law_regressions_are_told(report: VerifyReport)
    ensures
        ({
            let t = branch::regression_text(report);
            let names = text::join(text::views(report.regressions@), ", "@);
            let head = "verification detected regressions for behavior(s): "@;
            &&& report.regressions@.len() > 0 ==> text::starts_with(t, head + names)
            &&& report.regressions@.len() == 0 ==> text::starts_with(t, head + "unknown"@)
            &&& report.report_path matches Some(p) ==> text::ends_with(t, ". Report: "@ + p@)
        }),
{
    let t = branch::regression_text(report);
    let head = "verification detected regressions for behavior(s): "@;
    let what = if report.regressions@.len() == 0 {
        "unknown"@
    } else {
        text::join(text::views(report.regressions@), ", "@)
    };
    let place = match report.report_path {
        Some(p) => p@,
        None => "(none)"@,
    };
    let last = ". Report: "@ + place;
    assert(t =~= head + what + last);
    text_laws::lemma_holds(Seq::empty(), head + what, last);
    text_laws::lemma_holds(head + what, last, Seq::empty());
}

} // verus!
