//! What is read from git, and what becomes of files outside a task's scope.

use vstd::prelude::*;

use super::git_ops;
use super::git_ops::{GitCommandView, GitReply};
use super::multi_repo;
use super::multi_repo::{MultiMergeState, SubRepo, TimingRecord};
use super::scope;
use super::scope::RevertState;
use crate::digits;
use crate::paths;
use crate::team::ClaudeNames;
use crate::text;
use crate::text_laws;

verus! {

// ---------------------------------------------------------------------------
// Reading git

/// The digits of a number have its value.
pub proof fn lemma_value_of_decimal(n: nat)
    ensures
        git_ops::digits_value(text::decimal(n)) == n,
    decreases n,
{
    let d = text::decimal(n);
    if n < 10 {
        assert(d.drop_last() =~= Seq::<char>::empty());
        assert(git_ops::digits_value(Seq::empty()) == 0);
        assert(d.last() as nat == n + 48);
    } else {
        lemma_value_of_decimal(n / 10);
        assert(d.drop_last() =~= text::decimal(n / 10));
        assert(d.last() as nat == (n % 10) + 48);
    }
}

/// The number of commits is what git printed, whatever white space is around
/// it; where git failed or could not be run, it is unknown.
pub proof fn law_commit_counts_are_read(dir: Seq<char>, n: u32, reply: GitReply)
    ensures
        (reply matches GitReply::Ran { success, stdout, .. } && success && text::trim(stdout@)
            == text::decimal(n as nat)) ==> git_ops::commits_ahead_spec(dir, reply) == Ok::<
            u32,
            Seq<char>,
        >(n),
        reply is NotRun ==> git_ops::commits_ahead_spec(dir, reply) is Err,
        (reply matches GitReply::Ran { success, .. } && !success) ==> git_ops::commits_ahead_spec(
            dir,
            reply,
        ) is Err,
{
    let d = text::decimal(n as nat);
    digits::lemma_decimal_digits(n as nat);
    lemma_value_of_decimal(n as nat);
    assert(text::is_digit(d[0]));
    assert(git_ops::without_plus(d) == d);
}

/// The message about a git command that failed says what it was for, where it
/// ran and what git said.
pub proof fn law_git_failures_are_described(
    dir: Seq<char>,
    args: Seq<Seq<char>>,
    intent: Seq<char>,
    stderr: Seq<char>,
)
    ensures
        text::contains(git_ops::failure_text(dir, args, intent, stderr), intent),
        text::contains(git_ops::failure_text(dir, args, intent, stderr), dir),
        text::ends_with(
            git_ops::failure_text(dir, args, intent, stderr),
            " returned: "@ + text::trim(stderr),
        ),
        text::contains(git_ops::not_run_text(dir, args, intent), intent),
        text::ends_with(git_ops::not_run_text(dir, args, intent), dir),
{
    let t = git_ops::failure_text(dir, args, intent, stderr);
    let head = "failed while trying to "@;
    assert(t.subrange(head.len() as int, (head.len() + intent.len()) as int) =~= intent);
    assert(text::matches_at(t, intent, head.len() as int));
    let before = head + intent + ": `"@ + git_ops::command_line(args) + "` in "@;
    assert(t.subrange(before.len() as int, (before.len() + dir.len()) as int) =~= dir);
    assert(text::matches_at(t, dir, before.len() as int));
    let last = " returned: "@ + text::trim(stderr);
    assert(t.subrange(t.len() - last.len(), t.len() as int) =~= last);
    let u = git_ops::not_run_text(dir, args, intent);
    assert(u.subrange(head.len() as int, (head.len() + intent.len()) as int) =~= intent);
    assert(text::matches_at(u, intent, head.len() as int));
    assert(u.subrange(u.len() - dir.len(), u.len() as int) =~= dir);
}

/// What the tool, the agents and builds leave behind is no change, and what is
/// written for people or drawn is no code: a changed path counts by where it
/// lies, what it is called and what it ends in.
pub proof fn law_changed_files_are_told_apart(names: ClaudeNames, ps: Seq<Seq<char>>, p: Seq<char>)
    requires
        ps.contains(p),
    ensures
        ({
            let top = paths::first_component(p);
            let name = paths::file_name(p);
            let noise = top == ".batty"@ || top == ".batty-target"@ || top == ".agents"@ || top
                == names.home@ || top == "target"@ || name == Some("AGENTS.md"@) || name == Some(
                names.guide@,
            );
            let kind = paths::extension(p);
            let prose = name == Some("README"@) || name == Some("README.md"@) || name == Some(
                "CHANGELOG.md"@,
            ) || name == Some("LICENSE"@) || name == Some("LICENSE.md"@) || top == "docs"@ || top
                == "planning"@ || top == "assets"@ || kind == Some("md"@) || kind == Some(
                "markdown"@,
            ) || kind == Some("rst"@) || kind == Some("adoc"@) || kind == Some("png"@) || kind
                == Some("jpg"@) || kind == Some("jpeg"@) || kind == Some("gif"@) || kind == Some(
                "svg"@,
            ) || kind == Some("webp"@) || kind == Some("bmp"@) || kind == Some("ico"@) || kind
                == Some("pdf"@);
            &&& git_ops::evidence(names, ps).contains(p) <==> !noise
            &&& git_ops::code(git_ops::evidence(names, ps)).contains(p) <==> !noise && !prose
        }),
{
    git_ops::law_code_files_are_files(names, ps);
    let keep = |q: Seq<char>| !git_ops::noise_path(names, q);
    git_ops::lemma_kept(ps, keep);
    assert(git_ops::evidence(names, ps) == ps.filter(keep));
    assert(git_ops::evidence(names, ps).contains(p) <==> keep(p));
}

// ---------------------------------------------------------------------------
// Files outside the scope

/// The versions of the files in a worktree and on `main`.
#[verifier::ext_equal]
pub struct Files {
    pub tree: Map<Seq<char>, int>,
    pub main: Map<Seq<char>, int>,
}

/// What a command does to the files of the worktree at `dir`.
pub open spec fn file_effect(files: Files, dir: Seq<char>, c: GitCommandView) -> Files {
    if c.dir != dir {
        files
    } else if c.args.len() == 4 && c.args[0] == "checkout"@ && c.args[1] == "main"@ && c.args[2]
        == "--"@ {
        Files { tree: files.tree.insert(c.args[3], files.main[c.args[3]]), ..files }
    } else if c.args.len() == 5 && c.args[0] == "rm"@ && c.args[1] == "-f"@ && c.args[3] == "--"@ {
        Files { tree: files.tree.remove(c.args[4]), ..files }
    } else {
        files
    }
}

/// The command that is open was run and succeeded, and git listed the file
/// exactly where `main` has it.
pub open spec fn is_revert_answer(
    dir: Seq<char>,
    outside: Seq<Seq<char>>,
    before: Files,
    state: RevertState<Seq<char>>,
    reply: GitReply,
    after: Files,
) -> bool {
    match scope::revert_command(dir, outside, state) {
        Some(c) => {
            &&& after == file_effect(before, dir, c)
            &&& state matches RevertState::Check { at } ==> (reply matches GitReply::Ran {
                success,
                stdout,
                ..
            } && success && (text::trim(stdout@).len() > 0 <==> before.main.contains_key(
                outside[at as int],
            )))
        },
        None => after == before,
    }
}

/// A recovery that ran from its beginning, step by step.
pub open spec fn is_revert_run(
    dir: Seq<char>,
    outside: Seq<Seq<char>>,
    files: Seq<Files>,
    states: Seq<RevertState<Seq<char>>>,
    replies: Seq<GitReply>,
) -> bool {
    &&& states.len() == replies.len() + 1
    &&& files.len() == replies.len() + 1
    &&& states[0] == (RevertState::<Seq<char>>::Check { at: 0 })
    &&& forall|i: int|
        0 <= i < replies.len() ==> {
            &&& #[trigger] states[i + 1] == scope::revert_next(
                dir,
                outside,
                states[i],
                replies[i],
            )
            &&& is_revert_answer(dir, outside, files[i], states[i], replies[i], files[i + 1])
        }
}

/// The worktree has the file as `main` has it, or neither has it.
pub open spec fn is_as_on_main(files: Files, f: Seq<char>) -> bool {
    &&& files.tree.contains_key(f) <==> files.main.contains_key(f)
    &&& files.main.contains_key(f) ==> files.tree[f] == files.main[f]
}

spec fn revert_invariant(
    start: Files,
    now: Files,
    outside: Seq<Seq<char>>,
    state: RevertState<Seq<char>>,
) -> bool {
    let done = match state {
        RevertState::Check { at } => at as int,
        RevertState::Restore { at, .. } => at as int,
        RevertState::Failed(_) => 0,
        _ => outside.len() as int,
    };
    &&& now.main == start.main
    &&& state matches RevertState::Check { at } ==> at < outside.len()
    &&& state matches RevertState::Restore { at, on_main } ==> at < outside.len() && on_main
        == start.main.contains_key(outside[at as int])
    &&& forall|k: int| 0 <= k < done ==> is_as_on_main(now, #[trigger] outside[k])
    &&& forall|f: Seq<char>|
        !outside.contains(f) ==> (#[trigger] now.tree.contains_key(f) == start.tree.contains_key(f)
            && (start.tree.contains_key(f) ==> now.tree[f] == start.tree[f]))
}

proof fn lemma_revert_step(
    start: Files,
    before: Files,
    after: Files,
    dir: Seq<char>,
    outside: Seq<Seq<char>>,
    state: RevertState<Seq<char>>,
    reply: GitReply,
)
    requires
        outside.len() <= usize::MAX,
        revert_invariant(start, before, outside, state),
        is_revert_answer(dir, outside, before, state, reply, after),
    ensures
        revert_invariant(
            start,
            after,
            outside,
            scope::revert_next(dir, outside, state, reply),
        ),
{
    reveal_strlit("checkout");
    reveal_strlit("rm");
    reveal_strlit("commit");
    assert("checkout"@.len() == 8 && "rm"@.len() == 2 && "commit"@.len() == 6);
    match state {
        RevertState::Restore { at, on_main } => {
            let f = outside[at as int];
            assert(outside.contains(f));
            assert(is_as_on_main(after, f));
            assert forall|k: int| 0 <= k < at implies is_as_on_main(after, #[trigger] outside[k]) by {
                assert(is_as_on_main(before, outside[k]));
            }
            assert forall|g: Seq<char>| !outside.contains(g) implies (
            #[trigger] after.tree.contains_key(g) == start.tree.contains_key(g) && (
            start.tree.contains_key(g) ==> after.tree[g] == start.tree[g])) by {
                assert(g != f);
                assert(before.tree.contains_key(g) == start.tree.contains_key(g));
            }
            let next = scope::revert_next(dir, outside, state, reply);
            assert(next is Failed || next is Stage || next == (RevertState::<Seq<char>>::Check {
                at: (at + 1) as usize,
            }));
            assert forall|k: int| 0 <= k < at + 1 implies is_as_on_main(
                after,
                #[trigger] outside[k],
            ) by {}
            assert(next is Stage ==> at + 1 == outside.len());
            assert(next is Check ==> at + 1 < outside.len());
            assert(after.main == start.main);
        },
        _ => {
            assert(after == before);
        },
    }
}

proof fn lemma_revert_run(
    dir: Seq<char>,
    outside: Seq<Seq<char>>,
    files: Seq<Files>,
    states: Seq<RevertState<Seq<char>>>,
    replies: Seq<GitReply>,
    k: int,
)
    requires
        0 < outside.len() <= usize::MAX,
        is_revert_run(dir, outside, files, states, replies),
        0 <= k <= replies.len(),
    ensures
        revert_invariant(files[0], files[k], outside, states[k]),
    decreases k,
{
    if k > 0 {
        lemma_revert_run(dir, outside, files, states, replies, k - 1);
        assert(states[(k - 1) + 1] == scope::revert_next(
            dir,
            outside,
            states[k - 1],
            replies[k - 1],
        ));
        lemma_revert_step(
            files[0],
            files[k - 1],
            files[k],
            dir,
            outside,
            states[k - 1],
            replies[k - 1],
        );
    }
}

/// A recovery that went through leaves every file outside the scope as it is
/// on `main`, which means removed where `main` lacks it, and every other file
/// as it was.
pub proof fn law_recovery_puts_files_back(
    dir: Seq<char>,
    outside: Seq<Seq<char>>,
    files: Seq<Files>,
    states: Seq<RevertState<Seq<char>>>,
    replies: Seq<GitReply>,
)
    requires
        0 < outside.len() <= usize::MAX,
        is_revert_run(dir, outside, files, states, replies),
        states.last() is Done,
    ensures
        ({
            let start = files[0];
            let now = files.last();
            &&& forall|k: int|
                0 <= k < outside.len() ==> is_as_on_main(now, #[trigger] outside[k])
            &&& forall|f: Seq<char>|
                !outside.contains(f) ==> (#[trigger] now.tree.contains_key(f)
                    == start.tree.contains_key(f) && (start.tree.contains_key(f) ==> now.tree[f]
                    == start.tree[f]))
            &&& now.main == start.main
        }),
{
    lemma_revert_run(dir, outside, files, states, replies, replies.len() as int);
}

/// Once every file is back, everything is staged, and a commit is made exactly
/// where something is staged; a recovery always comes to an end.
pub proof fn law_recovery_is_committed(
    dir: Seq<char>,
    outside: Seq<Seq<char>>,
    at: usize,
    on_main: bool,
    ran: GitReply,
    unchanged: GitReply,
    changed: GitReply,
)
    requires
        at < outside.len(),
        ran is Ran,
        unchanged matches GitReply::Ran { success, .. } && success,
        changed matches GitReply::Ran { success, .. } && !success,
    ensures
        ({
            let next = |s: RevertState<Seq<char>>, r: GitReply|
                scope::revert_next(dir, outside, s, r);
            let after = next(RevertState::Restore { at, on_main }, ran);
            &&& at + 1 < outside.len() ==> after == (RevertState::<Seq<char>>::Check {
                at: (at + 1) as usize,
            })
            &&& at + 1 == outside.len() ==> after is Stage
            &&& scope::revert_command(dir, outside, RevertState::Stage) matches Some(c) && c.dir
                == dir && c.args == seq!["add"@, "-A"@]
            &&& next(RevertState::Stage, ran) is Inspect
            &&& scope::revert_command(dir, outside, RevertState::Inspect) matches Some(c) && c.dir
                == dir && c.args == seq!["diff"@, "--cached"@, "--quiet"@]
            &&& next(RevertState::Inspect, unchanged) == (RevertState::<Seq<char>>::Done {
                committed: false,
            })
            &&& next(RevertState::Inspect, changed) is Commit
            &&& scope::revert_command(dir, outside, RevertState::Commit) matches Some(c) && c.dir
                == dir && c.args.len() > 1 && c.args[0] == "commit"@ && c.args[1] == "-m"@
            &&& next(RevertState::Commit, ran) == (RevertState::<Seq<char>>::Done {
                committed: true,
            })
        }),
{
}

// ---------------------------------------------------------------------------
// Several repositories

/// The totals over several repositories grow by what one more worktree has, if
/// it exists and git could count it, and are nothing without any.
pub proof fn law_totals_add_up(repos: Seq<SubRepo>, repo: SubRepo)
    ensures
        ({
            let known = |n: Option<u32>|
                match n {
                    Some(k) => if repo.exists {
                        k as int
                    } else {
                        0
                    },
                    None => 0,
                };
            let commits = |r: SubRepo| multi_repo::commits_of(r);
            let files = |r: SubRepo| multi_repo::files_of(r);
            let code = |r: SubRepo| multi_repo::code_files_of(r);
            &&& multi_repo::total(repos.push(repo), commits) == multi_repo::total(repos, commits)
                + known(repo.commits)
            &&& multi_repo::total(repos.push(repo), files) == multi_repo::total(repos, files)
                + known(repo.files)
            &&& multi_repo::total(repos.push(repo), code) == multi_repo::total(repos, code) + known(
                repo.code_files,
            )
            &&& multi_repo::total(Seq::empty(), commits) == 0
        }),
{
    assert(repos.push(repo).drop_last() =~= repos);
}

/// The task is on the branch of the first repository that has commits, or else
/// of the first that has a worktree at all.
pub proof fn law_task_branch_is_of_the_first_with_commits(repos: Seq<SubRepo>)
    ensures
        ({
            let counts = |r: SubRepo| r.exists && (r.commits matches Some(n) && n > 0);
            match multi_repo::branch_repo(repos) {
                Some(i) => {
                    &&& 0 <= i < repos.len()
                    &&& repos[i].exists
                    &&& counts(repos[i]) ==> forall|k: int| 0 <= k < i ==> !counts(#[trigger] repos[k])
                    &&& !counts(repos[i]) ==> (forall|k: int|
                        0 <= k < repos.len() ==> !counts(#[trigger] repos[k])) && forall|k: int|
                        0 <= k < i ==> !(#[trigger] repos[k]).exists
                },
                None => forall|k: int| 0 <= k < repos.len() ==> !(#[trigger] repos[k]).exists,
            }
        }),
{
    let p = |x: SubRepo| multi_repo::has_commits(x);
    let q = |x: SubRepo| multi_repo::is_there(x);
    lemma_first(repos, p, 0);
    lemma_first(repos, q, 0);
    assert forall|k: int| 0 <= k < repos.len() implies p(#[trigger] repos[k]) == (repos[k].exists
        && (repos[k].commits matches Some(n) && n > 0)) by {}
    assert forall|k: int| 0 <= k < repos.len() implies q(#[trigger] repos[k])
        == repos[k].exists by {}
}

proof fn lemma_first(repos: Seq<SubRepo>, p: spec_fn(SubRepo) -> bool, from: int)
    requires
        0 <= from,
    ensures
        match multi_repo::first_repo(repos, p, from) {
            Some(i) => from <= i < repos.len() && p(repos[i]) && forall|k: int|
                from <= k < i ==> !p(#[trigger] repos[k]),
            None => forall|k: int| from <= k < repos.len() ==> !p(#[trigger] repos[k]),
        },
    decreases repos.len() - from,
{
    if from < repos.len() && !p(repos[from]) {
        lemma_first(repos, p, from + 1);
    }
}

/// Every repository with commits is merged in its turn: from any place on, the
/// next one that is merged exists, has commits, and lies before any other of
/// which that is true; the worktrees are reset only once there is none left.
pub proof fn law_repos_are_merged_in_turn(repos: Seq<SubRepo>, from: int, r: MultiMergeState)
    requires
        0 <= from,
        multi_repo::merge_from(repos, from, r),
    ensures
        ({
            let counts = |r: SubRepo| r.exists && (r.commits matches Some(n) && n > 0);
            &&& r matches MultiMergeState::Merging(at) ==> from <= at < repos.len() && counts(
                repos[at as int],
            ) && forall|k: int| from <= k < at ==> !counts(#[trigger] repos[k])
            &&& r is Resetting ==> forall|k: int| from <= k < repos.len() ==> !counts(
                #[trigger] repos[k],
            )
            &&& !(r is Finished)
        }),
{
    multi_repo::law_every_repo_with_commits_is_merged(repos, from, r);
    assert forall|k: int| 0 <= k < repos.len() implies multi_repo::has_commits(
        #[trigger] repos[k],
    ) == (repos[k].exists && (repos[k].commits matches Some(n) && n > 0)) by {}
}

/// The worktrees that are reset are those of every repository that has one, in
/// their order, each in the place of that repository.
pub proof fn law_every_worktree_is_reset(
    root: Seq<char>,
    engineer: Seq<char>,
    repos: Seq<SubRepo>,
    i: int,
)
    requires
        0 <= i < repos.len(),
    ensures
        repos[i].exists ==> multi_repo::reset_paths(root, engineer, repos).contains(
            multi_repo::repo_worktree_path(
                paths::join_path(root, repos[i].name@),
                engineer,
                repos[i].name@,
            ),
        ),
        multi_repo::reset_paths(root, engineer, repos).len() <= repos.len(),
    decreases repos.len(),
{
    let front = repos.drop_last();
    let before = multi_repo::reset_paths(root, engineer, front);
    let all = multi_repo::reset_paths(root, engineer, repos);
    if i < front.len() {
        law_every_worktree_is_reset(root, engineer, front, i);
        if repos[i].exists {
            let p = multi_repo::repo_worktree_path(
                paths::join_path(root, repos[i].name@),
                engineer,
                repos[i].name@,
            );
            let k = choose|k: int| 0 <= k < before.len() && before[k] == p;
            assert(all[k] == p);
        }
    } else {
        if repos[i].exists {
            assert(all[all.len() - 1] == multi_repo::repo_worktree_path(
                paths::join_path(root, repos[i].name@),
                engineer,
                repos[i].name@,
            ));
        }
        lemma_reset_len(root, engineer, front);
    }
}

proof fn lemma_reset_len(root: Seq<char>, engineer: Seq<char>, repos: Seq<SubRepo>)
    ensures
        multi_repo::reset_paths(root, engineer, repos).len() <= repos.len(),
    decreases repos.len(),
{
    if repos.len() > 0 {
        lemma_reset_len(root, engineer, repos.drop_last());
    }
}

// ---------------------------------------------------------------------------
// What git listed

proof fn lemma_listed(ps: Seq<Seq<char>>)
    requires
        forall|k: int|
            0 <= k < ps.len() ==> (#[trigger] ps[k]).len() > 0 && text_laws::is_trimmed(ps[k]),
    ensures
        git_ops::listed_paths(ps) == ps,
    decreases ps.len(),
{
    if ps.len() > 0 {
        let front = ps.drop_last();
        assert forall|k: int| 0 <= k < front.len() implies (#[trigger] front[k]).len() > 0
            && text_laws::is_trimmed(front[k]) by {
            assert(front[k] == ps[k]);
        }
        lemma_listed(front);
        let last = ps[ps.len() - 1];
        let none = Seq::<char>::empty();
        text_laws::law_trimming_takes_white_space(none, last, none, ' ');
        assert(none + last + none =~= last);
        assert(front.push(last) =~= ps);
    } else {
        assert(git_ops::listed_paths(ps) =~= ps);
    }
}

/// The changed paths are those that git listed, each on its line; files that are
/// evidence and files of code are counted among these. Where git failed, nothing
/// is known, and the message tells which comparison failed.
pub proof fn law_changed_files_are_read(
    names: ClaudeNames,
    dir: Seq<char>,
    ps: Seq<Seq<char>>,
    reply: GitReply,
)
    requires
        forall|k: int|
            0 <= k < ps.len() ==> (#[trigger] ps[k]).len() > 0 && text_laws::is_trimmed(ps[k])
                && text_laws::is_plain_line(ps[k]),
        ps.len() <= u32::MAX,
    ensures
        (reply matches GitReply::Ran { success, stdout, .. } && success && stdout@
            == text_laws::terminated(ps, seq!['\n'])) ==> git_ops::changed_paths_spec(dir, reply)
            == Ok::<Seq<Seq<char>>, Seq<char>>(ps) && git_ops::files_changed_spec(
            names,
            dir,
            reply,
        ) == Ok::<u32, Seq<char>>(git_ops::evidence(names, ps).len() as u32)
            && git_ops::code_files_changed_spec(names, dir, reply) == Ok::<u32, Seq<char>>(
            git_ops::code(git_ops::evidence(names, ps)).len() as u32,
        ),
        reply is NotRun ==> git_ops::changed_paths_spec(dir, reply) == Err::<
            Seq<Seq<char>>,
            Seq<char>,
        >(
            git_ops::not_run_text(
                dir,
                seq!["diff"@, "--name-only"@, "main..HEAD"@],
                git_ops::diff_names_intent(),
            ),
        ) && git_ops::diff_stat_spec(dir, reply) == Err::<Seq<char>, Seq<char>>(
            git_ops::not_run_text(
                dir,
                seq!["diff"@, "--stat"@, "main..HEAD"@],
                git_ops::diff_stat_intent(),
            ),
        ),
        (reply matches GitReply::Ran { success, .. } && !success) ==> git_ops::changed_paths_spec(
            dir,
            reply,
        ) is Err && git_ops::files_changed_spec(names, dir, reply) is Err
            && git_ops::diff_stat_spec(dir, reply) is Err,
{
    let end = seq!['\n'];
    assert forall|k: int| 0 <= k < ps.len() implies text_laws::is_plain_line(#[trigger] ps[k]) by {}
    let rest = seq!['x'];
    text_laws::law_lines_are_read_back(ps, end, rest);
    lemma_listed(ps);
}

/// The blocks of statistics are those of the repositories that have a worktree
/// and something to show, each under the name of its repository.
pub proof fn law_statistics_are_named(repos: Seq<SubRepo>, repo: SubRepo)
    ensures
        ({
            let before = multi_repo::stat_blocks(repos);
            let now = multi_repo::stat_blocks(repos.push(repo));
            if repo.exists && (repo.diff_stat matches Some(d) && d@.len() > 0) {
                now == before.push("["@ + repo.name@ + "]\n"@ + repo.diff_stat->Some_0@)
            } else {
                now == before
            }
        }),
        multi_repo::stat_blocks(Seq::empty()).len() == 0,
{
    assert(repos.push(repo).drop_last() =~= repos);
}

/// A slower test run is noted exactly if it was found to be a regression, with
/// its time, the average and the percentage, zero where they are unknown.
pub proof fn law_regressions_are_noted(r: TimingRecord)
    ensures
        multi_repo::regression_note(r) is Some <==> r.regression_detected,
        r.regression_detected && r.rolling_average_ms is Some && r.regression_pct is Some
            ==> multi_repo::regression_note(r) == Some(
            "runtime_ms="@ + text::decimal(r.duration_ms as nat) + " avg_ms="@ + text::decimal(
                r.rolling_average_ms->Some_0 as nat,
            ) + " pct="@ + text::decimal(r.regression_pct->Some_0 as nat),
        ),
        r.regression_detected && r.rolling_average_ms is None && r.regression_pct is None
            ==> multi_repo::regression_note(r) == Some(
            "runtime_ms="@ + text::decimal(r.duration_ms as nat) + " avg_ms="@ + seq!['0']
                + " pct="@ + seq!['0'],
        ),
{
    assert(text::decimal(0) =~= seq!['0']);
}

} // verus!
