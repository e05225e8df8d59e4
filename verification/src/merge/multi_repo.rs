//! Projects made of several repositories: totals over their worktrees and the
//! order in which they are merged.

use vstd::prelude::*;
use vstd::string::*;

use super::lock::{MergeMode, MergeOutcome, MergeSuccess};
use crate::paths;
use crate::paths::{joined, parent_of, worktree_dir};
use crate::text;
use crate::text::{copy, join_strings};

verus! {

/// What git says of one repository's worktree. A count or text that could
/// not be read is missing.
#[derive(Debug)]
pub struct SubRepo {
    pub name: String,
    pub exists: bool,
    pub commits: Option<u32>,
    pub files: Option<u32>,
    pub code_files: Option<u32>,
    pub diff_stat: Option<String>,
    /// The checked-out branch, or why it could not be read.
    pub branch: Result<String, String>,
}

/// The commits that a worktree contributes.
pub open spec fn commits_of(repo: SubRepo) -> nat {
    match repo.commits {
        Some(n) => if repo.exists {
            n as nat
        } else {
            0
        },
        None => 0,
    }
}

/// The changed files that a worktree contributes.
pub open spec fn files_of(repo: SubRepo) -> nat {
    match repo.files {
        Some(n) => if repo.exists {
            n as nat
        } else {
            0
        },
        None => 0,
    }
}

/// The changed code files that a worktree contributes.
pub open spec fn code_files_of(repo: SubRepo) -> nat {
    match repo.code_files {
        Some(n) => if repo.exists {
            n as nat
        } else {
            0
        },
        None => 0,
    }
}

/// The sum of `f` over `repos`.
pub open spec fn total(repos: Seq<SubRepo>, f: spec_fn(SubRepo) -> nat) -> nat
    decreases repos.len(),
{
    if repos.len() == 0 {
        0
    } else {
        total(repos.drop_last(), f) + f(repos.last())
    }
}

proof fn lemma_total_grows(repos: Seq<SubRepo>, f: spec_fn(SubRepo) -> nat, i: int)
    requires
        0 <= i <= repos.len(),
    ensures
        total(repos.take(i), f) <= total(repos, f),
    decreases repos.len() - i,
{
    if i < repos.len() {
        lemma_total_grows(repos, f, i + 1);
        assert(repos.take(i + 1).drop_last() == repos.take(i));
    } else {
        assert(repos.take(i) == repos);
    }
}

/// Commits ahead of `main`, over all worktrees.
pub fn multi_repo_commits_ahead_of_main(repos: &Vec<SubRepo>) -> (r: u32)
    requires
        total(repos@, |x: SubRepo| commits_of(x)) <= u32::MAX,
    ensures
        r == total(repos@, |x: SubRepo| commits_of(x)),
{
    let ghost f = |x: SubRepo| commits_of(x);
    let mut sum: u32 = 0;
    let mut i: usize = 0;
    while i < repos.len()
        invariant
            i <= repos@.len(),
            f == (|x: SubRepo| commits_of(x)),
            total(repos@, f) <= u32::MAX,
            sum == total(repos@.take(i as int), f),
        decreases repos@.len() - i,
    {
        proof {
            lemma_total_grows(repos@, f, i + 1);
            assert(repos@.take(i + 1).drop_last() == repos@.take(i as int));
        }
        if repos[i].exists {
            if let Some(n) = repos[i].commits {
                sum = sum + n;
            }
        }
        i += 1;
    }
    assert(repos@.take(i as int) == repos@);
    sum
}

/// Files changed from `main`, over all worktrees.
pub fn multi_repo_files_changed_from_main(repos: &Vec<SubRepo>) -> (r: u32)
    requires
        total(repos@, |x: SubRepo| files_of(x)) <= u32::MAX,
    ensures
        r == total(repos@, |x: SubRepo| files_of(x)),
{
    let ghost f = |x: SubRepo| files_of(x);
    let mut sum: u32 = 0;
    let mut i: usize = 0;
    while i < repos.len()
        invariant
            i <= repos@.len(),
            f == (|x: SubRepo| files_of(x)),
            total(repos@, f) <= u32::MAX,
            sum == total(repos@.take(i as int), f),
        decreases repos@.len() - i,
    {
        proof {
            lemma_total_grows(repos@, f, i + 1);
            assert(repos@.take(i + 1).drop_last() == repos@.take(i as int));
        }
        if repos[i].exists {
            if let Some(n) = repos[i].files {
                sum = sum + n;
            }
        }
        i += 1;
    }
    assert(repos@.take(i as int) == repos@);
    sum
}

/// Code files changed from `main`, over all worktrees.
pub fn multi_repo_code_files_changed_from_main(repos: &Vec<SubRepo>) -> (r: u32)
    requires
        total(repos@, |x: SubRepo| code_files_of(x)) <= u32::MAX,
    ensures
        r == total(repos@, |x: SubRepo| code_files_of(x)),
{
    let ghost f = |x: SubRepo| code_files_of(x);
    let mut sum: u32 = 0;
    let mut i: usize = 0;
    while i < repos.len()
        invariant
            i <= repos@.len(),
            f == (|x: SubRepo| code_files_of(x)),
            total(repos@, f) <= u32::MAX,
            sum == total(repos@.take(i as int), f),
        decreases repos@.len() - i,
    {
        proof {
            lemma_total_grows(repos@, f, i + 1);
            assert(repos@.take(i + 1).drop_last() == repos@.take(i as int));
        }
        if repos[i].exists {
            if let Some(n) = repos[i].code_files {
                sum = sum + n;
            }
        }
        i += 1;
    }
    assert(repos@.take(i as int) == repos@);
    sum
}

/// The first position at or after `from` whose repository satisfies `p`.
pub open spec fn first_repo(repos: Seq<SubRepo>, p: spec_fn(SubRepo) -> bool, from: int) -> Option<
    int,
>
    decreases repos.len() - from,
{
    if from < 0 || from >= repos.len() {
        None
    } else if p(repos[from]) {
        Some(from)
    } else {
        first_repo(repos, p, from + 1)
    }
}

/// A worktree with something to merge.
pub open spec fn has_commits(repo: SubRepo) -> bool {
    commits_of(repo) > 0
}

/// A worktree that is there.
pub open spec fn is_there(repo: SubRepo) -> bool {
    repo.exists
}

/// An index as contracts see it.
pub open spec fn index_view(i: Option<usize>) -> Option<int> {
    match i {
        Some(n) => Some(n as int),
        None => None,
    }
}

/// The next repository, from position `from` on, that has something to merge.
pub fn next_repo_to_merge(repos: &Vec<SubRepo>, from: usize) -> (r: Option<usize>)
    ensures
        index_view(r) == first_repo(repos@, |x: SubRepo| has_commits(x), from as int),
{
    let ghost p = |x: SubRepo| has_commits(x);
    let mut i: usize = from;
    while i < repos.len()
        invariant
            p == (|x: SubRepo| has_commits(x)),
            from <= i,
            first_repo(repos@, p, from as int) == first_repo(repos@, p, i as int),
        decreases repos@.len() - i,
    {
        let found: bool = match repos[i].commits {
            Some(n) => repos[i].exists && n > 0,
            None => false,
        };
        if found {
            return Some(i);
        }
        i += 1;
    }
    None
}

fn first_existing(repos: &Vec<SubRepo>) -> (r: Option<usize>)
    ensures
        index_view(r) == first_repo(repos@, |x: SubRepo| is_there(x), 0),
{
    let ghost p = |x: SubRepo| is_there(x);
    let mut i: usize = 0;
    while i < repos.len()
        invariant
            p == (|x: SubRepo| is_there(x)),
            first_repo(repos@, p, 0) == first_repo(repos@, p, i as int),
        decreases repos@.len() - i,
    {
        if repos[i].exists {
            return Some(i);
        }
        i += 1;
    }
    None
}

/// The repository that names the task branch: the first with commits, else
/// the first that exists.
pub open spec fn branch_repo(repos: Seq<SubRepo>) -> Option<int> {
    match first_repo(repos, |x: SubRepo| has_commits(x), 0) {
        Some(i) => Some(i),
        None => first_repo(repos, |x: SubRepo| is_there(x), 0),
    }
}

proof fn lemma_first_repo(repos: Seq<SubRepo>, p: spec_fn(SubRepo) -> bool, from: int)
    ensures
        first_repo(repos, p, from) matches Some(i) ==> 0 <= i < repos.len() && p(repos[i]),
    decreases repos.len() - from,
{
    if 0 <= from < repos.len() && !p(repos[from]) {
        lemma_first_repo(repos, p, from + 1);
    }
}

/// The branch that the task is on.
pub fn multi_repo_task_branch(worktree_dir: &str, repos: &Vec<SubRepo>) -> (r: Result<
    String,
    String,
>)
    ensures
        branch_repo(repos@) matches Some(i) ==> super::git_ops::result_view(r)
            == super::git_ops::result_view(repos@[i].branch),
        branch_repo(repos@) is None ==> super::git_ops::result_view(r) == Err::<Seq<char>, Seq<char>>(
            "no sub-repo worktrees found in "@ + worktree_dir@,
        ),
{
    proof {
        lemma_first_repo(repos@, |x: SubRepo| has_commits(x), 0);
        lemma_first_repo(repos@, |x: SubRepo| is_there(x), 0);
    }
    let at: Option<usize> = match next_repo_to_merge(repos, 0) {
        Some(i) => Some(i),
        None => first_existing(repos),
    };
    match at {
        Some(i) => match &repos[i].branch {
            Ok(b) => Ok(b.clone()),
            Err(e) => Err(e.clone()),
        },
        None => Err(copy("no sub-repo worktrees found in ").concat(worktree_dir)),
    }
}

/// The non-empty diff stats, each under the name of its repository.
pub open spec fn stat_blocks(repos: Seq<SubRepo>) -> Seq<Seq<char>>
    decreases repos.len(),
{
    if repos.len() == 0 {
        Seq::empty()
    } else {
        let rest = stat_blocks(repos.drop_last());
        let repo = repos.last();
        match repo.diff_stat {
            Some(d) => if repo.exists && d@.len() > 0 {
                rest.push("["@ + repo.name@ + "]\n"@ + d@)
            } else {
                rest
            },
            None => rest,
        }
    }
}

/// The diff stats of all worktrees.
pub fn multi_repo_diff_stat_from_main(repos: &Vec<SubRepo>) -> (r: String)
    ensures
        r@ == text::join(stat_blocks(repos@), "\n"@),
{
    let mut out: Vec<String> = Vec::new();
    let mut i: usize = 0;
    assert(text::views(out@) == stat_blocks(repos@.take(0)));
    while i < repos.len()
        invariant
            i <= repos@.len(),
            text::views(out@) == stat_blocks(repos@.take(i as int)),
        decreases repos@.len() - i,
    {
        assert(repos@.take(i + 1).drop_last() == repos@.take(i as int));
        let ghost before = out@;
        if repos[i].exists {
            if let Some(d) = &repos[i].diff_stat {
                if !d.as_str().is_empty() {
                    out.push(
                        copy("[").concat(repos[i].name.as_str()).concat("]\n").concat(d.as_str()),
                    );
                    assert(text::views(out@) == text::views(before).push(out@.last()@));
                }
            }
        }
        i += 1;
    }
    assert(repos@.take(i as int) == repos@);
    join_strings(&out, "\n")
}

/// Where the merge of several repositories stands.
#[derive(Debug)]
pub enum MultiMergeState {
    /// The repository at this position is being merged.
    Merging(usize),
    /// Every repository is merged; the worktrees that `worktrees_to_reset`
    /// lists are being reset.
    Resetting,
    /// Over.
    Finished(MergeOutcome<String>),
}

/// The merge continues with the next repository that has commits.
pub open spec fn merge_from(repos: Seq<SubRepo>, from: int, r: MultiMergeState) -> bool {
    match first_repo(repos, |x: SubRepo| has_commits(x), from) {
        Some(i) => r matches MultiMergeState::Merging(at) && at == i,
        None => r is Resetting,
    }
}

/// Begins the merge of several repositories.
pub fn start_multi_merge(repos: &Vec<SubRepo>) -> (r: MultiMergeState)
    ensures
        merge_from(repos@, 0, r),
{
    match next_repo_to_merge(repos, 0) {
        Some(i) => MultiMergeState::Merging(i),
        None => MultiMergeState::Resetting,
    }
}

/// Goes on after the repository at `at` was merged with `outcome`. The first
/// outcome that is no success ends the merge.
pub fn merge_multi_repo_engineer_branch(
    repos: &Vec<SubRepo>,
    at: usize,
    outcome: &MergeOutcome<String>,
) -> (r: MultiMergeState)
    requires
        at < repos.len(),
    ensures
        outcome is Success ==> merge_from(repos@, at + 1, r),
        !(outcome is Success) ==> (r matches MultiMergeState::Finished(o) && o == *outcome),
{
    match outcome {
        MergeOutcome::Success(_) => match next_repo_to_merge(repos, at + 1) {
            Some(i) => MultiMergeState::Merging(i),
            None => MultiMergeState::Resetting,
        },
        _ => MultiMergeState::Finished(super::branch::clone_outcome(outcome)),
    }
}

/// Ends the merge once the worktrees are reset, whatever the resets answered.
pub fn finish_multi_merge() -> (r: MultiMergeState)
    ensures
        r matches MultiMergeState::Finished(o) && o.text() == super::lock::plain_success(),
{
    MultiMergeState::Finished(
        MergeOutcome::Success(MergeSuccess { mode: MergeMode::DirectRoot, reason: None }),
    )
}

proof fn lemma_first_repo_bounds(repos: Seq<SubRepo>, p: spec_fn(SubRepo) -> bool, from: int)
    ensures
        first_repo(repos, p, from) matches Some(i) ==> i >= from && forall|k: int|
            from <= k < i ==> !#[trigger] p(repos[k]),
        first_repo(repos, p, from) is None ==> forall|k: int|
            0 <= from <= k < repos.len() ==> !#[trigger] p(repos[k]),
    decreases repos.len() - from,
{
    if 0 <= from < repos.len() && !p(repos[from]) {
        lemma_first_repo_bounds(repos, p, from + 1);
    }
}

/// No repository with commits is passed over: between two merges, and after
/// the last one, lie only repositories without commits.
pub proof fn law_every_repo_with_commits_is_merged(
    repos: Seq<SubRepo>,
    from: int,
    r: MultiMergeState,
)
    requires
        0 <= from,
        merge_from(repos, from, r),
    ensures
        r matches MultiMergeState::Merging(at) ==> from <= at < repos.len() && has_commits(
            repos[at as int],
        ) && forall|k: int| from <= k < at ==> !has_commits(#[trigger] repos[k]),
        r is Resetting ==> forall|k: int| from <= k < repos.len() ==> !has_commits(
            #[trigger] repos[k],
        ),
{
    let p = |x: SubRepo| has_commits(x);
    lemma_first_repo(repos, p, from);
    lemma_first_repo_bounds(repos, p, from);
    match first_repo(repos, p, from) {
        Some(i) => {
            assert forall|k: int| from <= k < i implies !has_commits(#[trigger] repos[k]) by {
                assert(!p(repos[k]));
            }
        },
        None => {
            assert forall|k: int| from <= k < repos.len() implies !has_commits(
                #[trigger] repos[k],
            ) by {
                assert(!p(repos[k]));
            }
        },
    }
}

/// Where an engineer's worktree of one repository is: beside the repositories.
pub open spec fn repo_worktree_path(
    repo_root: Seq<char>,
    engineer: Seq<char>,
    repo_name: Seq<char>,
) -> Seq<char> {
    let base = match paths::parent(repo_root) {
        Some(p) => p,
        None => repo_root,
    };
    paths::join_path(paths::worktree_path(base, engineer), repo_name)
}

/// Where an engineer's worktree of one repository is.
pub fn repo_worktree_dir(repo_root: &str, engineer_name: &str, repo_name: &str) -> (r: String)
    ensures
        r@ == repo_worktree_path(repo_root@, engineer_name@, repo_name@),
{
    let base: String = match parent_of(repo_root) {
        Some(p) => p,
        None => copy(repo_root),
    };
    joined(worktree_dir(base.as_str(), engineer_name).as_str(), repo_name)
}

/// The worktree to be put back on the engineer's base branch after a merge in
/// one repository, where it exists.
pub fn reset_engineer_worktree_in_repo(
    repo_root: &str,
    engineer_name: &str,
    repo_name: &str,
    worktree_exists: bool,
) -> (r: Option<String>)
    ensures
        paths::opt_view(r) == (if worktree_exists {
            Some(repo_worktree_path(repo_root@, engineer_name@, repo_name@))
        } else {
            None
        }),
{
    if worktree_exists {
        Some(repo_worktree_dir(repo_root, engineer_name, repo_name))
    } else {
        None
    }
}

/// Where the worktrees are that are put back after the merge: those of every
/// listed repository that has one, in order.
pub open spec fn reset_paths(
    project_root: Seq<char>,
    engineer: Seq<char>,
    repos: Seq<SubRepo>,
) -> Seq<Seq<char>>
    decreases repos.len(),
{
    if repos.len() == 0 {
        Seq::empty()
    } else {
        let rest = reset_paths(project_root, engineer, repos.drop_last());
        let repo = repos.last();
        if repo.exists {
            rest.push(
                repo_worktree_path(
                    paths::join_path(project_root, repo.name@),
                    engineer,
                    repo.name@,
                ),
            )
        } else {
            rest
        }
    }
}

/// The worktrees to be put back on the engineer's base branch once every
/// repository is merged.
pub fn worktrees_to_reset(project_root: &str, engineer_name: &str, repos: &Vec<SubRepo>) -> (r: Vec<
    String,
>)
    ensures
        text::views(r@) == reset_paths(project_root@, engineer_name@, repos@),
{
    let mut out: Vec<String> = Vec::new();
    let mut i: usize = 0;
    assert(text::views(out@) =~= reset_paths(project_root@, engineer_name@, repos@.take(0)));
    while i < repos.len()
        invariant
            i <= repos@.len(),
            text::views(out@) == reset_paths(
                project_root@,
                engineer_name@,
                repos@.take(i as int),
            ),
        decreases repos@.len() - i,
    {
        assert(repos@.take(i + 1).drop_last() == repos@.take(i as int));
        let ghost before = out@;
        let name: &str = repos[i].name.as_str();
        let repo_root: String = joined(project_root, name);
        match reset_engineer_worktree_in_repo(
            repo_root.as_str(),
            engineer_name,
            name,
            repos[i].exists,
        ) {
            Some(dir) => {
                out.push(dir);
                assert(text::views(out@) == text::views(before).push(dir@));
            },
            None => {},
        }
        i += 1;
    }
    assert(repos@.take(i as int) == repos@);
    out
}

/// A run of the tests compared with those before it.
#[derive(Clone, Copy, Debug)]
pub struct TimingRecord {
    pub duration_ms: u64,
    pub rolling_average_ms: Option<u64>,
    pub regression_pct: Option<u32>,
    pub regression_detected: bool,
}

/// Zero where nothing is known.
pub open spec fn or_zero(n: Option<u64>) -> nat {
    match n {
        Some(x) => x as nat,
        None => 0,
    }
}

/// What is recorded of a slower test run, if it is slower.
pub open spec fn regression_note(record: TimingRecord) -> Option<Seq<char>> {
    if record.regression_detected {
        Some(
            "runtime_ms="@ + text::decimal(record.duration_ms as nat) + " avg_ms="@ + text::decimal(
                or_zero(record.rolling_average_ms),
            ) + " pct="@ + text::decimal(
                match record.regression_pct {
                    Some(p) => p as nat,
                    None => 0,
                },
            ),
        )
    } else {
        None
    }
}

/// What to record of a test run that was slower than those before it.
pub fn record_merge_test_timing(record: &TimingRecord) -> (r: Option<String>)
    ensures
        crate::paths::opt_view(r) == regression_note(*record),
{
    if !record.regression_detected {
        return None;
    }
    let average: u64 = match record.rolling_average_ms {
        Some(x) => x,
        None => 0,
    };
    let pct: u32 = match record.regression_pct {
        Some(p) => p,
        None => 0,
    };
    Some(
        copy("runtime_ms=").concat(text::decimal_string(record.duration_ms).as_str()).concat(
            " avg_ms=",
        ).concat(text::decimal_string(average).as_str()).concat(" pct=").concat(
            text::decimal_string(pct as u64).as_str(),
        ),
    )
}

} // verus!
