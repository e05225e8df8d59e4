//! Git commands as values, and the reading of their replies.

use vstd::prelude::*;
use vstd::string::*;

use crate::paths::{extension_of, file_name_of, first_component_of};
use crate::team::ClaudeNames;
use crate::text::{
    chars_of, copy, join_strings, same, split_lines, string_of_all, trimmed, trimmed_str,
};

verus! {

/// One invocation of git: where it runs, its arguments, and what it is for.
#[derive(Clone, Debug)]
pub struct GitCommand {
    pub dir: String,
    pub args: Vec<String>,
    pub intent: String,
}

/// The texts of a [`GitCommand`].
pub struct GitCommandView {
    pub dir: Seq<char>,
    pub args: Seq<Seq<char>>,
    pub intent: Seq<char>,
}

impl View for GitCommand {
    type V = GitCommandView;

    open spec fn view(&self) -> GitCommandView {
        GitCommandView {
            dir: self.dir@,
            args: crate::text::views(self.args@),
            intent: self.intent@,
        }
    }
}

/// What came back from a git command: it could not be executed, or it ran.
#[derive(Clone, Debug)]
pub enum GitReply {
    NotRun,
    Ran { success: bool, stdout: String, stderr: String },
}

/// The arguments of `git rev-list --count main..HEAD`.
pub open spec fn rev_list_args() -> Seq<Seq<char>> {
    seq!["rev-list"@, "--count"@, "main..HEAD"@]
}

/// The arguments of `git diff --stat main..HEAD`.
pub open spec fn diff_stat_args() -> Seq<Seq<char>> {
    seq!["diff"@, "--stat"@, "main..HEAD"@]
}

/// The arguments of `git diff --name-only main..HEAD`.
pub open spec fn diff_names_args() -> Seq<Seq<char>> {
    seq!["diff"@, "--name-only"@, "main..HEAD"@]
}

/// A vector of one argument.
pub fn args1(a: &str) -> (r: Vec<String>)
    ensures
        crate::text::views(r@) == seq![a@],
{
    let mut v: Vec<String> = Vec::new();
    v.push(copy(a));
    v
}

/// A vector of two arguments.
pub fn args2(a: &str, b: &str) -> (r: Vec<String>)
    ensures
        crate::text::views(r@) == seq![a@, b@],
{
    let mut v: Vec<String> = Vec::new();
    v.push(copy(a));
    v.push(copy(b));
    v
}

/// A vector of three arguments.
pub fn args3(a: &str, b: &str, c: &str) -> (r: Vec<String>)
    ensures
        crate::text::views(r@) == seq![a@, b@, c@],
{
    let mut v: Vec<String> = Vec::new();
    v.push(copy(a));
    v.push(copy(b));
    v.push(copy(c));
    v
}

/// The text of the command line itself.
pub open spec fn command_line(args: Seq<Seq<char>>) -> Seq<char> {
    "git "@ + crate::text::join(args, " "@)
}

/// The message for a git command that could not be executed.
pub open spec fn not_run_text(dir: Seq<char>, args: Seq<Seq<char>>, intent: Seq<char>) -> Seq<char> {
    "failed while trying to "@ + intent + ": could not execute `"@ + command_line(args) + "` in "@
        + dir
}

/// The message for a git command that could not be executed.
pub fn describe_not_run(dir: &str, args: &Vec<String>, intent: &str) -> (r: String)
    ensures
        r@ == not_run_text(dir@, crate::text::views(args@), intent@),
{
    let command: String = copy("git ").concat(join_strings(args, " ").as_str());
    copy("failed while trying to ").concat(intent).concat(": could not execute `").concat(
        command.as_str(),
    ).concat("` in ").concat(dir)
}

/// The message for a git command that ran and failed.
pub open spec fn failure_text(
    dir: Seq<char>,
    args: Seq<Seq<char>>,
    intent: Seq<char>,
    stderr: Seq<char>,
) -> Seq<char> {
    "failed while trying to "@ + intent + ": `"@ + command_line(args) + "` in "@ + dir
        + " returned: "@ + crate::text::trim(stderr)
}

/// Describes a git command that ran and failed.
pub fn describe_git_failure(dir: &str, args: &Vec<String>, intent: &str, stderr: &str) -> (r: String)
    ensures
        r@ == failure_text(dir@, crate::text::views(args@), intent@, stderr@),
{
    let command: String = copy("git ").concat(join_strings(args, " ").as_str());
    copy("failed while trying to ").concat(intent).concat(": `").concat(command.as_str()).concat(
        "` in ",
    ).concat(dir).concat(" returned: ").concat(trimmed_str(stderr).as_str())
}

/// What a finished command printed, or why there is nothing to read.
pub open spec fn output_of(
    dir: Seq<char>,
    args: Seq<Seq<char>>,
    intent: Seq<char>,
    reply: GitReply,
) -> Result<Seq<char>, Seq<char>> {
    match reply {
        GitReply::NotRun => Err(not_run_text(dir, args, intent)),
        GitReply::Ran { success, stdout, stderr } => if success {
            Ok(stdout@)
        } else {
            Err(failure_text(dir, args, intent, stderr@))
        },
    }
}

/// The texts of a result.
pub open spec fn result_view(r: Result<String, String>) -> Result<Seq<char>, Seq<char>> {
    match r {
        Ok(s) => Ok(s@),
        Err(e) => Err(e@),
    }
}

/// Reads the output of a command that has to succeed.
pub fn read_output(dir: &str, args: &Vec<String>, intent: &str, reply: &GitReply) -> (r: Result<
    String,
    String,
>)
    ensures
        result_view(r) == output_of(dir@, crate::text::views(args@), intent@, *reply),
{
    match reply {
        GitReply::NotRun => Err(describe_not_run(dir, args, intent)),
        GitReply::Ran { success, stdout, stderr } => {
            if *success {
                Ok(copy(stdout.as_str()))
            } else {
                Err(describe_git_failure(dir, args, intent, stderr.as_str()))
            }
        },
    }
}

/// The value of a run of decimal digits, most significant first.
pub open spec fn digits_value(s: Seq<char>) -> nat
    decreases s.len(),
{
    if s.len() == 0 {
        0
    } else {
        digits_value(s.drop_last()) * 10 + (s.last() as nat - 48) as nat
    }
}

/// `s` without one leading plus sign.
pub open spec fn without_plus(s: Seq<char>) -> Seq<char> {
    if s.len() > 0 && s[0] == '+' {
        s.skip(1)
    } else {
        s
    }
}

/// The number written by `s`: decimal digits after an optional plus sign,
/// no larger than `u32::MAX`.
pub open spec fn parse_u32_spec(s: Seq<char>) -> Option<u32> {
    let d = without_plus(s);
    if d.len() > 0 && (forall|i: int| 0 <= i < d.len() ==> crate::text::is_digit(#[trigger] d[i]))
        && digits_value(d) <= u32::MAX {
        Some(digits_value(d) as u32)
    } else {
        None
    }
}

proof fn lemma_digits_value_grows(s: Seq<char>, i: int)
    requires
        0 <= i <= s.len(),
        forall|k: int| 0 <= k < s.len() ==> crate::text::is_digit(#[trigger] s[k]),
    ensures
        digits_value(s.take(i)) <= digits_value(s),
    decreases s.len() - i,
{
    if i < s.len() {
        lemma_digits_value_grows(s, i + 1);
        assert(s.take(i + 1).drop_last() == s.take(i));
    } else {
        assert(s.take(i) == s);
    }
}

/// Reads a `u32` from decimal text.
pub fn parse_u32(s: &Vec<char>) -> (r: Option<u32>)
    ensures
        r == parse_u32_spec(s@),
{
    let start: usize = if s.len() > 0 && s[0] == '+' {
        1
    } else {
        0
    };
    let ghost d = without_plus(s@);
    assert(start == 0 ==> d == s@);
    assert(d.len() == s@.len() - start);
    assert(forall|i: int| 0 <= i < d.len() ==> d[i] == s@[i + start]);
    if s.len() == start {
        return None;
    }
    let mut value: u64 = 0;
    let mut i: usize = start;
    while i < s.len()
        invariant
            start <= i <= s@.len(),
            d == without_plus(s@),
            d.len() == s@.len() - start,
            forall|k: int| 0 <= k < d.len() ==> d[k] == s@[k + start],
            forall|k: int| 0 <= k < i - start ==> crate::text::is_digit(#[trigger] d[k]),
            value == digits_value(d.take(i - start)),
            value <= u32::MAX,
        decreases s@.len() - i,
    {
        assert(d[i - start] == s@[i as int]);
        if !crate::text::digit(s[i]) {
            return None;
        }
        let c: u8 = s[i] as u8;
        proof {
            let t = d.take(i - start + 1);
            assert(t.drop_last() == d.take(i - start));
            assert(t.last() == d[i - start]);
        }
        value = value * 10 + (c - 48) as u64;
        i += 1;
        if value > 0xFFFF_FFFF {
            proof {
                if forall|k: int| 0 <= k < d.len() ==> crate::text::is_digit(#[trigger] d[k]) {
                    lemma_digits_value_grows(d, i - start);
                }
            }
            return None;
        }
    }
    assert(d.take(i - start) == d);
    Some(value as u32)
}

/// The Debug rendering that std gives a string.
pub uninterp spec fn debug_text(s: Seq<char>) -> Seq<char>;

/// Renders `s` with std's `Debug` for strings. The contract only says that
/// the rendering is a function of the text.
#[verifier::external_body]
fn debug_string(s: &str) -> (r: String)
    ensures
        r@ == debug_text(s@),
{
    format!("{:?}", s)
}

/// Why commits are counted.
pub open spec fn commits_intent() -> Seq<char> {
    "count commits ahead of main before accepting engineer completion"@
}

/// Why the diff stat is read.
pub open spec fn diff_stat_intent() -> Seq<char> {
    "check diff stat between main and HEAD for narration-only detection"@
}

/// Why the changed paths are listed.
pub open spec fn diff_names_intent() -> Seq<char> {
    "list changed paths between main and HEAD for narration-only detection"@
}

/// The command that counts the commits that `main` lacks.
pub fn commits_command(dir: &str) -> (r: GitCommand)
    ensures
        r@ == (GitCommandView { dir: dir@, args: rev_list_args(), intent: commits_intent() }),
{
    GitCommand {
        dir: copy(dir),
        args: args3("rev-list", "--count", "main..HEAD"),
        intent: copy("count commits ahead of main before accepting engineer completion"),
    }
}

/// The command that summarises the diff from `main`.
pub fn diff_stat_command(dir: &str) -> (r: GitCommand)
    ensures
        r@ == (GitCommandView { dir: dir@, args: diff_stat_args(), intent: diff_stat_intent() }),
{
    GitCommand {
        dir: copy(dir),
        args: args3("diff", "--stat", "main..HEAD"),
        intent: copy("check diff stat between main and HEAD for narration-only detection"),
    }
}

/// The command that lists the paths that differ from `main`.
pub fn diff_names_command(dir: &str) -> (r: GitCommand)
    ensures
        r@ == (GitCommandView { dir: dir@, args: diff_names_args(), intent: diff_names_intent() }),
{
    GitCommand {
        dir: copy(dir),
        args: args3("diff", "--name-only", "main..HEAD"),
        intent: copy("list changed paths between main and HEAD for narration-only detection"),
    }
}

/// The number of commits that the branch has and `main` lacks, read from the
/// reply to `git rev-list --count main..HEAD`.
pub open spec fn commits_ahead_spec(dir: Seq<char>, reply: GitReply) -> Result<u32, Seq<char>> {
    match output_of(dir, rev_list_args(), commits_intent(), reply) {
        Ok(stdout) => match parse_u32_spec(crate::text::trim(stdout)) {
            Some(n) => Ok(n),
            None => Err(
                "failed to parse git rev-list --count main..HEAD output: "@ + debug_text(
                    crate::text::trim(stdout),
                ),
            ),
        },
        Err(e) => Err(e),
    }
}

/// The texts of a result with a number in it.
pub open spec fn count_view(r: Result<u32, String>) -> Result<u32, Seq<char>> {
    match r {
        Ok(n) => Ok(n),
        Err(e) => Err(e@),
    }
}

/// Reads the reply to `git rev-list --count main..HEAD`.
pub fn commits_ahead_of_main(worktree_dir: &str, reply: &GitReply) -> (r: Result<u32, String>)
    ensures
        count_view(r) == commits_ahead_spec(worktree_dir@, *reply),
{
    let command: GitCommand = commits_command(worktree_dir);
    match read_output(worktree_dir, &command.args, command.intent.as_str(), reply) {
        Ok(stdout) => {
            let text: Vec<char> = trimmed(&chars_of(stdout.as_str()));
            match parse_u32(&text) {
                Some(n) => Ok(n),
                None => Err(
                    copy("failed to parse git rev-list --count main..HEAD output: ").concat(
                        debug_string(string_of_all(&text).as_str()).as_str(),
                    ),
                ),
            }
        },
        Err(e) => Err(e),
    }
}

/// The diff stat read from the reply to `git diff --stat main..HEAD`.
pub open spec fn diff_stat_spec(dir: Seq<char>, reply: GitReply) -> Result<Seq<char>, Seq<char>> {
    match output_of(dir, diff_stat_args(), diff_stat_intent(), reply) {
        Ok(stdout) => Ok(crate::text::trim(stdout)),
        Err(e) => Err(e),
    }
}

/// Reads the reply to `git diff --stat main..HEAD`. An empty text means that
/// the branch changes no file.
pub fn diff_stat_from_main(worktree_dir: &str, reply: &GitReply) -> (r: Result<String, String>)
    ensures
        result_view(r) == diff_stat_spec(worktree_dir@, *reply),
{
    let command: GitCommand = diff_stat_command(worktree_dir);
    match read_output(worktree_dir, &command.args, command.intent.as_str(), reply) {
        Ok(stdout) => Ok(trimmed_str(stdout.as_str())),
        Err(e) => Err(e),
    }
}

/// The trimmed, non-empty texts among `ls`.
pub open spec fn listed_paths(ls: Seq<Seq<char>>) -> Seq<Seq<char>>
    decreases ls.len(),
{
    if ls.len() == 0 {
        Seq::empty()
    } else {
        let rest = listed_paths(ls.drop_last());
        let line = crate::text::trim(ls.last());
        if line.len() == 0 {
            rest
        } else {
            rest.push(line)
        }
    }
}

/// The paths read from the reply to `git diff --name-only main..HEAD`.
pub open spec fn changed_paths_spec(dir: Seq<char>, reply: GitReply) -> Result<
    Seq<Seq<char>>,
    Seq<char>,
> {
    match output_of(dir, diff_names_args(), diff_names_intent(), reply) {
        Ok(stdout) => Ok(listed_paths(crate::text::lines(stdout))),
        Err(e) => Err(e),
    }
}

/// The texts of a result with a list in it.
pub open spec fn list_view(r: Result<Vec<String>, String>) -> Result<Seq<Seq<char>>, Seq<char>> {
    match r {
        Ok(v) => Ok(crate::text::views(v@)),
        Err(e) => Err(e@),
    }
}

/// Reads the reply to `git diff --name-only main..HEAD`: one path per
/// non-blank line.
pub fn changed_paths_from_main(worktree_dir: &str, reply: &GitReply) -> (r: Result<
    Vec<String>,
    String,
>)
    ensures
        list_view(r) == changed_paths_spec(worktree_dir@, *reply),
{
    let command: GitCommand = diff_names_command(worktree_dir);
    match read_output(worktree_dir, &command.args, command.intent.as_str(), reply) {
        Ok(stdout) => {
            let text: Vec<char> = chars_of(stdout.as_str());
            let ls: Vec<Vec<char>> = split_lines(&text);
            let ghost all = crate::text::lines(text@);
            let mut out: Vec<String> = Vec::new();
            let mut i: usize = 0;
            assert(crate::text::views(out@) == listed_paths(all.take(0)));
            while i < ls.len()
                invariant
                    i <= ls@.len(),
                    ls@.len() == all.len(),
                    forall|k: int| 0 <= k < ls@.len() ==> (#[trigger] ls@[k])@ == all[k],
                    crate::text::views(out@) == listed_paths(all.take(i as int)),
                decreases ls@.len() - i,
            {
                assert(all.take(i + 1).drop_last() == all.take(i as int));
                let line: Vec<char> = trimmed(&ls[i]);
                if line.len() > 0 {
                    let ghost before = out@;
                    out.push(string_of_all(&line));
                    assert(crate::text::views(out@) == crate::text::views(before).push(line@));
                }
                i += 1;
            }
            assert(all.take(i as int) == all);
            Ok(out)
        },
        Err(e) => Err(e),
    }
}

/// Paths that tools leave behind and that are no evidence of work.
pub open spec fn noise_path(names: ClaudeNames, path: Seq<char>) -> bool {
    let first = crate::paths::first_component(path);
    ||| first == ".batty"@
    ||| first == ".batty-target"@
    ||| first == ".agents"@
    ||| first == names.home@
    ||| first == "target"@
    ||| crate::paths::file_name(path) == Some("AGENTS.md"@)
    ||| crate::paths::file_name(path) == Some(names.guide@)
}

/// Tells whether `path` is left behind by tools.
pub fn is_completion_noise_path(names: &ClaudeNames, path: &str) -> (r: bool)
    ensures
        r == noise_path(*names, path@),
{
    let first: String = first_component_of(path);
    let f: &str = first.as_str();
    if same(f, ".batty") || same(f, ".batty-target") || same(f, ".agents") || same(f, names.home.as_str())
        || same(f, "target") {
        return true;
    }
    match file_name_of(path) {
        Some(name) => {
            let n: String = string_of_all(&name);
            same(n.as_str(), "AGENTS.md") || same(n.as_str(), names.guide.as_str())
        },
        None => false,
    }
}

/// Extensions of prose and pictures.
pub open spec fn prose_extension(e: Seq<char>) -> bool {
    ||| e == "md"@
    ||| e == "markdown"@
    ||| e == "rst"@
    ||| e == "adoc"@
    ||| e == "png"@
    ||| e == "jpg"@
    ||| e == "jpeg"@
    ||| e == "gif"@
    ||| e == "svg"@
    ||| e == "webp"@
    ||| e == "bmp"@
    ||| e == "ico"@
    ||| e == "pdf"@
}

/// Paths whose change is no code change.
pub open spec fn non_code_path(path: Seq<char>) -> bool {
    let first = crate::paths::first_component(path);
    ||| crate::paths::file_name(path) == Some("README"@)
    ||| crate::paths::file_name(path) == Some("README.md"@)
    ||| crate::paths::file_name(path) == Some("CHANGELOG.md"@)
    ||| crate::paths::file_name(path) == Some("LICENSE"@)
    ||| crate::paths::file_name(path) == Some("LICENSE.md"@)
    ||| first == "docs"@
    ||| first == "planning"@
    ||| first == "assets"@
    ||| (crate::paths::extension(path) matches Some(e) && prose_extension(e))
}

/// Tells whether a change of `path` is no code change.
pub fn is_non_code_path(path: &str) -> (r: bool)
    ensures
        r == non_code_path(path@),
{
    if let Some(name) = file_name_of(path) {
        let n: String = string_of_all(&name);
        let n: &str = n.as_str();
        if same(n, "README") || same(n, "README.md") || same(n, "CHANGELOG.md") || same(
            n,
            "LICENSE",
        ) || same(n, "LICENSE.md") {
            return true;
        }
    }
    let first: String = first_component_of(path);
    let f: &str = first.as_str();
    if same(f, "docs") || same(f, "planning") || same(f, "assets") {
        return true;
    }
    match extension_of(path) {
        Some(ext) => {
            let e: &str = ext.as_str();
            same(e, "md") || same(e, "markdown") || same(e, "rst") || same(e, "adoc") || same(
                e,
                "png",
            ) || same(e, "jpg") || same(e, "jpeg") || same(e, "gif") || same(e, "svg") || same(
                e,
                "webp",
            ) || same(e, "bmp") || same(e, "ico") || same(e, "pdf")
        },
        None => false,
    }
}

/// The paths that are evidence of work.
pub open spec fn evidence(names: ClaudeNames, paths: Seq<Seq<char>>) -> Seq<Seq<char>> {
    paths.filter(|p: Seq<char>| !noise_path(names, p))
}

/// The paths of code.
pub open spec fn code(paths: Seq<Seq<char>>) -> Seq<Seq<char>> {
    paths.filter(|p: Seq<char>| !non_code_path(p))
}

/// The changed paths that are evidence of work.
pub open spec fn evidence_paths_spec(names: ClaudeNames, dir: Seq<char>, reply: GitReply) -> Result<
    Seq<Seq<char>>,
    Seq<char>,
> {
    match changed_paths_spec(dir, reply) {
        Ok(paths) => Ok(evidence(names, paths)),
        Err(e) => Err(e),
    }
}

/// Reads the changed paths, without those that tools leave behind.
pub fn evidence_paths_from_main(names: &ClaudeNames, worktree_dir: &str, reply: &GitReply) -> (r:
    Result<Vec<String>, String>)
    ensures
        list_view(r) == evidence_paths_spec(*names, worktree_dir@, *reply),
{
    match changed_paths_from_main(worktree_dir, reply) {
        Ok(paths) => {
            let ghost all = crate::text::views(paths@);
            let mut out: Vec<String> = Vec::new();
            let mut i: usize = 0;
            proof {
                reveal(Seq::filter);
                assert(crate::text::views(out@) == evidence(*names, all.take(0)));
            }
            while i < paths.len()
                invariant
                    i <= paths@.len(),
                    all == crate::text::views(paths@),
                    crate::text::views(out@) == evidence(*names, all.take(i as int)),
                decreases paths@.len() - i,
            {
                proof {
                    reveal(Seq::filter);
                    assert(all.take(i + 1).drop_last() == all.take(i as int));
                }
                if !is_completion_noise_path(names, paths[i].as_str()) {
                    let ghost before = out@;
                    out.push(copy(paths[i].as_str()));
                    assert(crate::text::views(out@) == crate::text::views(before).push(
                        all[i as int],
                    ));
                }
                i += 1;
            }
            assert(all.take(i as int) == all);
            Ok(out)
        },
        Err(e) => Err(e),
    }
}

/// The number of changed files that count as evidence.
pub open spec fn files_changed_spec(names: ClaudeNames, dir: Seq<char>, reply: GitReply) -> Result<
    u32,
    Seq<char>,
> {
    match evidence_paths_spec(names, dir, reply) {
        Ok(paths) => Ok(paths.len() as u32),
        Err(e) => Err(e),
    }
}

/// The number of changed code files that count as evidence.
pub open spec fn code_files_changed_spec(
    names: ClaudeNames,
    dir: Seq<char>,
    reply: GitReply,
) -> Result<u32, Seq<char>> {
    match evidence_paths_spec(names, dir, reply) {
        Ok(paths) => Ok(code(paths).len() as u32),
        Err(e) => Err(e),
    }
}

/// Counts the files changed between `main` and the branch, without the paths
/// that tools leave behind.
pub fn files_changed_from_main(names: &ClaudeNames, worktree_dir: &str, reply: &GitReply) -> (r:
    Result<u32, String>)
    ensures
        count_view(r) == files_changed_spec(*names, worktree_dir@, *reply),
{
    match evidence_paths_from_main(names, worktree_dir, reply) {
        Ok(paths) => {
            assert(crate::text::views(paths@).len() == paths@.len());
            Ok(paths.len() as u32)
        },
        Err(e) => Err(e),
    }
}

/// Counts the code files changed between `main` and the branch.
pub fn code_files_changed_from_main(
    names: &ClaudeNames,
    worktree_dir: &str,
    reply: &GitReply,
) -> (r: Result<u32, String>)
    ensures
        count_view(r) == code_files_changed_spec(*names, worktree_dir@, *reply),
{
    match evidence_paths_from_main(names, worktree_dir, reply) {
        Ok(paths) => {
            let ghost all = crate::text::views(paths@);
            let mut count: usize = 0;
            let mut i: usize = 0;
            while i < paths.len()
                invariant
                    i <= paths@.len(),
                    all == crate::text::views(paths@),
                    count <= i,
                    count == code(all.take(i as int)).len(),
                decreases paths@.len() - i,
            {
                proof {
                    reveal(Seq::filter);
                    assert(all.take(i + 1).drop_last() == all.take(i as int));
                }
                if !is_non_code_path(paths[i].as_str()) {
                    count += 1;
                }
                i += 1;
            }
            assert(all.take(i as int) == all);
            Ok(count as u32)
        },
        Err(e) => Err(e),
    }
}

/// The command that discards staged and unstaged changes.
pub open spec fn reset_hard_command(dir: Seq<char>) -> GitCommandView {
    GitCommandView {
        dir,
        args: seq!["reset"@, "--hard"@],
        intent: "discard staged/unstaged changes before worktree reset"@,
    }
}

/// The command that removes untracked files, keeping the tool's own.
pub open spec fn clean_command(dir: Seq<char>) -> GitCommandView {
    GitCommandView {
        dir,
        args: seq!["clean"@, "-fd"@, "--exclude=.batty/"@],
        intent: "remove untracked files before worktree reset"@,
    }
}

/// The views of a sequence of commands.
pub open spec fn command_views(v: Seq<GitCommand>) -> Seq<GitCommandView> {
    Seq::new(v.len(), |i: int| v[i]@)
}

/// The commands that make a worktree clean, to be run in order whatever each
/// of them answers.
pub fn force_clean_worktree(worktree_dir: &str) -> (r: Vec<GitCommand>)
    ensures
        command_views(r@) == seq![reset_hard_command(worktree_dir@), clean_command(worktree_dir@)],
{
    let mut out: Vec<GitCommand> = Vec::new();
    out.push(
        GitCommand {
            dir: copy(worktree_dir),
            args: args2("reset", "--hard"),
            intent: copy("discard staged/unstaged changes before worktree reset"),
        },
    );
    out.push(
        GitCommand {
            dir: copy(worktree_dir),
            args: args3("clean", "-fd", "--exclude=.batty/"),
            intent: copy("remove untracked files before worktree reset"),
        },
    );
    out
}

/// Every file that counts as a code change also counts as a change, and every
/// change is one of the changed paths.
pub proof fn law_code_files_are_files(names: ClaudeNames, paths: Seq<Seq<char>>)
    ensures
        forall|p: Seq<char>|
            code(evidence(names, paths)).contains(p) <==> paths.contains(p) && !noise_path(names, p)
                && !non_code_path(p),
        code(evidence(names, paths)).len() <= evidence(names, paths).len() <= paths.len(),
{
    lemma_kept(paths, |p: Seq<char>| !noise_path(names, p));
    lemma_kept(evidence(names, paths), |p: Seq<char>| !non_code_path(p));
}

pub proof fn lemma_kept(s: Seq<Seq<char>>, keep: spec_fn(Seq<char>) -> bool)
    ensures
        s.filter(keep).len() <= s.len(),
        forall|p: Seq<char>| #[trigger] s.filter(keep).contains(p) <==> s.contains(p) && keep(p),
    decreases s.len(),
{
    reveal(Seq::filter);
    if s.len() > 0 {
        let rest = s.drop_last();
        let kept = rest.filter(keep);
        lemma_kept(rest, keep);
        assert forall|p: Seq<char>| #[trigger] s.filter(keep).contains(p) <==> s.contains(p) && keep(
            p,
        ) by {
            assert(s.contains(p) <==> rest.contains(p) || p == s.last()) by {
                if s.contains(p) {
                    let k = choose|k: int| 0 <= k < s.len() && s[k] == p;
                    if k < rest.len() {
                        assert(rest[k] == p);
                    }
                }
                if rest.contains(p) {
                    let k = choose|k: int| 0 <= k < rest.len() && rest[k] == p;
                    assert(s[k] == p);
                }
                assert(s[s.len() - 1] == s.last());
            }
            if keep(s.last()) {
                assert(kept.push(s.last()).contains(p) <==> kept.contains(p) || p == s.last()) by {
                    let t = kept.push(s.last());
                    if t.contains(p) {
                        let k = choose|k: int| 0 <= k < t.len() && t[k] == p;
                        if k < kept.len() {
                            assert(kept[k] == p);
                        }
                    }
                    if kept.contains(p) {
                        let k = choose|k: int| 0 <= k < kept.len() && kept[k] == p;
                        assert(t[k] == p);
                    }
                    assert(t[kept.len() as int] == s.last());
                }
            }
        }
    }
}

} // verus!
