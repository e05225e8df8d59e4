//! Undoing changes outside a task's scope fence.

use vstd::prelude::*;
use vstd::string::*;

use super::git_ops::{args2, describe_not_run, GitCommand, GitCommandView, GitReply};
use crate::text;
use crate::text::{chars_of, copy, trimmed, trimmed_str};

verus! {

/// Does `main` have the file? Read from the reply to `git ls-tree`.
pub open spec fn exists_on_main(dir: Seq<char>, file: Seq<char>, reply: GitReply) -> Result<
    bool,
    Seq<char>,
> {
    let head = "failed to inspect whether "@ + file + " exists on main in "@ + dir;
    match reply {
        GitReply::NotRun => Err(head),
        GitReply::Ran { success, stdout, stderr } => if success {
            Ok(text::trim(stdout@).len() > 0)
        } else {
            Err(head + ": "@ + text::trim(stderr@))
        },
    }
}

/// The texts of a yes-or-no answer.
pub open spec fn flag_view(r: Result<bool, String>) -> Result<bool, Seq<char>> {
    match r {
        Ok(b) => Ok(b),
        Err(e) => Err(e@),
    }
}

/// Reads whether `main` has the file.
pub fn path_exists_on_main(worktree_dir: &str, file: &str, reply: &GitReply) -> (r: Result<
    bool,
    String,
>)
    ensures
        flag_view(r) == exists_on_main(worktree_dir@, file@, *reply),
{
    let head: String = copy("failed to inspect whether ").concat(file).concat(
        " exists on main in ",
    ).concat(worktree_dir);
    match reply {
        GitReply::NotRun => Err(head),
        GitReply::Ran { success, stdout, stderr } => {
            if *success {
                let out: Vec<char> = trimmed(&chars_of(stdout.as_str()));
                Ok(out.len() > 0)
            } else {
                Err(head.concat(": ").concat(trimmed_str(stderr.as_str()).as_str()))
            }
        },
    }
}

/// Where the recovery stands.
#[derive(Clone, Debug)]
pub enum RevertState<T> {
    /// Is the file at this position on `main`?
    Check { at: usize },
    /// The file at this position is being restored or removed.
    Restore { at: usize, on_main: bool },
    /// Everything is being staged.
    Stage,
    /// Is anything staged?
    Inspect,
    /// The recovery is being committed.
    Commit,
    /// Over; `committed` tells whether a commit was made.
    Done { committed: bool },
    Failed(T),
}

impl RevertState<String> {
    /// The state with the texts that its strings hold.
    pub open spec fn text(self) -> RevertState<Seq<char>> {
        match self {
            RevertState::Check { at } => RevertState::Check { at },
            RevertState::Restore { at, on_main } => RevertState::Restore { at, on_main },
            RevertState::Stage => RevertState::Stage,
            RevertState::Inspect => RevertState::Inspect,
            RevertState::Commit => RevertState::Commit,
            RevertState::Done { committed } => RevertState::Done { committed },
            RevertState::Failed(e) => RevertState::Failed(e@),
        }
    }
}

/// A recovery of no files is over before it begins.
pub fn start_revert(files: &Vec<String>) -> (r: RevertState<String>)
    ensures
        r.text() == (if files@.len() == 0 {
            RevertState::<Seq<char>>::Done { committed: false }
        } else {
            RevertState::Check { at: 0 }
        }),
{
    if files.len() == 0 {
        RevertState::Done { committed: false }
    } else {
        RevertState::Check { at: 0 }
    }
}

/// The subject of the recovery commit.
pub open spec fn recovery_subject() -> Seq<char> {
    "Restore fenced files after automatic scope recovery"@
}

/// The body of the recovery commit.
pub open spec fn recovery_body() -> Seq<char> {
    "Constraint: Scope fence violations must be reverted automatically\nConfidence: medium\nScope-risk: narrow\nDirective: This daemon-owned recovery commit keeps the branch clean after out-of-scope writes\nTested: scope fence auto-revert path\nNot-tested: multi-repo scope recovery"@
}

/// The command that is open in a state, where one is.
pub open spec fn revert_command(
    dir: Seq<char>,
    files: Seq<Seq<char>>,
    state: RevertState<Seq<char>>,
) -> Option<GitCommandView> {
    match state {
        RevertState::Check { at } => if at < files.len() {
            Some(
                GitCommandView {
                    dir,
                    args: seq![
                        "ls-tree"@,
                        "-r"@,
                        "--name-only"@,
                        "main"@,
                        "--"@,
                        files[at as int],
                    ],
                    intent: "inspect whether the file exists on main"@,
                },
            )
        } else {
            None
        },
        RevertState::Restore { at, on_main } => if at < files.len() {
            if on_main {
                Some(
                    GitCommandView {
                        dir,
                        args: seq!["checkout"@, "main"@, "--"@, files[at as int]],
                        intent: "failed to revert out-of-scope file"@,
                    },
                )
            } else {
                Some(
                    GitCommandView {
                        dir,
                        args: seq![
                            "rm"@,
                            "-f"@,
                            "--ignore-unmatch"@,
                            "--"@,
                            files[at as int],
                        ],
                        intent: "failed to remove out-of-scope file added outside the fence"@,
                    },
                )
            }
        } else {
            None
        },
        RevertState::Stage => Some(
            GitCommandView {
                dir,
                args: seq!["add"@, "-A"@],
                intent: "failed to stage scope revert"@,
            },
        ),
        RevertState::Inspect => Some(
            GitCommandView {
                dir,
                args: seq!["diff"@, "--cached"@, "--quiet"@],
                intent: "inspect the staged diff"@,
            },
        ),
        RevertState::Commit => Some(
            GitCommandView {
                dir,
                args: seq!["commit"@, "-m"@, recovery_subject(), "-m"@, recovery_body()],
                intent: "failed to commit scope revert"@,
            },
        ),
        _ => None,
    }
}

/// The view of an optional command.
pub open spec fn command_view(c: Option<GitCommand>) -> Option<GitCommandView> {
    match c {
        Some(x) => Some(x@),
        None => None,
    }
}

/// The command that is open in `state`, where one is.
pub fn revert_request(worktree_dir: &str, files: &Vec<String>, state: &RevertState<String>) -> (r:
    Option<GitCommand>)
    ensures
        command_view(r) == revert_command(worktree_dir@, text::views(files@), state.text()),
{
    let mut args: Vec<String> = Vec::new();
    match state {
        RevertState::Check { at } => {
            if *at < files.len() {
                let file: &str = files[*at].as_str();
                args.push(copy("ls-tree"));
                args.push(copy("-r"));
                args.push(copy("--name-only"));
                args.push(copy("main"));
                args.push(copy("--"));
                args.push(copy(file));
                assert(text::views(args@) == seq![
                    "ls-tree"@,
                    "-r"@,
                    "--name-only"@,
                    "main"@,
                    "--"@,
                    file@,
                ]);
                Some(
                    GitCommand {
                        dir: copy(worktree_dir),
                        args,
                        intent: copy("inspect whether the file exists on main"),
                    },
                )
            } else {
                None
            }
        },
        RevertState::Restore { at, on_main } => {
            if *at < files.len() {
                let file: &str = files[*at].as_str();
                if *on_main {
                    args.push(copy("checkout"));
                    args.push(copy("main"));
                    args.push(copy("--"));
                    args.push(copy(file));
                    assert(text::views(args@) == seq!["checkout"@, "main"@, "--"@, file@]);
                    Some(
                        GitCommand {
                            dir: copy(worktree_dir),
                            args,
                            intent: copy("failed to revert out-of-scope file"),
                        },
                    )
                } else {
                    args.push(copy("rm"));
                    args.push(copy("-f"));
                    args.push(copy("--ignore-unmatch"));
                    args.push(copy("--"));
                    args.push(copy(file));
                    assert(text::views(args@) == seq![
                        "rm"@,
                        "-f"@,
                        "--ignore-unmatch"@,
                        "--"@,
                        file@,
                    ]);
                    Some(
                        GitCommand {
                            dir: copy(worktree_dir),
                            args,
                            intent: copy(
                                "failed to remove out-of-scope file added outside the fence",
                            ),
                        },
                    )
                }
            } else {
                None
            }
        },
        RevertState::Stage => Some(
            GitCommand {
                dir: copy(worktree_dir),
                args: args2("add", "-A"),
                intent: copy("failed to stage scope revert"),
            },
        ),
        RevertState::Inspect => Some(
            GitCommand {
                dir: copy(worktree_dir),
                args: super::git_ops::args3("diff", "--cached", "--quiet"),
                intent: copy("inspect the staged diff"),
            },
        ),
        RevertState::Commit => {
            args.push(copy("commit"));
            args.push(copy("-m"));
            args.push(copy("Restore fenced files after automatic scope recovery"));
            args.push(copy("-m"));
            args.push(
                copy(
                    "Constraint: Scope fence violations must be reverted automatically\nConfidence: medium\nScope-risk: narrow\nDirective: This daemon-owned recovery commit keeps the branch clean after out-of-scope writes\nTested: scope fence auto-revert path\nNot-tested: multi-repo scope recovery",
                ),
            );
            assert(text::views(args@) == seq![
                "commit"@,
                "-m"@,
                recovery_subject(),
                "-m"@,
                recovery_body(),
            ]);
            Some(
                GitCommand {
                    dir: copy(worktree_dir),
                    args,
                    intent: copy("failed to commit scope revert"),
                },
            )
        },
        _ => None,
    }
}

/// The failure of the open command to start.
pub open spec fn revert_not_run(
    dir: Seq<char>,
    files: Seq<Seq<char>>,
    state: RevertState<Seq<char>>,
) -> RevertState<Seq<char>> {
    match revert_command(dir, files, state) {
        Some(c) => RevertState::Failed(super::git_ops::not_run_text(c.dir, c.args, c.intent)),
        None => state,
    }
}

/// The state that follows a reply.
pub open spec fn revert_next(
    dir: Seq<char>,
    files: Seq<Seq<char>>,
    state: RevertState<Seq<char>>,
    reply: GitReply,
) -> RevertState<Seq<char>> {
    match state {
        RevertState::Check { at } => if at < files.len() {
            match exists_on_main(dir, files[at as int], reply) {
                Ok(on_main) => RevertState::Restore { at, on_main },
                Err(e) => RevertState::Failed(e),
            }
        } else {
            state
        },
        RevertState::Restore { at, .. } => if at < files.len() {
            if reply is NotRun {
                revert_not_run(dir, files, state)
            } else if at + 1 < files.len() {
                RevertState::Check { at: (at + 1) as usize }
            } else {
                RevertState::Stage
            }
        } else {
            state
        },
        RevertState::Stage => if reply is NotRun {
            revert_not_run(dir, files, state)
        } else {
            RevertState::Inspect
        },
        RevertState::Inspect => match reply {
            GitReply::NotRun => RevertState::Failed("failed to inspect staged diff in "@ + dir),
            GitReply::Ran { success, .. } => if success {
                RevertState::Done { committed: false }
            } else {
                RevertState::Commit
            },
        },
        RevertState::Commit => if reply is NotRun {
            revert_not_run(dir, files, state)
        } else {
            RevertState::Done { committed: true }
        },
        _ => state,
    }
}

fn fail_to_run(worktree_dir: &str, files: &Vec<String>, state: &RevertState<String>) -> (r:
    RevertState<String>)
    requires
        revert_command(worktree_dir@, text::views(files@), state.text()) is Some,
    ensures
        r.text() == revert_not_run(worktree_dir@, text::views(files@), state.text()),
{
    match revert_request(worktree_dir, files, state) {
        Some(c) => RevertState::Failed(
            describe_not_run(c.dir.as_str(), &c.args, c.intent.as_str()),
        ),
        None => RevertState::Stage,
    }
}

/// Advances the recovery by one reply: each file outside the fence is put
/// back to `main`'s version, or removed where `main` has none, and the result
/// is committed where anything changed.
pub fn revert_out_of_scope_files(
    worktree_dir: &str,
    files: &Vec<String>,
    state: &RevertState<String>,
    reply: &GitReply,
) -> (r: RevertState<String>)
    ensures
        r.text() == revert_next(worktree_dir@, text::views(files@), state.text(), *reply),
{
    let ran: bool = match reply {
        GitReply::NotRun => false,
        _ => true,
    };
    match state {
        RevertState::Check { at } => {
            if *at < files.len() {
                match path_exists_on_main(worktree_dir, files[*at].as_str(), reply) {
                    Ok(on_main) => RevertState::Restore { at: *at, on_main },
                    Err(e) => RevertState::Failed(e),
                }
            } else {
                RevertState::Check { at: *at }
            }
        },
        RevertState::Restore { at, on_main } => {
            if *at < files.len() {
                if !ran {
                    fail_to_run(worktree_dir, files, state)
                } else if *at + 1 < files.len() {
                    RevertState::Check { at: *at + 1 }
                } else {
                    RevertState::Stage
                }
            } else {
                RevertState::Restore { at: *at, on_main: *on_main }
            }
        },
        RevertState::Stage => {
            if !ran {
                fail_to_run(worktree_dir, files, state)
            } else {
                RevertState::Inspect
            }
        },
        RevertState::Inspect => match reply {
            GitReply::NotRun => RevertState::Failed(
                copy("failed to inspect staged diff in ").concat(worktree_dir),
            ),
            GitReply::Ran { success, .. } => {
                if *success {
                    RevertState::Done { committed: false }
                } else {
                    RevertState::Commit
                }
            },
        },
        RevertState::Commit => {
            if !ran {
                fail_to_run(worktree_dir, files, state)
            } else {
                RevertState::Done { committed: true }
            }
        },
        RevertState::Done { committed } => RevertState::Done { committed: *committed },
        RevertState::Failed(e) => RevertState::Failed(e.clone()),
    }
}

/// A file that `main` has is restored, and one that it lacks is removed; no
/// other command touches a file.
pub proof fn law_recovery_follows_main(
    dir: Seq<char>,
    files: Seq<Seq<char>>,
    at: usize,
    reply: GitReply,
)
    requires
        at < files.len(),
        exists_on_main(dir, files[at as int], reply) is Ok,
    ensures
        ({
            let next = revert_next(dir, files, RevertState::Check { at }, reply);
            let on_main = exists_on_main(dir, files[at as int], reply)->Ok_0;
            &&& revert_command(dir, files, next) is Some
            &&& on_main ==> revert_command(dir, files, next)->Some_0.args == seq![
                "checkout"@,
                "main"@,
                "--"@,
                files[at as int],
            ]
            &&& !on_main ==> revert_command(dir, files, next)->Some_0.args == seq![
                "rm"@,
                "-f"@,
                "--ignore-unmatch"@,
                "--"@,
                files[at as int],
            ]
        }),
{
}

} // verus!
