//! The script that a member is launched with, and the files around it.

use vstd::prelude::*;
use vstd::string::*;

use crate::paths;
use crate::paths::{file_name_of, joined, team_config_dir};
use crate::sessions;
use crate::sessions::codex_context_dir;
use crate::text;
use crate::text::{copy, same, string_of_all, trimmed_str};

verus! {

/// The name of a project in file names.
pub open spec fn slug(project_root: Seq<char>) -> Seq<char> {
    match paths::file_name(project_root) {
        Some(name) => name,
        None => "default"@,
    }
}

fn project_slug(project_root: &str) -> (r: String)
    ensures
        r@ == slug(project_root@),
{
    match file_name_of(project_root) {
        Some(name) => string_of_all(&name),
        None => copy("default"),
    }
}

/// The agent is Codex.
pub open spec fn is_codex(agent: Seq<char>) -> bool {
    agent == "codex"@ || agent == "codex-cli"@
}

/// Where an agent is started: Codex in its context directory, others where
/// the member works.
pub fn launch_dir(agent_name: &str, member_name: &str, work_dir: &str) -> (r: String)
    ensures
        r@ == (if is_codex(agent_name@) {
            sessions::codex_context_path(work_dir@, member_name@)
        } else {
            work_dir@
        }),
{
    if same(agent_name, "codex") || same(agent_name, "codex-cli") {
        codex_context_dir(work_dir, member_name)
    } else {
        copy(work_dir)
    }
}

/// The role of a member, as Codex reads it from its context directory: the
/// file and what it holds, where there is a role to tell.
pub fn prepare_codex_context(member_name: &str, role_context: &Option<String>, work_dir: &str) -> (r:
    (String, Option<(String, String)>))
    ensures
        r.0@ == sessions::codex_context_path(work_dir@, member_name@),
        r.1 is Some <==> role_context is Some,
        r.1 matches Some((path, content)) ==> path@ == paths::join_path(r.0@, "AGENTS.md"@)
            && content@ == "# Batty Role Context: "@ + member_name@
            + "\n\nThis file is generated by Batty for the Codex agent running as `"@ + member_name@
            + "`.\nFollow these instructions in addition to any repository-level `AGENTS.md` files.\n\n"@
            + role_context->Some_0@ + "\n"@,
{
    let dir: String = codex_context_dir(work_dir, member_name);
    let file: Option<(String, String)> = match role_context {
        Some(role) => Some(
            (
                joined(dir.as_str(), "AGENTS.md"),
                copy("# Batty Role Context: ").concat(member_name).concat(
                    "\n\nThis file is generated by Batty for the Codex agent running as `",
                ).concat(member_name).concat(
                    "`.\nFollow these instructions in addition to any repository-level `AGENTS.md` files.\n\n",
                ).concat(role.as_str()).concat("\n"),
            ),
        ),
        None => None,
    };
    (dir, file)
}

/// Where a program is: what was found for it, else its bare name.
pub fn resolve_binary(name: &str, found: &Option<String>) -> (r: String)
    ensures
        r@ == (match found {
            Some(out) => text::trim(out@),
            None => name@,
        }),
{
    match found {
        Some(out) => trimmed_str(out.as_str()),
        None => copy(name),
    }
}

/// A launch script and the wrappers that it puts on the path.
#[derive(Clone, Debug)]
pub struct LaunchScript {
    pub script_path: String,
    pub script: String,
    pub wrapper_dir: String,
    pub kanban_path: String,
    pub kanban_wrapper: String,
    pub batty_path: String,
    pub batty_wrapper: String,
    /// The command that runs the script.
    pub short_cmd: String,
}

/// This is the launch script of a member.
pub open spec fn is_launch_script(
    s: LaunchScript,
    member: Seq<char>,
    project_root: Seq<char>,
    temp_dir: Seq<char>,
    dir: Seq<char>,
    agent_cmd: Seq<char>,
    kanban: Seq<char>,
    batty: Seq<char>,
) -> bool {
    &&& s.script_path@ == paths::join_path(
        temp_dir,
        "batty-launch-"@ + slug(project_root) + "-"@ + member + ".sh"@,
    )
    &&& s.wrapper_dir@ == paths::join_path(
        temp_dir,
        "batty-bin-"@ + slug(project_root) + "-"@ + member,
    )
    &&& s.kanban_path@ == paths::join_path(s.wrapper_dir@, "kanban-md"@)
    &&& s.kanban_wrapper@ == "#!/bin/bash\nexec '"@ + kanban + "' \"$@\" --dir '"@
        + paths::join_path(paths::team_config_dir_path(project_root), "board"@) + "'\n"@
    &&& s.batty_path@ == paths::join_path(s.wrapper_dir@, "batty"@)
    &&& s.batty_wrapper@ == "#!/bin/bash\nexec '"@ + batty + "' \"$@\"\n"@
    &&& s.script@ == "#!/bin/bash\nexport PATH='"@ + s.wrapper_dir@
        + "':\"$PATH\"\nexport BATTY_MEMBER='"@ + member + "'\ncd '"@ + dir + "'\n"@ + agent_cmd
        + "\n"@
    &&& s.short_cmd@ == "bash '"@ + s.script_path@ + "'"@
}

/// Writes the launch script of a member: it puts the wrappers on the path,
/// names the member, enters the directory and starts the agent.
pub fn write_launch_script(
    member_name: &str,
    project_root: &str,
    temp_dir: &str,
    launch_dir: &str,
    agent_cmd: &str,
    real_kanban: &str,
    real_batty: &str,
) -> (r: LaunchScript)
    ensures
        is_launch_script(
            r,
            member_name@,
            project_root@,
            temp_dir@,
            launch_dir@,
            agent_cmd@,
            real_kanban@,
            real_batty@,
        ),
{
    let project: String = project_slug(project_root);
    let script_path: String = joined(
        temp_dir,
        copy("batty-launch-").concat(project.as_str()).concat("-").concat(member_name).concat(
            ".sh",
        ).as_str(),
    );
    let wrapper_dir: String = joined(
        temp_dir,
        copy("batty-bin-").concat(project.as_str()).concat("-").concat(member_name).as_str(),
    );
    let board_dir: String = joined(team_config_dir(project_root).as_str(), "board");
    LaunchScript {
        kanban_path: joined(wrapper_dir.as_str(), "kanban-md"),
        kanban_wrapper: copy("#!/bin/bash\nexec '").concat(real_kanban).concat(
            "' \"$@\" --dir '",
        ).concat(board_dir.as_str()).concat("'\n"),
        batty_path: joined(wrapper_dir.as_str(), "batty"),
        batty_wrapper: copy("#!/bin/bash\nexec '").concat(real_batty).concat("' \"$@\"\n"),
        script: copy("#!/bin/bash\nexport PATH='").concat(wrapper_dir.as_str()).concat(
            "':\"$PATH\"\nexport BATTY_MEMBER='",
        ).concat(member_name).concat("'\ncd '").concat(launch_dir).concat("'\n").concat(
            agent_cmd,
        ).concat("\n"),
        short_cmd: copy("bash '").concat(script_path.as_str()).concat("'"),
        script_path,
        wrapper_dir,
    }
}

} // verus!
