//! Sessions of agents: which one a member can go on with.

use vstd::prelude::*;
use vstd::string::*;

use crate::launch_state::LaunchIdentity;
use crate::paths;
use crate::paths::{extension_of, joined, stem_of, worktree_dir};
use crate::team::{ClaudeNames, MemberInstance};
use crate::text;
use crate::text::{chars_of, copy, is_among, same, split_lines, string_of_all, trimmed};

verus! {

// ---------------------------------------------------------------------------
// Agents

/// The name by which an agent goes in the launch state; a name that is not
/// known stands for itself.
pub open spec fn canonical(names: ClaudeNames, agent: Seq<char>) -> Seq<char> {
    if agent == names.agent@ || agent == names.adapter@ {
        names.adapter@
    } else if agent == "codex"@ || agent == "codex-cli"@ {
        "codex-cli"@
    } else if agent == "kiro"@ || agent == "kiro-cli"@ {
        "kiro-cli"@
    } else {
        agent
    }
}

/// The name by which an agent goes in the launch state.
pub fn canonical_agent_name(names: &ClaudeNames, agent_name: &str) -> (r: String)
    ensures
        r@ == canonical(*names, agent_name@),
{
    if same(agent_name, names.agent.as_str()) || same(agent_name, names.adapter.as_str()) {
        copy(names.adapter.as_str())
    } else if same(agent_name, "codex") || same(agent_name, "codex-cli") {
        copy("codex-cli")
    } else if same(agent_name, "kiro") || same(agent_name, "kiro-cli") {
        copy("kiro-cli")
    } else {
        copy(agent_name)
    }
}

/// The name by which a shim knows an agent.
pub open spec fn shim_type(names: ClaudeNames, agent: Seq<char>) -> Seq<char> {
    let name = canonical(names, agent);
    if name == names.adapter@ {
        names.agent@
    } else if name == "codex-cli"@ {
        "codex"@
    } else if name == "kiro-cli"@ {
        "kiro"@
    } else {
        name
    }
}

/// The name by which a shim knows an agent.
pub fn shim_agent_type_name(names: &ClaudeNames, agent_name: &str) -> (r: String)
    ensures
        r@ == shim_type(*names, agent_name@),
{
    let name: String = canonical_agent_name(names, agent_name);
    if same(name.as_str(), names.adapter.as_str()) {
        copy(names.agent.as_str())
    } else if same(name.as_str(), "codex-cli") {
        copy("codex")
    } else if same(name.as_str(), "kiro-cli") {
        copy("kiro")
    } else {
        name
    }
}

/// A digit of a number to the base of sixteen, in lower case.
pub open spec fn is_hex(c: char) -> bool {
    '0' <= c <= '9' || 'a' <= c <= 'f'
}

/// The form of a random id: groups of eight, four, four, four and twelve
/// digits with dashes between them; the third group starts with the version
/// of random ids, and the fourth with their variant.
pub open spec fn is_random_id(s: Seq<char>) -> bool {
    &&& s.len() == 36
    &&& forall|i: int|
        0 <= i < 36 ==> if i == 8 || i == 13 || i == 18 || i == 23 {
            #[trigger] s[i] == '-'
        } else {
            is_hex(s[i])
        }
    &&& s[14] == '4'
    &&& (s[19] == '8' || s[19] == '9' || s[19] == 'a' || s[19] == 'b')
}

/// A random id, by `uuid::Uuid::new_v4`, written with `to_string`. The
/// contract says what form every such id has, and nothing of which one comes
/// out.
#[verifier::external_body]
pub(crate) fn random_id() -> (r: String)
    ensures
        is_random_id(r@),
{
    uuid::Uuid::new_v4().to_string()
}

/// The agent is given its session before it starts.
pub open spec fn takes_session(names: ClaudeNames, agent: Seq<char>) -> bool {
    canonical(names, agent) == names.adapter@ || canonical(names, agent) == "kiro-cli"@
}

/// A new session for agents that are given one before they start.
pub fn new_member_session_id(names: &ClaudeNames, agent_name: &str) -> (r: Option<String>)
    ensures
        r is Some <==> takes_session(*names, agent_name@),
        r matches Some(id) ==> is_random_id(id@),
{
    let name: String = canonical_agent_name(names, agent_name);
    if same(name.as_str(), names.adapter.as_str()) || same(name.as_str(), "kiro-cli") {
        Some(random_id())
    } else {
        None
    }
}

// ---------------------------------------------------------------------------
// Session files

/// What serde_json reads from a text at a JSON pointer: nothing where the
/// text is no JSON; else the string there, where there is one.
pub uninterp spec fn json_text(line: Seq<char>, pointer: Seq<char>) -> Option<Option<Seq<char>>>;

/// The texts of an optional optional string.
pub open spec fn opt_opt_view(x: Option<Option<String>>) -> Option<Option<Seq<char>>> {
    match x {
        Some(y) => Some(paths::opt_view(y)),
        None => None,
    }
}

/// Reads a string from JSON, by `serde_json::from_str` into a
/// `serde_json::Value`, then `Value::pointer` and `Value::as_str`. The
/// contract says that the result depends on the text and the pointer alone.
#[verifier::external_body]
fn read_json_text(line: &str, pointer: &str) -> (r: Option<Option<String>>)
    ensures
        opt_opt_view(r) == json_text(line@, pointer@),
{
    let value: serde_json::Value = serde_json::from_str(line).ok()?;
    Some(value.pointer(pointer).and_then(|v| v.as_str()).map(|s| s.to_string()))
}

/// What is read of a line of a session file.
#[derive(Clone, Debug)]
pub struct SessionLine {
    /// The type of the line's record, where the line is JSON and says so.
    pub kind: Option<Option<String>>,
    /// The id in its payload, where the line is JSON and says so.
    pub id: Option<Option<String>>,
}

/// The id in the first of the lines that describes the session.
pub open spec fn described_id(lines: Seq<SessionLine>, from: int) -> Option<Seq<char>>
    decreases lines.len() - from,
{
    if from < 0 || from >= lines.len() {
        None
    } else if opt_opt_view(lines[from].kind) == Some(Some("session_meta"@)) {
        match lines[from].id {
            Some(id) => paths::opt_view(id),
            None => None,
        }
    } else {
        described_id(lines, from + 1)
    }
}

/// The id in the first of the lines that describes the session.
pub fn session_meta_id(lines: &Vec<SessionLine>) -> (r: Option<String>)
    ensures
        paths::opt_view(r) == described_id(lines@, 0),
{
    let mut i: usize = 0;
    while i < lines.len()
        invariant
            i <= lines@.len(),
            described_id(lines@, 0) == described_id(lines@, i as int),
        decreases lines@.len() - i,
    {
        let is_meta: bool = match &lines[i].kind {
            Some(Some(kind)) => same(kind.as_str(), "session_meta"),
            _ => false,
        };
        if is_meta {
            return match &lines[i].id {
                Some(Some(id)) => Some(copy(id.as_str())),
                _ => None,
            };
        }
        i += 1;
    }
    None
}

/// What is read of the lines of a session file that are not blank.
pub open spec fn are_session_lines(lines: Seq<SessionLine>, contents: Seq<char>) -> bool {
    let all = unblank(text::lines(contents));
    &&& lines.len() == all.len()
    &&& forall|i: int|
        0 <= i < lines.len() ==> opt_opt_view((#[trigger] lines[i]).kind) == json_text(
            all[i],
            "/type"@,
        ) && opt_opt_view(lines[i].id) == json_text(all[i], "/payload/id"@)
}

/// The lines that are not blank, as they stand.
pub open spec fn unblank(lines: Seq<Seq<char>>) -> Seq<Seq<char>>
    decreases lines.len(),
{
    if lines.len() == 0 {
        Seq::empty()
    } else if text::trim(lines.last()).len() == 0 {
        unblank(lines.drop_last())
    } else {
        unblank(lines.drop_last()).push(lines.last())
    }
}

/// Reads what session lines say.
pub fn read_session_lines(contents: &str) -> (r: Vec<SessionLine>)
    ensures
        are_session_lines(r@, contents@),
{
    let lines: Vec<Vec<char>> = split_lines(&chars_of(contents));
    let ghost all = text::lines(contents@);
    let mut out: Vec<SessionLine> = Vec::new();
    let mut i: usize = 0;
    while i < lines.len()
        invariant
            i <= lines@.len(),
            all.len() == lines@.len(),
            forall|k: int| 0 <= k < lines@.len() ==> (#[trigger] lines@[k])@ == all[k],
            out@.len() == unblank(all.take(i as int)).len(),
            forall|k: int|
                0 <= k < out@.len() ==> opt_opt_view((#[trigger] out@[k]).kind) == json_text(
                    unblank(all.take(i as int))[k],
                    "/type"@,
                ) && opt_opt_view(out@[k].id) == json_text(
                    unblank(all.take(i as int))[k],
                    "/payload/id"@,
                ),
        decreases lines@.len() - i,
    {
        assert(all.take(i + 1).drop_last() == all.take(i as int));
        let line: &Vec<char> = &lines[i];
        assert(line@ == all[i as int]);
        if trimmed(line).len() > 0 {
            let s: String = string_of_all(line);
            out.push(
                SessionLine {
                    kind: read_json_text(s.as_str(), "/type"),
                    id: read_json_text(s.as_str(), "/payload/id"),
                },
            );
        }
        i += 1;
    }
    assert(all.take(i as int) == all);
    out
}

/// The id that a session file of Codex gives its session.
pub fn read_codex_session_meta_id(contents: &str) -> (r: Option<String>)
    ensures
        exists|lines: Seq<SessionLine>| #[trigger]
            are_session_lines(lines, contents@) && paths::opt_view(r) == described_id(lines, 0),
{
    let lines: Vec<SessionLine> = read_session_lines(contents);
    session_meta_id(&lines)
}

/// A session file of Codex: the name that it has, and the id that it gives.
#[derive(Clone, Debug)]
pub struct CodexSession {
    pub file_id: Option<String>,
    pub meta_id: Option<String>,
}

/// The session of a file, where it is a session file; `contents` is what
/// could be read of it.
pub fn codex_session_of(path: &str, contents: &Option<String>) -> (r: Option<CodexSession>)
    ensures
        r is Some <==> paths::extension(path@) == Some("jsonl"@),
        r matches Some(s) ==> paths::opt_view(s.file_id) == paths::stem(path@) && (match contents {
            Some(c) => exists|lines: Seq<SessionLine>| #[trigger]
                are_session_lines(lines, c@) && paths::opt_view(s.meta_id) == described_id(
                    lines,
                    0,
                ),
            None => s.meta_id is None,
        }),
{
    let is_session: bool = match extension_of(path) {
        Some(ext) => same(ext.as_str(), "jsonl"),
        None => false,
    };
    if !is_session {
        return None;
    }
    let meta_id: Option<String> = match contents {
        Some(c) => read_codex_session_meta_id(c.as_str()),
        None => None,
    };
    Some(CodexSession { file_id: stem_of(path), meta_id })
}

/// The session is known by this id.
pub open spec fn is_known_as(s: CodexSession, id: Seq<char>) -> bool {
    paths::opt_view(s.file_id) == Some(id) || paths::opt_view(s.meta_id) == Some(id)
}

/// The id to go on with, of the first session that is known by this one: the
/// id that its file gives, else the file's name.
pub open spec fn resumable(sessions: Seq<CodexSession>, id: Seq<char>, from: int) -> Option<
    Seq<char>,
>
    decreases sessions.len() - from,
{
    if from < 0 || from >= sessions.len() {
        None
    } else if is_known_as(sessions[from], id) {
        match sessions[from].meta_id {
            Some(m) => Some(m@),
            None => paths::opt_view(sessions[from].file_id),
        }
    } else {
        resumable(sessions, id, from + 1)
    }
}

fn names_session(x: &Option<String>, id: &str) -> (r: bool)
    ensures
        r == (paths::opt_view(*x) == Some(id@)),
{
    match x {
        Some(s) => same(s.as_str(), id),
        None => false,
    }
}

/// The id with which Codex can go on, for the id of a session or the name of
/// its file, among the session files in the order in which they were found.
pub fn codex_resume_session_id_in(sessions: &Vec<CodexSession>, session_id: &str) -> (r: Option<
    String,
>)
    ensures
        paths::opt_view(r) == resumable(sessions@, session_id@, 0),
{
    let mut i: usize = 0;
    while i < sessions.len()
        invariant
            i <= sessions@.len(),
            resumable(sessions@, session_id@, 0) == resumable(sessions@, session_id@, i as int),
        decreases sessions@.len() - i,
    {
        let s: &CodexSession = &sessions[i];
        if names_session(&s.file_id, session_id) || names_session(&s.meta_id, session_id) {
            return match &s.meta_id {
                Some(m) => Some(copy(m.as_str())),
                None => match &s.file_id {
                    Some(f) => Some(copy(f.as_str())),
                    None => None,
                },
            };
        }
        i += 1;
    }
    None
}

/// Tells whether a session of Codex is known by this id.
pub fn codex_session_id_exists_in(sessions: &Vec<CodexSession>, session_id: &str) -> (r: bool)
    ensures
        r == (resumable(sessions@, session_id@, 0) is Some),
{
    codex_resume_session_id_in(sessions, session_id).is_some()
}

/// Tells whether one of the project directories holds a session file of this
/// id; `projects` lists the files of each.
pub fn claude_session_id_exists_in(projects: &Vec<Vec<String>>, session_id: &str) -> (r: bool)
    ensures
        r <==> exists|i: int|
            0 <= i < projects@.len() && text::views((#[trigger] projects@[i])@).contains(
                session_id@ + ".jsonl"@,
            ),
{
    let file: String = copy(session_id).concat(".jsonl");
    let mut i: usize = 0;
    while i < projects.len()
        invariant
            i <= projects@.len(),
            file@ == session_id@ + ".jsonl"@,
            forall|k: int|
                0 <= k < i ==> !text::views((#[trigger] projects@[k])@).contains(
                    session_id@ + ".jsonl"@,
                ),
        decreases projects@.len() - i,
    {
        if is_among(&projects[i], file.as_str()) {
            assert(text::views(projects@[i as int]@).contains(session_id@ + ".jsonl"@));
            return true;
        }
        i += 1;
    }
    false
}

/// The user's home, or the root where none is known.
pub open spec fn home_or_root(home: Option<Seq<char>>) -> Seq<char> {
    match home {
        Some(h) => h,
        None => "/"@,
    }
}

fn home_dir(home: &Option<String>) -> (r: String)
    ensures
        r@ == home_or_root(paths::opt_view(*home)),
{
    match home {
        Some(h) => copy(h.as_str()),
        None => copy("/"),
    }
}

/// Where the default agent keeps its sessions, by project.
pub fn default_claude_projects_root(names: &ClaudeNames, home: &Option<String>) -> (r: String)
    ensures
        r@ == paths::join_path(
            paths::join_path(home_or_root(paths::opt_view(*home)), names.home@),
            "projects"@,
        ),
{
    joined(joined(home_dir(home).as_str(), names.home.as_str()).as_str(), "projects")
}

/// Where Codex keeps its sessions, by year, month and day.
pub fn default_codex_sessions_root(home: &Option<String>) -> (r: String)
    ensures
        r@ == paths::join_path(
            paths::join_path(home_or_root(paths::opt_view(*home)), ".codex"@),
            "sessions"@,
        ),
{
    joined(joined(home_dir(home).as_str(), ".codex").as_str(), "sessions")
}

/// The session that a member can go on with, for the one that was saved.
pub open spec fn resolved_session(
    agent: Seq<char>,
    id: Seq<char>,
    codex: Seq<CodexSession>,
    claude_has_it: bool,
) -> Option<Seq<char>> {
    if agent == "codex-cli"@ {
        resumable(codex, id, 0)
    } else if agent == "kiro-cli"@ {
        if id.len() > 0 {
            Some(id)
        } else {
            None
        }
    } else if claude_has_it {
        Some(id)
    } else {
        None
    }
}

/// The session that a member can go on with: for Codex among its session
/// files, for Kiro any, and for others where there is a session file.
pub fn resolve_session_id(
    agent_name: &str,
    session_id: &str,
    codex: &Vec<CodexSession>,
    claude_has_it: bool,
) -> (r: Option<String>)
    ensures
        paths::opt_view(r) == resolved_session(agent_name@, session_id@, codex@, claude_has_it),
{
    if same(agent_name, "codex-cli") {
        codex_resume_session_id_in(codex, session_id)
    } else if same(agent_name, "kiro-cli") {
        if session_id.unicode_len() > 0 {
            Some(copy(session_id))
        } else {
            None
        }
    } else if claude_has_it {
        Some(copy(session_id))
    } else {
        None
    }
}

// ---------------------------------------------------------------------------
// Decisions

/// Whether a member resumes, and in which session: `fresh` is the new one
/// that some agents are given before they start.
pub open spec fn launch_session(
    agent: Seq<char>,
    has_saved_session: bool,
    resume_requested: bool,
    resolved: Option<Seq<char>>,
    is_duplicate: bool,
    fresh: Option<Seq<char>>,
) -> (bool, Option<Seq<char>>) {
    if agent == "codex-cli"@ {
        if resume_requested && !is_duplicate && has_saved_session && resolved is Some {
            (true, resolved)
        } else {
            (false, None)
        }
    } else if agent == "kiro-cli"@ {
        (false, fresh)
    } else if fresh is None {
        (resume_requested, None)
    } else if resume_requested && !is_duplicate && resolved is Some {
        (true, resolved)
    } else {
        (false, fresh)
    }
}

/// Decides whether a member resumes, and in which session, given the new one.
pub fn choose_launch_session(
    agent_name: &str,
    previous_identity: &Option<LaunchIdentity>,
    resume_requested: bool,
    resolved_previous_session_id: Option<String>,
    duplicate_session_id: bool,
    fresh: Option<String>,
) -> (r: (bool, Option<String>))
    ensures
        (r.0, paths::opt_view(r.1)) == launch_session(
            agent_name@,
            has_saved_session(*previous_identity),
            resume_requested,
            paths::opt_view(resolved_previous_session_id),
            duplicate_session_id,
            paths::opt_view(fresh),
        ),
{
    if same(agent_name, "codex-cli") {
        if !resume_requested || duplicate_session_id {
            return (false, None);
        }
        let is_saved: bool = match previous_identity {
            Some(x) => x.session_id.is_some(),
            None => false,
        };
        if is_saved {
            if let Some(id) = resolved_previous_session_id {
                return (true, Some(id));
            }
        }
        return (false, None);
    }
    if same(agent_name, "kiro-cli") {
        return (false, fresh);
    }
    if fresh.is_none() {
        return (resume_requested, None);
    }
    if !resume_requested || duplicate_session_id {
        return (false, fresh);
    }
    match resolved_previous_session_id {
        Some(id) => (true, Some(id)),
        None => (false, fresh),
    }
}

/// The identity holds a session.
pub open spec fn has_saved_session(x: Option<LaunchIdentity>) -> bool {
    x is Some && x->Some_0.session_id is Some
}

/// A new session for this agent, as far as one is made.
pub open spec fn is_fresh_session(
    names: ClaudeNames,
    agent: Seq<char>,
    fresh: Option<Seq<char>>,
) -> bool {
    (fresh is Some <==> takes_session(names, agent)) && (fresh matches Some(id) ==> is_random_id(id))
}

/// Decides whether a member resumes, and in which session.
pub fn resolve_member_launch_session(
    names: &ClaudeNames,
    agent_name: &str,
    previous_identity: &Option<LaunchIdentity>,
    resume_requested: bool,
    resolved_previous_session_id: Option<String>,
    duplicate_session_id: bool,
) -> (r: (bool, Option<String>))
    ensures
        exists|fresh: Option<Seq<char>>| #[trigger]
            is_fresh_session(*names, agent_name@, fresh) && (r.0, paths::opt_view(r.1))
                == launch_session(
                agent_name@,
                has_saved_session(*previous_identity),
                resume_requested,
                paths::opt_view(resolved_previous_session_id),
                duplicate_session_id,
                fresh,
            ),
{
    let fresh: Option<String> = new_member_session_id(names, agent_name);
    assert(is_fresh_session(*names, agent_name@, paths::opt_view(fresh)));
    choose_launch_session(
        agent_name,
        previous_identity,
        resume_requested,
        resolved_previous_session_id,
        duplicate_session_id,
        fresh,
    )
}

/// Where a member's session is watched.
#[derive(Clone, Debug)]
pub enum SessionTrackerConfig {
    Codex { cwd: String },
    Claude { cwd: String },
}

/// The directory in which Codex runs for a member.
pub open spec fn codex_context_path(work_dir: Seq<char>, member: Seq<char>) -> Seq<char> {
    paths::join_path(
        paths::join_path(paths::join_path(work_dir, ".batty"@), "codex-context"@),
        member,
    )
}

/// The directory in which Codex runs for a member.
pub fn codex_context_dir(work_dir: &str, member_name: &str) -> (r: String)
    ensures
        r@ == codex_context_path(work_dir@, member_name@),
{
    joined(joined(joined(work_dir, ".batty").as_str(), "codex-context").as_str(), member_name)
}

/// Where a member works: in its worktree, or at the root.
pub open spec fn member_dir(project_root: Seq<char>, member: MemberInstance) -> Seq<char> {
    if member.use_worktrees {
        paths::worktree_path(project_root, member.name@)
    } else {
        project_root
    }
}

/// Where a member's session is watched: Codex in its context directory,
/// the default agent in the work directory, others nowhere.
pub fn member_session_tracker_config(
    names: &ClaudeNames,
    project_root: &str,
    member: &MemberInstance,
) -> (r: Option<SessionTrackerConfig>)
    ensures
        ({
            let dir = member_dir(project_root@, *member);
            let kind = match member.agent {
                Some(a) => canonical(*names, a@),
                None => names.adapter@,
            };
            if kind == "codex-cli"@ {
                r matches Some(SessionTrackerConfig::Codex { cwd }) && cwd@ == codex_context_path(
                    dir,
                    member.name@,
                )
            } else if kind == names.adapter@ {
                r matches Some(SessionTrackerConfig::Claude { cwd }) && cwd@ == dir
            } else {
                r is None
            }
        }),
{
    let dir: String = if member.use_worktrees {
        worktree_dir(project_root, member.name.as_str())
    } else {
        copy(project_root)
    };
    let kind: String = match &member.agent {
        Some(a) => canonical_agent_name(names, a.as_str()),
        None => copy(names.adapter.as_str()),
    };
    if same(kind.as_str(), "codex-cli") {
        Some(
            SessionTrackerConfig::Codex {
                cwd: codex_context_dir(dir.as_str(), member.name.as_str()),
            },
        )
    } else if same(kind.as_str(), names.adapter.as_str()) {
        Some(SessionTrackerConfig::Claude { cwd: dir })
    } else {
        None
    }
}

// ---------------------------------------------------------------------------
// Laws

/// A member only ever resumes in the session that was found for it, only
/// where that was asked for, and never in a session that another member has
/// too.
pub proof fn law_resuming_needs_an_own_session(
    names: ClaudeNames,
    agent: Seq<char>,
    has_saved: bool,
    resume_requested: bool,
    resolved: Option<Seq<char>>,
    is_duplicate: bool,
    fresh: Option<Seq<char>>,
)
    requires
        names.wf(),
        is_fresh_session(names, agent, fresh),
        takes_session(names, agent) || agent == "codex-cli"@,
    ensures
        ({
            let r = launch_session(agent, has_saved, resume_requested, resolved, is_duplicate, fresh);
            &&& r.0 ==> resume_requested && !is_duplicate && resolved is Some && r.1 == resolved
            &&& !r.0 ==> r.1 == fresh || r.1 is None
            &&& is_duplicate ==> !r.0
        }),
{
    reveal_strlit("codex-cli");
    reveal_strlit("kiro-cli");
    reveal_strlit("codex");
    reveal_strlit("kiro");
}

/// The canonical name of an agent is its own canonical name.
pub proof fn law_canonical_names_are_stable(names: ClaudeNames, agent: Seq<char>)
    requires
        names.wf(),
    ensures
        canonical(names, canonical(names, agent)) == canonical(names, agent),
        shim_type(names, canonical(names, agent)) == shim_type(names, agent),
        canonical(names, shim_type(names, agent)) == canonical(names, agent),
{
    reveal_strlit("codex-cli");
    reveal_strlit("kiro-cli");
    reveal_strlit("codex");
    reveal_strlit("kiro");
    assert("codex"@.len() == 5 && "kiro"@.len() == 4);
    assert("codex-cli"@.len() == 9 && "kiro-cli"@.len() == 8);
}

} // verus!
