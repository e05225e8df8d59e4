//! Launching members: what is launched, and as what.

use vstd::prelude::*;
use vstd::string::*;

use crate::launch_state;
use crate::launch_state::{clone_identity, clone_text, LaunchIdentity, LaunchState};
use crate::merge::completion::MemberState;
use crate::paths;
use crate::paths::{team_config_dir, worktree_dir};
use crate::sessions;
use crate::sessions::{
    canonical_agent_name, choose_launch_session, new_member_session_id, random_id,
    shim_agent_type_name,
};
use crate::team::{ClaudeNames, MemberInstance, RoleType};
use crate::text;
use crate::text::{
    begins, chars_of, copy, is_among, join_strings, same, split_lines, string_of, string_of_all,
};

verus! {

/// What launching a member takes.
#[derive(Clone, Debug)]
pub struct MemberLaunchPlan {
    pub short_cmd: String,
    pub work_dir: String,
    pub identity: LaunchIdentity,
    pub initial_state: MemberState,
    pub activate_watcher: bool,
    pub resume_summary: String,
    pub persist_session_id: bool,
}

impl MemberLaunchPlan {
    /// The identity that is kept: a session that is not sure to exist is left
    /// out.
    pub fn persisted_identity(&self) -> (r: LaunchIdentity)
        ensures
            r.agent == self.identity.agent,
            r.prompt == self.identity.prompt,
            r.session_id == (if self.persist_session_id {
                self.identity.session_id
            } else {
                None
            }),
    {
        let x: LaunchIdentity = clone_identity(&self.identity);
        LaunchIdentity {
            agent: x.agent,
            prompt: x.prompt,
            session_id: if self.persist_session_id {
                x.session_id
            } else {
                None
            },
        }
    }
}

// ---------------------------------------------------------------------------
// Prompts

/// The lines outside the section on nudges, and whether that section is open.
pub open spec fn nudge_state(lines: Seq<Seq<char>>) -> (Seq<Seq<char>>, bool)
    decreases lines.len(),
{
    if lines.len() == 0 {
        (Seq::empty(), false)
    } else {
        let (kept, is_open) = nudge_state(lines.drop_last());
        let line = lines.last();
        if text::starts_with(line, "## Nudge"@) {
            (kept, true)
        } else if is_open && !text::starts_with(line, "## "@) {
            (kept, true)
        } else {
            (kept.push(line), false)
        }
    }
}

/// A prompt without its section on nudges.
pub open spec fn without_nudge(prompt: Seq<char>) -> Seq<char> {
    text::trim_end(text::join(nudge_state(text::lines(prompt)).0, "\n"@))
}

fn trimmed_end(s: &str) -> (r: String)
    ensures
        r@ == text::trim_end(s@),
{
    let c: Vec<char> = chars_of(s);
    let mut n: usize = c.len();
    assert(c@.take(n as int) == c@);
    while n > 0 && text::white_space(c[n - 1])
        invariant
            n <= c@.len(),
            text::trim_end(c@) == text::trim_end(c@.take(n as int)),
        decreases n,
    {
        assert(c@.take(n as int).drop_last() == c@.take(n - 1));
        n -= 1;
    }
    assert(c@.subrange(0, n as int) == c@.take(n as int));
    string_of(&c, 0, n)
}

/// A prompt without its section on nudges: from its heading to the next
/// heading of the second level.
pub fn strip_nudge_section(prompt: &str) -> (r: String)
    ensures
        r@ == without_nudge(prompt@),
{
    let lines: Vec<Vec<char>> = split_lines(&chars_of(prompt));
    let ghost all = text::lines(prompt@);
    let mut kept: Vec<String> = Vec::new();
    let mut is_open: bool = false;
    let mut i: usize = 0;
    assert(text::views(kept@) == Seq::<Seq<char>>::empty());
    while i < lines.len()
        invariant
            i <= lines@.len(),
            all.len() == lines@.len(),
            forall|k: int| 0 <= k < lines@.len() ==> (#[trigger] lines@[k])@ == all[k],
            nudge_state(all.take(i as int)) == (text::views(kept@), is_open),
        decreases lines@.len() - i,
    {
        assert(all.take(i + 1).drop_last() == all.take(i as int));
        let line: &Vec<char> = &lines[i];
        assert(line@ == all[i as int]);
        if begins(line, "## Nudge") {
            is_open = true;
        } else {
            if is_open && begins(line, "## ") {
                is_open = false;
            }
            if !is_open {
                let ghost before = kept@;
                kept.push(string_of_all(line));
                assert(text::views(kept@) == text::views(before).push(line@));
            }
        }
        i += 1;
    }
    assert(all.take(i as int) == all);
    trimmed_end(join_strings(&kept, "\n").as_str())
}

// ---------------------------------------------------------------------------
// States

/// Members wait for an assignment after their start.
pub fn role_starts_idle() -> (r: bool)
    ensures
        r,
{
    true
}

/// The state after a launch: idle unless there is something to do or to go on
/// with.
pub fn initial_member_state(idle: bool, resume: bool) -> (r: MemberState)
    ensures
        r == (if idle && !resume {
            MemberState::Idle
        } else {
            MemberState::Working
        }),
{
    if idle && !resume {
        MemberState::Idle
    } else {
        MemberState::Working
    }
}

/// Whether a member is watched from its start on.
pub fn should_activate_watcher_on_spawn(idle: bool, resume: bool) -> (r: bool)
    ensures
        r == (!idle || resume),
{
    !idle || resume
}

// ---------------------------------------------------------------------------
// Resuming

/// A member is asked to resume: it was not launched before, or with the same
/// agent and prompt.
pub open spec fn resumes(
    resume_requested: bool,
    previous: Option<LaunchIdentity>,
    agent: Seq<char>,
    prompt: Seq<char>,
) -> bool {
    resume_requested && (previous is None || (previous->Some_0.agent@ == agent
        && previous->Some_0.prompt@ == prompt))
}

/// Whether a member is asked to resume.
pub fn should_resume_member(
    resume_requested: bool,
    previous_state: &LaunchState,
    member_name: &str,
    current_agent: &str,
    current_prompt: &str,
) -> (r: bool)
    requires
        previous_state.wf(),
    ensures
        r == resumes(
            resume_requested,
            launch_state::identity_of(previous_state@, member_name@),
            current_agent@,
            current_prompt@,
        ),
{
    if !resume_requested {
        return false;
    }
    match previous_state.get(member_name) {
        None => true,
        Some(x) => same(x.agent.as_str(), current_agent) && same(
            x.prompt.as_str(),
            current_prompt,
        ),
    }
}

/// A session in a few characters.
pub open spec fn short_session(session: Seq<char>) -> Seq<char> {
    if session.len() > 8 {
        "session "@ + session.take(8) + "..."@
    } else {
        "session "@ + session
    }
}

/// A session in a few characters.
pub fn short_session_summary(session_id: &str) -> (r: String)
    ensures
        r@ == short_session(session_id@),
{
    let c: Vec<char> = chars_of(session_id);
    if c.len() > 8 {
        assert(c@.subrange(0, 8) == c@.take(8));
        copy("session ").concat(string_of(&c, 0, 8).as_str()).concat("...")
    } else {
        copy("session ").concat(session_id)
    }
}

/// Why a member resumes, or does not.
pub open spec fn resume_reason(
    agent: Seq<char>,
    previous: Option<LaunchIdentity>,
    resume_requested: bool,
    prompt: Seq<char>,
    session_available: bool,
    is_duplicate: bool,
    member_resume: bool,
    session: Option<Seq<char>>,
) -> Seq<char> {
    if !resume_requested {
        "resume disabled"@
    } else {
        match previous {
            None => "no prior launch identity"@,
            Some(x) => if x.agent@ != agent {
                "agent changed"@
            } else if x.prompt@ != prompt {
                "prompt changed"@
            } else if is_duplicate {
                "session duplicated"@
            } else if x.session_id is Some && !session_available {
                "session missing"@
            } else if member_resume {
                match session {
                    Some(s) => short_session(s),
                    None => "identity matched"@,
                }
            } else if x.session_id is None {
                "no saved session"@
            } else {
                "starting fresh"@
            },
        }
    }
}

/// What is reported on the decision for a member.
pub open spec fn resume_summary_text(
    member: Seq<char>,
    member_resume: bool,
    reason: Seq<char>,
) -> Seq<char> {
    member + "="@ + (if member_resume {
        "yes"@
    } else {
        "no"@
    }) + " ("@ + reason + ")"@
}

/// Reports on the decision whether a member resumes, and why.
pub fn format_resume_decision_summary(
    member_name: &str,
    current_agent: &str,
    previous_identity: &Option<LaunchIdentity>,
    resume_requested: bool,
    current_prompt: &str,
    session_available: bool,
    duplicate_session_id: bool,
    member_resume: bool,
    session_id: &Option<String>,
) -> (r: String)
    ensures
        r@ == resume_summary_text(
            member_name@,
            member_resume,
            resume_reason(
                current_agent@,
                *previous_identity,
                resume_requested,
                current_prompt@,
                session_available,
                duplicate_session_id,
                member_resume,
                paths::opt_view(*session_id),
            ),
        ),
{
    let decision: String = if member_resume {
        copy("yes")
    } else {
        copy("no")
    };
    let reason: String = if !resume_requested {
        copy("resume disabled")
    } else {
        match previous_identity {
            None => copy("no prior launch identity"),
            Some(x) => {
                if !same(x.agent.as_str(), current_agent) {
                    copy("agent changed")
                } else if !same(x.prompt.as_str(), current_prompt) {
                    copy("prompt changed")
                } else if duplicate_session_id {
                    copy("session duplicated")
                } else if x.session_id.is_some() && !session_available {
                    copy("session missing")
                } else if member_resume {
                    match session_id {
                        Some(s) => short_session_summary(s.as_str()),
                        None => copy("identity matched"),
                    }
                } else if x.session_id.is_none() {
                    copy("no saved session")
                } else {
                    copy("starting fresh")
                }
            },
        }
    };
    copy(member_name).concat("=").concat(decision.as_str()).concat(" (").concat(
        reason.as_str(),
    ).concat(")")
}

// ---------------------------------------------------------------------------
// Work directories

/// A worktree to set up.
#[derive(Clone, Debug)]
pub struct WorktreeSetup {
    /// The project consists of several repositories.
    pub is_multi_repo: bool,
    pub worktree_dir: String,
    pub team_config_dir: String,
}

/// This is the worktree to set up for a member.
pub open spec fn is_setup(
    s: WorktreeSetup,
    project_root: Seq<char>,
    member: Seq<char>,
    is_multi_repo: bool,
) -> bool {
    &&& s.is_multi_repo == is_multi_repo
    &&& s.worktree_dir@ == paths::worktree_path(project_root, member)
    &&& s.team_config_dir@ == paths::team_config_dir_path(project_root)
}

/// Where a member works: at the root, unless it has a worktree of its own and
/// that could be set up; `setup` sets it up and returns where it is.
pub fn member_work_dir<F: Fn(WorktreeSetup) -> Result<String, String>>(
    project_root: &str,
    member: &MemberInstance,
    is_git_repo: bool,
    is_multi_repo: bool,
    setup: &F,
) -> (r: String)
    requires
        forall|s: WorktreeSetup| #[trigger] call_requires(*setup, (s,)),
    ensures
        if member.use_worktrees && (is_git_repo || is_multi_repo) {
            exists|s: WorktreeSetup, result: Result<String, String>|
                {
                    &&& is_setup(s, project_root@, member.name@, is_multi_repo)
                    &&& #[trigger] call_ensures(*setup, (s,), result)
                    &&& r@ == (match result {
                        Ok(path) => path@,
                        Err(_) => project_root@,
                    })
                }
        } else {
            r@ == project_root@
        },
{
    if !member.use_worktrees || (!is_git_repo && !is_multi_repo) {
        return copy(project_root);
    }
    let s: WorktreeSetup = WorktreeSetup {
        is_multi_repo,
        worktree_dir: worktree_dir(project_root, member.name.as_str()),
        team_config_dir: team_config_dir(project_root),
    };
    let ghost given = s;
    let result: Result<String, String> = setup(s);
    assert(call_ensures(*setup, (given,), result));
    match result {
        Ok(path) => path,
        Err(_) => copy(project_root),
    }
}

/// The member has a pane to be launched in.
pub open spec fn is_launchable(m: MemberInstance, panes: Seq<Seq<char>>) -> bool {
    m.role_type != RoleType::User && panes.contains(m.name@)
}

/// The positions below `n` of the members that have a pane.
pub open spec fn launchable(ms: Seq<MemberInstance>, panes: Seq<Seq<char>>, n: int) -> Seq<usize>
    decreases n,
{
    if n <= 0 {
        Seq::empty()
    } else if is_launchable(ms[n - 1], panes) {
        launchable(ms, panes, n - 1).push((n - 1) as usize)
    } else {
        launchable(ms, panes, n - 1)
    }
}

/// The members whose panes are validated when the daemon starts: none where
/// members run behind shims, else all that have a pane; `panes` names those
/// with one.
pub fn validate_member_panes_on_startup(
    members: &Vec<MemberInstance>,
    panes: &Vec<String>,
    use_shim: bool,
) -> (r: Vec<usize>)
    ensures
        r@ == (if use_shim {
            Seq::empty()
        } else {
            launchable(members@, text::views(panes@), members@.len() as int)
        }),
{
    let mut out: Vec<usize> = Vec::new();
    if use_shim {
        return out;
    }
    let mut i: usize = 0;
    while i < members.len()
        invariant
            i <= members@.len(),
            out@ == launchable(members@, text::views(panes@), i as int),
        decreases members@.len() - i,
    {
        if members[i].role_type != RoleType::User && is_among(panes, members[i].name.as_str()) {
            out.push(i);
        }
        i += 1;
    }
    out
}

// ---------------------------------------------------------------------------
// Plans

/// A launch script to write.
#[derive(Clone, Debug)]
pub struct ScriptRequest {
    pub member_name: String,
    pub agent_name: String,
    pub prompt: String,
    pub work_dir: String,
    pub idle: bool,
    pub resume: bool,
    pub session_id: Option<String>,
    pub sdk_mode: bool,
}

/// The agent of a member.
pub open spec fn agent_of(names: ClaudeNames, member: MemberInstance) -> Seq<char> {
    match member.agent {
        Some(a) => a@,
        None => names.agent@,
    }
}

/// The member talks to the default agent over its streaming protocol.
pub open spec fn is_sdk_mode(
    names: ClaudeNames,
    member: MemberInstance,
    use_sdk_mode: bool,
) -> bool {
    sessions::canonical(names, agent_of(names, member)) == names.adapter@ && use_sdk_mode
}

/// What is decided for a member, given what was found and made: `resolved` is
/// the session to go on with, `fresh` the new one.
pub open spec fn decision(
    names: ClaudeNames,
    member: MemberInstance,
    resume: bool,
    previous: Option<LaunchIdentity>,
    is_duplicate: bool,
    prompt: Seq<char>,
    resolved: Option<Seq<char>>,
    fresh: Option<Seq<char>>,
) -> (bool, Option<Seq<char>>) {
    let agent = sessions::canonical(names, agent_of(names, member));
    sessions::launch_session(
        agent,
        sessions::has_saved_session(previous),
        resumes(resume, previous, agent, prompt),
        resolved,
        is_duplicate,
        fresh,
    )
}

/// This is the script that a member is launched with.
pub open spec fn is_request(
    s: ScriptRequest,
    names: ClaudeNames,
    member: MemberInstance,
    prompt: Seq<char>,
    work_dir: Seq<char>,
    sdk_mode: bool,
    member_resume: bool,
    session: Option<Seq<char>>,
) -> bool {
    &&& s.member_name@ == member.name@
    &&& s.agent_name@ == agent_of(names, member)
    &&& s.prompt@ == prompt
    &&& s.work_dir@ == work_dir
    &&& s.idle
    &&& s.resume == (member_resume && !sdk_mode)
    &&& paths::opt_view(s.session_id) == session
    &&& s.sdk_mode == sdk_mode
}

/// This is the plan for a member, given what was found and made.
pub open spec fn is_plan(
    plan: MemberLaunchPlan,
    names: ClaudeNames,
    member: MemberInstance,
    resume: bool,
    previous: Option<LaunchIdentity>,
    is_duplicate: bool,
    prompt: Seq<char>,
    work_dir: Seq<char>,
    resolved: Option<Seq<char>>,
    decided: (bool, Option<Seq<char>>),
    session: Option<Seq<char>>,
) -> bool {
    let agent = sessions::canonical(names, agent_of(names, member));
    &&& plan.work_dir@ == work_dir
    &&& plan.identity.agent@ == agent
    &&& plan.identity.prompt@ == prompt
    &&& paths::opt_view(plan.identity.session_id) == session
    &&& plan.initial_state == (if decided.0 {
        MemberState::Working
    } else {
        MemberState::Idle
    })
    &&& plan.activate_watcher == decided.0
    &&& plan.resume_summary@ == resume_summary_text(
        member.name@,
        decided.0,
        resume_reason(
            agent,
            previous,
            resume,
            prompt,
            !sessions::has_saved_session(previous) || resolved is Some,
            is_duplicate,
            decided.0,
            decided.1,
        ),
    )
    &&& plan.persist_session_id == (decided.0 || agent != names.adapter@)
}

/// The session that the lookup may find for the one that was saved.
pub open spec fn is_lookup<S: Fn(String, String) -> Option<String>>(
    find_session: S,
    agent: Seq<char>,
    previous: Option<LaunchIdentity>,
    resolved: Option<Seq<char>>,
) -> bool {
    if sessions::has_saved_session(previous) {
        exists|a: String, s: String, result: Option<String>|
            {
                &&& a@ == agent
                &&& s@ == previous->Some_0.session_id->Some_0@
                &&& #[trigger] call_ensures(find_session, (a, s), result)
                &&& paths::opt_view(result) == resolved
            }
    } else {
        resolved is None
    }
}

/// The session that the script gets: over the streaming protocol always a new
/// one.
pub open spec fn is_effective_session(
    sdk_mode: bool,
    decided: Option<Seq<char>>,
    session: Option<Seq<char>>,
) -> bool {
    if sdk_mode {
        session is Some && sessions::is_random_id(session->Some_0)
    } else {
        session == decided
    }
}

/// The saved session of a member is one that another member has too.
pub open spec fn is_saved_duplicate(
    previous: Option<LaunchIdentity>,
    duplicates: Seq<Seq<char>>,
) -> bool {
    sessions::has_saved_session(previous) && duplicates.contains(
        previous->Some_0.session_id->Some_0@,
    )
}

/// A launch was prepared this way: with this session found, this one made,
/// this decision, and this session for the script, which `write_script` then
/// wrote or could not write.
pub open spec fn is_preparation<W: Fn(ScriptRequest) -> Result<String, String>>(
    names: ClaudeNames,
    member: MemberInstance,
    resume: bool,
    previous: Option<LaunchIdentity>,
    is_duplicate: bool,
    prompt: Seq<char>,
    work_dir: Seq<char>,
    use_sdk_mode: bool,
    write_script: W,
    resolved: Option<Seq<char>>,
    fresh: Option<Seq<char>>,
    session: Option<Seq<char>>,
    result: Result<MemberLaunchPlan, String>,
) -> bool {
    let decided = decision(names, member, resume, previous, is_duplicate, prompt, resolved, fresh);
    let sdk_mode = is_sdk_mode(names, member, use_sdk_mode);
    &&& is_effective_session(sdk_mode, decided.1, session)
    &&& exists|s: ScriptRequest, written: Result<String, String>|
        {
            &&& is_request(s, names, member, prompt, work_dir, sdk_mode, decided.0, session)
            &&& #[trigger] call_ensures(write_script, (s,), written)
            &&& match written {
                Ok(cmd) => result matches Ok(plan) && plan.short_cmd == cmd && is_plan(
                    plan,
                    names,
                    member,
                    resume,
                    previous,
                    is_duplicate,
                    prompt,
                    work_dir,
                    resolved,
                    decided,
                    session,
                ),
                Err(e) => result == Err::<MemberLaunchPlan, String>(e),
            }
        }
}

/// A launch was prepared, with whatever session was found and made.
pub open spec fn is_prepared<
    S: Fn(String, String) -> Option<String>,
    W: Fn(ScriptRequest) -> Result<String, String>,
>(
    names: ClaudeNames,
    member: MemberInstance,
    resume: bool,
    previous: Option<LaunchIdentity>,
    duplicates: Seq<Seq<char>>,
    prompt: Seq<char>,
    work_dir: Seq<char>,
    use_sdk_mode: bool,
    find_session: S,
    write_script: W,
    result: Result<MemberLaunchPlan, String>,
) -> bool {
    exists|resolved: Option<Seq<char>>, fresh: Option<Seq<char>>, session: Option<Seq<char>>|
        {
            &&& is_lookup(
                find_session,
                sessions::canonical(names, agent_of(names, member)),
                previous,
                resolved,
            )
            &&& sessions::is_fresh_session(names, sessions::canonical(names, agent_of(names, member)), fresh)
            &&& #[trigger] is_preparation(
                names,
                member,
                resume,
                previous,
                is_saved_duplicate(previous, duplicates),
                prompt,
                work_dir,
                use_sdk_mode,
                write_script,
                resolved,
                fresh,
                session,
                result,
            )
        }
}

/// Prepares the launch of a member: decides whether it resumes and in which
/// session, has the launch script written, and says how the member starts.
/// `find_session` tells with which session an agent can go on for a saved one.
pub fn prepare_member_launch<
    S: Fn(String, String) -> Option<String>,
    W: Fn(ScriptRequest) -> Result<String, String>,
>(
    names: &ClaudeNames,
    member: &MemberInstance,
    resume: bool,
    previous_launch_state: &LaunchState,
    duplicate_session_ids: &Vec<String>,
    loaded_prompt: &str,
    work_dir: &str,
    use_sdk_mode: bool,
    find_session: &S,
    write_script: &W,
) -> (r: Result<MemberLaunchPlan, String>)
    requires
        previous_launch_state.wf(),
        forall|a: String, s: String| #[trigger] call_requires(*find_session, (a, s)),
        forall|s: ScriptRequest| #[trigger] call_requires(*write_script, (s,)),
    ensures
        is_prepared(
            *names,
            *member,
            resume,
            launch_state::identity_of(previous_launch_state@, member.name@),
            text::views(duplicate_session_ids@),
            without_nudge(loaded_prompt@),
            work_dir@,
            use_sdk_mode,
            *find_session,
            *write_script,
            r,
        ),
{
    let agent_name: String = match &member.agent {
        Some(a) => copy(a.as_str()),
        None => copy(names.agent.as_str()),
    };
    let prompt: String = strip_nudge_section(loaded_prompt);
    let idle: bool = role_starts_idle();
    let agent: String = canonical_agent_name(names, agent_name.as_str());
    let requested_resume: bool = should_resume_member(
        resume,
        previous_launch_state,
        member.name.as_str(),
        agent.as_str(),
        prompt.as_str(),
    );
    let previous: Option<LaunchIdentity> = match previous_launch_state.get(member.name.as_str()) {
        Some(x) => Some(clone_identity(x)),
        None => None,
    };
    let saved: Option<String> = match &previous {
        Some(x) => clone_text(&x.session_id),
        None => None,
    };
    let resolved: Option<String> = match &saved {
        Some(s) => {
            let a: String = copy(agent.as_str());
            let b: String = copy(s.as_str());
            let ghost given = (a, b);
            let found: Option<String> = find_session(a, b);
            assert(call_ensures(*find_session, (given.0, given.1), found));
            found
        },
        None => None,
    };
    let session_available: bool = saved.is_none() || resolved.is_some();
    let is_duplicate: bool = match &saved {
        Some(s) => is_among(duplicate_session_ids, s.as_str()),
        None => false,
    };
    let ghost resolved_text = paths::opt_view(resolved);
    let fresh: Option<String> = new_member_session_id(names, agent.as_str());
    let ghost fresh_text = paths::opt_view(fresh);
    let decided: (bool, Option<String>) = choose_launch_session(
        agent.as_str(),
        &previous,
        requested_resume,
        resolved,
        is_duplicate,
        fresh,
    );
    let summary: String = format_resume_decision_summary(
        member.name.as_str(),
        agent.as_str(),
        &previous,
        resume,
        prompt.as_str(),
        session_available,
        is_duplicate,
        decided.0,
        &decided.1,
    );
    let sdk_mode: bool = same(agent.as_str(), names.adapter.as_str()) && use_sdk_mode;
    // A session of the streaming protocol cannot be resumed.
    let session: Option<String> = if sdk_mode {
        Some(random_id())
    } else {
        clone_text(&decided.1)
    };
    let ghost session_text = paths::opt_view(session);
    let request: ScriptRequest = ScriptRequest {
        member_name: copy(member.name.as_str()),
        agent_name,
        prompt: copy(prompt.as_str()),
        work_dir: copy(work_dir),
        idle,
        resume: decided.0 && !sdk_mode,
        session_id: clone_text(&session),
        sdk_mode,
    };
    let ghost asked = request;
    let written: Result<String, String> = write_script(request);
    assert(call_ensures(*write_script, (asked,), written));
    let ghost prev = launch_state::identity_of(previous_launch_state@, member.name@);
    assert(previous == prev);
    assert(is_lookup(*find_session, agent@, prev, resolved_text));
    assert(sessions::is_fresh_session(*names, agent@, fresh_text));
    let persist_session_id: bool = decided.0 || !same(agent.as_str(), names.adapter.as_str());
    let r: Result<MemberLaunchPlan, String> = match written {
        Ok(short_cmd) => Ok(
            MemberLaunchPlan {
                short_cmd,
                work_dir: copy(work_dir),
                identity: LaunchIdentity { agent, prompt, session_id: session },
                initial_state: initial_member_state(idle, decided.0),
                activate_watcher: should_activate_watcher_on_spawn(idle, decided.0),
                resume_summary: summary,
                persist_session_id,
            },
        ),
        Err(e) => Err(e),
    };
    assert(is_preparation(
        *names,
        *member,
        resume,
        prev,
        is_saved_duplicate(prev, text::views(duplicate_session_ids@)),
        without_nudge(loaded_prompt@),
        work_dir@,
        use_sdk_mode,
        *write_script,
        resolved_text,
        fresh_text,
        session_text,
        r,
    ));
    r
}

// ---------------------------------------------------------------------------
// Applying

/// One thing to do for a launch.
#[derive(Clone, Debug)]
pub enum LaunchStep {
    /// Tell the watcher which session to expect.
    ExpectSession(Option<String>),
    /// Have the pane stand in this directory.
    EnterDirectory(String),
    /// Type this command into the pane.
    Type(String),
    /// Note the member's state, and start the timers for it.
    SetState(MemberState),
    /// Start the watcher.
    ActivateWatcher,
    /// Record that the agent was launched.
    RecordSpawn,
}

/// What a launch in a pane takes, in order.
pub open spec fn are_launch_steps(
    steps: Seq<LaunchStep>,
    plan: MemberLaunchPlan,
    use_shim: bool,
) -> bool {
    let k = if use_shim {
        1int
    } else {
        2int
    };
    let w = if plan.activate_watcher {
        1int
    } else {
        0int
    };
    &&& steps.len() == k + 3 + w
    &&& steps[0] == LaunchStep::ExpectSession(plan.identity.session_id)
    &&& !use_shim ==> steps[1] == LaunchStep::EnterDirectory(plan.work_dir)
    &&& steps[k] == LaunchStep::Type(plan.short_cmd)
    &&& steps[k + 1] == LaunchStep::SetState(plan.initial_state)
    &&& plan.activate_watcher ==> steps[k + 2] is ActivateWatcher
    &&& steps[k + 2 + w] is RecordSpawn
}

/// What launching a member in its pane takes, in order; a step that fails
/// ends the launch.
pub fn apply_member_launch(plan: &MemberLaunchPlan, use_shim: bool) -> (r: Vec<LaunchStep>)
    ensures
        are_launch_steps(r@, *plan, use_shim),
{
    let mut out: Vec<LaunchStep> = Vec::new();
    out.push(LaunchStep::ExpectSession(clone_text(&plan.identity.session_id)));
    if !use_shim {
        out.push(LaunchStep::EnterDirectory(plan.work_dir.clone()));
    }
    out.push(LaunchStep::Type(plan.short_cmd.clone()));
    out.push(LaunchStep::SetState(plan.initial_state));
    if plan.activate_watcher {
        out.push(LaunchStep::ActivateWatcher);
    }
    out.push(LaunchStep::RecordSpawn);
    out
}

/// What a shim is started for: the agent's type, and whether it talks over
/// the streaming protocol.
pub fn shim_launch(names: &ClaudeNames, member: &MemberInstance, use_sdk_mode: bool) -> (r: (
    String,
    bool,
))
    ensures
        r.0@ == sessions::shim_type(*names, agent_of(*names, *member)),
        r.1 == (sessions::shim_type(*names, agent_of(*names, *member)) == names.agent@ && use_sdk_mode),
{
    let agent_name: String = match &member.agent {
        Some(a) => copy(a.as_str()),
        None => copy(names.agent.as_str()),
    };
    let agent_type: String = shim_agent_type_name(names, agent_name.as_str());
    let sdk_mode: bool = same(agent_type.as_str(), names.agent.as_str()) && use_sdk_mode;
    (agent_type, sdk_mode)
}

} // verus!
