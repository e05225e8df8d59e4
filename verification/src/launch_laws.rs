//! What holds of launches: who goes on with which session, what a member is
//! told, and how it is started.

use vstd::prelude::*;

use crate::launch_script;
use crate::launch_script::LaunchScript;
use crate::launch_state;
use crate::launch_state::LaunchIdentity;
use crate::launcher;
use crate::launcher::{LaunchStep, MemberLaunchPlan, ScriptRequest, WorktreeSetup};
use crate::merge::completion::MemberState;
use crate::paths;
use crate::sessions;
use crate::sessions::{CodexSession, SessionLine};
use crate::spawn;
use crate::spawn::{SpawnReply, SpawnStep, SpawnView};
use crate::team::{ClaudeNames, MemberInstance, RoleType};
use crate::text;

verus! {

// ---------------------------------------------------------------------------
// Agents and sessions

/// Every agent goes by one name in the launch state and by one name for shims,
/// however a configuration names it; a name that is not known stands for itself.
pub proof fn law_agents_go_by_their_names(names: ClaudeNames, agent: Seq<char>)
    requires
        names.wf(),
    ensures
        agent == names.agent@ || agent == names.adapter@ ==> sessions::canonical(names, agent)
            == names.adapter@ && sessions::shim_type(names, agent) == names.agent@,
        agent == "codex"@ || agent == "codex-cli"@ ==> sessions::canonical(names, agent)
            == "codex-cli"@ && sessions::shim_type(names, agent) == "codex"@,
        agent == "kiro"@ || agent == "kiro-cli"@ ==> sessions::canonical(names, agent)
            == "kiro-cli"@ && sessions::shim_type(names, agent) == "kiro"@,
        agent != names.agent@ && agent != names.adapter@ && agent != "codex"@ && agent
            != "codex-cli"@ && agent != "kiro"@ && agent != "kiro-cli"@ ==> sessions::canonical(
            names,
            agent,
        ) == agent && sessions::shim_type(names, agent) == agent,
{
    reveal_strlit("codex-cli");
    reveal_strlit("kiro-cli");
    reveal_strlit("codex");
    reveal_strlit("kiro");
    assert("codex"@.len() == 5 && "kiro"@.len() == 4);
    assert("codex-cli"@.len() == 9 && "kiro-cli"@.len() == 8);
}

/// A member goes on with the session that was found for it exactly where that
/// is asked for, no other member has that session, and its agent can: Codex
/// only if the session was saved, Kiro never. If it does not, the default agent
/// and Kiro start with a new session and Codex without one. An agent that has
/// no sessions is just asked to resume.
pub proof fn law_member_goes_on_where_it_can(
    names: ClaudeNames,
    agent: Seq<char>,
    has_saved: bool,
    asked: bool,
    found: Option<Seq<char>>,
    is_duplicate: bool,
    fresh: Option<Seq<char>>,
)
    requires
        names.wf(),
        sessions::canonical(names, agent) == agent,
        sessions::is_fresh_session(names, agent, fresh),
    ensures
        ({
            let r = sessions::launch_session(agent, has_saved, asked, found, is_duplicate, fresh);
            let can = asked && !is_duplicate && found is Some;
            &&& agent == names.adapter@ ==> r == (can, if can {
                found
            } else {
                fresh
            })
            &&& agent == "codex-cli"@ ==> r == (can && has_saved, if can && has_saved {
                found
            } else {
                None
            })
            &&& agent == "kiro-cli"@ ==> r == (false, fresh)
            &&& agent != names.adapter@ && agent != "codex-cli"@ && agent != "kiro-cli"@ ==> r == (
                asked,
                None::<Seq<char>>,
            )
            &&& r.1 is Some && !r.0 ==> sessions::is_random_id(r.1->Some_0)
        }),
{
    law_agents_go_by_their_names(names, agent);
    reveal_strlit("codex-cli");
    reveal_strlit("kiro-cli");
    assert("codex-cli"@.len() == 9 && "kiro-cli"@.len() == 8);
}

/// A session of Codex is found by its file's name or by the id that its file
/// gives, the first such session counts, and it goes on by the id in the file
/// where there is one. What is found can be looked up again.
pub proof fn law_codex_sessions_are_found(ss: Seq<CodexSession>, id: Seq<char>, from: int)
    requires
        0 <= from,
    ensures
        ({
            let known = |s: CodexSession, x: Seq<char>|
                paths::opt_view(s.file_id) == Some(x) || paths::opt_view(s.meta_id) == Some(x);
            match sessions::resumable(ss, id, from) {
                Some(x) => exists|i: int|
                    {
                        &&& from <= i < ss.len()
                        &&& known(#[trigger] ss[i], id)
                        &&& known(ss[i], x)
                        &&& ss[i].meta_id is Some ==> ss[i].meta_id->Some_0@ == x
                        &&& forall|k: int| from <= k < i ==> !known(#[trigger] ss[k], id)
                    },
                None => forall|i: int| from <= i < ss.len() ==> !known(#[trigger] ss[i], id),
            }
        }),
        sessions::resumable(ss, id, from) matches Some(x) ==> sessions::resumable(
            ss,
            x,
            from,
        ) is Some,
    decreases ss.len() - from,
{
    if from < ss.len() {
        let known = |s: CodexSession, x: Seq<char>|
            paths::opt_view(s.file_id) == Some(x) || paths::opt_view(s.meta_id) == Some(x);
        if sessions::is_known_as(ss[from], id) {
            assert(known(ss[from], id));
            let x = sessions::resumable(ss, id, from)->Some_0;
            assert(known(ss[from], x));
        } else {
            law_codex_sessions_are_found(ss, id, from + 1);
            assert(!known(ss[from], id));
            if sessions::resumable(ss, id, from) is Some {
                let x = sessions::resumable(ss, id, from)->Some_0;
                let i = choose|i: int|
                    {
                        &&& from + 1 <= i < ss.len()
                        &&& known(#[trigger] ss[i], id)
                        &&& known(ss[i], x)
                        &&& ss[i].meta_id is Some ==> ss[i].meta_id->Some_0@ == x
                        &&& forall|k: int| from + 1 <= k < i ==> !known(#[trigger] ss[k], id)
                    };
                assert(known(ss[i], id));
            }
        }
    }
}

/// After the sessions that were found are filed, a member has the last one that
/// was found for it, and its earlier one if none was. What nobody reports as a
/// change is none.
pub proof fn law_found_sessions_are_filed(
    state: Map<Seq<char>, LaunchIdentity>,
    after: Map<Seq<char>, LaunchIdentity>,
    found: Seq<(String, Option<String>)>,
    name: Seq<char>,
)
    requires
        launch_state::is_synced(state, after, found, found.len() as int),
        state.contains_key(name),
    ensures
        after.contains_key(name),
        after[name].agent == state[name].agent,
        after[name].prompt == state[name].prompt,
        forall|k: int|
            0 <= k < found.len() && (#[trigger] found[k]).0@ == name && found[k].1 is Some && (
            forall|j: int|
                k < j < found.len() ==> (#[trigger] found[j]).0@ != name || found[j].1 is None)
                ==> after[name].session_id is Some && after[name].session_id->Some_0@
                == found[k].1->Some_0@,
        (forall|j: int|
            0 <= j < found.len() ==> (#[trigger] found[j]).0@ != name || found[j].1 is None)
            ==> paths::opt_view(after[name].session_id) == paths::opt_view(state[name].session_id),
        !launch_state::any_change(state, found, found.len() as int) ==> paths::opt_view(
            after[name].session_id,
        ) == paths::opt_view(state[name].session_id),
{
    lemma_synced(state, found, name, found.len() as int);
}

proof fn lemma_synced(
    state: Map<Seq<char>, LaunchIdentity>,
    found: Seq<(String, Option<String>)>,
    name: Seq<char>,
    n: int,
)
    requires
        0 <= n <= found.len(),
        state.contains_key(name),
    ensures
        forall|k: int|
            0 <= k < n && (#[trigger] found[k]).0@ == name && found[k].1 is Some && (forall|j: int|
                k < j < n ==> (#[trigger] found[j]).0@ != name || found[j].1 is None)
                ==> launch_state::synced_session(state, found, name, n) == Some(
                found[k].1->Some_0@,
            ),
        (forall|j: int| 0 <= j < n ==> (#[trigger] found[j]).0@ != name || found[j].1 is None)
            ==> launch_state::synced_session(state, found, name, n) == paths::opt_view(
            state[name].session_id,
        ),
        !launch_state::any_change(state, found, n) ==> launch_state::synced_session(
            state,
            found,
            name,
            n,
        ) == paths::opt_view(state[name].session_id),
    decreases n,
{
    if n > 0 {
        lemma_synced(state, found, name, n - 1);
        assert(found[n - 1].0@ == name || found[n - 1].0@ != name);
    }
}

// ---------------------------------------------------------------------------
// What a member is told

/// A prompt loses exactly its section on nudges: from a heading that starts
/// with `## Nudge` up to the next heading of the second level.
pub proof fn law_nudge_section_is_left_out(
    prompt: Seq<char>,
    before: Seq<Seq<char>>,
    heading: Seq<char>,
    section: Seq<Seq<char>>,
    after: Seq<Seq<char>>,
)
    requires
        text::lines(prompt) == before.push(heading) + section + after,
        text::starts_with(heading, "## Nudge"@),
        forall|i: int|
            0 <= i < before.len() ==> !text::starts_with(#[trigger] before[i], "## Nudge"@),
        forall|i: int| 0 <= i < section.len() ==> !text::starts_with(#[trigger] section[i], "## "@),
        forall|i: int|
            0 <= i < after.len() ==> !text::starts_with(#[trigger] after[i], "## Nudge"@),
        after.len() > 0 ==> text::starts_with(after[0], "## "@),
    ensures
        launcher::without_nudge(prompt) == text::trim_end(text::join(before + after, "\n"@)),
{
    lemma_lines_are_kept(Seq::empty(), before);
    assert(Seq::<Seq<char>>::empty() + before =~= before);
    let with_heading = before.push(heading);
    assert(with_heading.drop_last() =~= before);
    assert(launcher::nudge_state(with_heading) == (before, true));
    lemma_section_is_dropped(with_heading, section);
    let head = with_heading + section;
    if after.len() > 0 {
        let first = after[0];
        assert(head.push(first).drop_last() =~= head);
        assert(launcher::nudge_state(head.push(first)) == (before.push(first), false));
        let rest = after.skip(1);
        assert forall|i: int| 0 <= i < rest.len() implies !text::starts_with(
            #[trigger] rest[i],
            "## Nudge"@,
        ) by {
            assert(rest[i] == after[i + 1]);
        }
        lemma_lines_are_kept(head.push(first), rest);
        assert(head.push(first) + rest =~= head + after);
        assert(before.push(first) + rest =~= before + after);
    } else {
        assert(head + after =~= head);
        assert(before + after =~= before);
    }
}

proof fn lemma_lines_are_kept(head: Seq<Seq<char>>, lines: Seq<Seq<char>>)
    requires
        !launcher::nudge_state(head).1,
        forall|i: int|
            0 <= i < lines.len() ==> !text::starts_with(#[trigger] lines[i], "## Nudge"@),
    ensures
        launcher::nudge_state(head + lines) == (launcher::nudge_state(head).0 + lines, false),
    decreases lines.len(),
{
    let kept = launcher::nudge_state(head).0;
    if lines.len() == 0 {
        assert(head + lines =~= head);
        assert(kept + lines =~= kept);
    } else {
        let front = lines.drop_last();
        assert forall|i: int| 0 <= i < front.len() implies !text::starts_with(
            #[trigger] front[i],
            "## Nudge"@,
        ) by {
            assert(front[i] == lines[i]);
        }
        lemma_lines_are_kept(head, front);
        assert((head + lines).drop_last() =~= head + front);
        assert(!text::starts_with(lines[lines.len() - 1], "## Nudge"@));
        assert((kept + front).push(lines.last()) =~= kept + lines);
    }
}

proof fn lemma_section_is_dropped(head: Seq<Seq<char>>, section: Seq<Seq<char>>)
    requires
        launcher::nudge_state(head).1,
        forall|i: int| 0 <= i < section.len() ==> !text::starts_with(#[trigger] section[i], "## "@),
    ensures
        launcher::nudge_state(head + section) == (launcher::nudge_state(head).0, true),
    decreases section.len(),
{
    if section.len() == 0 {
        assert(head + section =~= head);
    } else {
        let front = section.drop_last();
        assert forall|i: int| 0 <= i < front.len() implies !text::starts_with(
            #[trigger] front[i],
            "## "@,
        ) by {
            assert(front[i] == section[i]);
        }
        lemma_section_is_dropped(head, front);
        assert((head + section).drop_last() =~= head + front);
        assert(!text::starts_with(section[section.len() - 1], "## "@));
    }
}

/// A prompt without a section on nudges keeps all its lines.
pub proof fn law_other_prompts_are_kept(prompt: Seq<char>)
    requires
        forall|i: int|
            0 <= i < text::lines(prompt).len() ==> !text::starts_with(
                #[trigger] text::lines(prompt)[i],
                "## Nudge"@,
            ),
    ensures
        launcher::without_nudge(prompt) == text::trim_end(text::join(text::lines(prompt), "\n"@)),
{
    let lines = text::lines(prompt);
    lemma_lines_are_kept(Seq::empty(), lines);
    assert(Seq::<Seq<char>>::empty() + lines =~= lines);
}

// ---------------------------------------------------------------------------
// The decision

/// A member goes on with what it did only if that is asked for and it was
/// launched with the same agent and prompt, or never; a member whose agent or
/// prompt changed starts anew, and the report gives that as the reason.
pub proof fn law_changed_members_start_anew(
    agent: Seq<char>,
    prompt: Seq<char>,
    asked: bool,
    previous: Option<LaunchIdentity>,
    available: bool,
    is_duplicate: bool,
    goes_on: bool,
    session: Option<Seq<char>>,
)
    ensures
        ({
            let r = launcher::resumes(asked, previous, agent, prompt);
            let why = launcher::resume_reason(
                agent,
                previous,
                asked,
                prompt,
                available,
                is_duplicate,
                goes_on,
                session,
            );
            &&& r ==> asked
            &&& (previous matches Some(p) && (p.agent@ != agent || p.prompt@ != prompt)) ==> !r
            &&& asked && previous is None ==> r
            &&& asked && (previous matches Some(p) && p.agent@ == agent && p.prompt@ == prompt)
                ==> r
            &&& !asked ==> why == "resume disabled"@
            &&& asked && previous is None ==> why == "no prior launch identity"@
            &&& asked && (previous matches Some(p) && p.agent@ != agent) ==> why
                == "agent changed"@
            &&& asked && (previous matches Some(p) && p.agent@ == agent && p.prompt@ != prompt)
                ==> why == "prompt changed"@
            &&& r && previous is Some && is_duplicate ==> why == "session duplicated"@
            &&& r && (previous matches Some(p) && p.session_id is Some) && !is_duplicate
                && !available ==> why == "session missing"@
            &&& r && previous is Some && !is_duplicate && available && goes_on && session is None
                ==> why == "identity matched"@
            &&& r && previous is Some && !is_duplicate && available && goes_on && (
            session matches Some(s) && s.len() <= 8) ==> why == "session "@ + session->Some_0
            &&& r && previous is Some && !is_duplicate && available && goes_on && (
            session matches Some(s) && s.len() > 8) ==> why == "session "@
                + session->Some_0.subrange(0, 8) + "..."@
        }),
{
}

/// The report on a member names it, says yes or no, and gives the reason.
pub proof fn law_decisions_are_reported(member: Seq<char>, goes_on: bool, reason: Seq<char>)
    ensures
        goes_on ==> launcher::resume_summary_text(member, goes_on, reason) == member + "=yes ("@
            + reason + ")"@,
        !goes_on ==> launcher::resume_summary_text(member, goes_on, reason) == member + "=no ("@
            + reason + ")"@,
{
    reveal_strlit("=");
    reveal_strlit("yes");
    reveal_strlit("no");
    reveal_strlit(" (");
    reveal_strlit("=yes (");
    reveal_strlit("=no (");
    assert(launcher::resume_summary_text(member, true, reason) =~= member + "=yes ("@ + reason
        + ")"@);
    assert(launcher::resume_summary_text(member, false, reason) =~= member + "=no ("@ + reason
        + ")"@);
}

/// A prepared member starts as working, and watched, exactly if it goes on with
/// what it did; that needs to be asked for, the same agent and prompt as
/// before, and an own session. Its plan keeps the canonical name of its agent,
/// its prompt and its directory. Over the streaming protocol it is always given
/// a new session.
pub proof fn law_prepared_members_are_ready<
    S: Fn(String, String) -> Option<String>,
    W: Fn(ScriptRequest) -> Result<String, String>,
>(
    names: ClaudeNames,
    member: MemberInstance,
    asked: bool,
    previous: Option<LaunchIdentity>,
    duplicates: Seq<Seq<char>>,
    prompt: Seq<char>,
    work_dir: Seq<char>,
    use_sdk_mode: bool,
    find_session: S,
    write_script: W,
    plan: MemberLaunchPlan,
)
    requires
        names.wf(),
        launcher::is_prepared(
            names,
            member,
            asked,
            previous,
            duplicates,
            prompt,
            work_dir,
            use_sdk_mode,
            find_session,
            write_script,
            Ok(plan),
        ),
    ensures
        ({
            let agent = match member.agent {
                Some(a) => sessions::canonical(names, a@),
                None => names.adapter@,
            };
            let goes_on = plan.initial_state == MemberState::Working;
            &&& plan.work_dir@ == work_dir
            &&& plan.identity.agent@ == agent
            &&& plan.identity.prompt@ == prompt
            &&& plan.initial_state == MemberState::Working || plan.initial_state
                == MemberState::Idle
            &&& plan.activate_watcher == goes_on
            &&& goes_on ==> asked && agent != "kiro-cli"@
            &&& goes_on && previous is Some ==> previous->Some_0.agent@ == agent
                && previous->Some_0.prompt@ == prompt
            &&& goes_on && (agent == names.adapter@ || agent == "codex-cli"@) ==> previous is Some
                && previous->Some_0.session_id is Some && !duplicates.contains(
                previous->Some_0.session_id->Some_0@,
            )
            &&& use_sdk_mode && agent == names.adapter@ ==> plan.identity.session_id is Some
                && sessions::is_random_id(plan.identity.session_id->Some_0@)
            &&& !goes_on && agent == "codex-cli"@ ==> plan.identity.session_id is None
            &&& plan.persist_session_id <==> goes_on || agent != names.adapter@
        }),
{
    let name = launcher::agent_of(names, member);
    law_agents_go_by_their_names(names, name);
    let agent = sessions::canonical(names, name);
    sessions::law_canonical_names_are_stable(names, name);
    let (resolved, fresh, session) = choose|
        resolved: Option<Seq<char>>,
        fresh: Option<Seq<char>>,
        session: Option<Seq<char>>,
    |
        {
            &&& launcher::is_lookup(find_session, agent, previous, resolved)
            &&& sessions::is_fresh_session(names, agent, fresh)
            &&& #[trigger] launcher::is_preparation(
                names,
                member,
                asked,
                previous,
                launcher::is_saved_duplicate(previous, duplicates),
                prompt,
                work_dir,
                use_sdk_mode,
                write_script,
                resolved,
                fresh,
                session,
                Ok(plan),
            )
        };
    law_member_goes_on_where_it_can(
        names,
        agent,
        sessions::has_saved_session(previous),
        launcher::resumes(asked, previous, agent, prompt),
        resolved,
        launcher::is_saved_duplicate(previous, duplicates),
        fresh,
    );
    reveal_strlit("codex-cli");
    reveal_strlit("kiro-cli");
    assert("codex-cli"@.len() == 9 && "kiro-cli"@.len() == 8);
}

// ---------------------------------------------------------------------------
// The start

/// Where `step` stands for the first time.
pub open spec fn stands(steps: Seq<LaunchStep>, at: int, step: LaunchStep) -> bool {
    0 <= at < steps.len() && steps[at] == step && forall|k: int|
        0 <= k < steps.len() && k != at ==> #[trigger] steps[k] != step
}

/// A launch types the command of its plan exactly once, after the pane stands
/// in the directory of the plan unless a shim does that, notes the state of the
/// plan after that, starts the watcher if the plan says so and not otherwise,
/// and records the launch last.
pub proof fn law_launches_have_their_order(
    steps: Seq<LaunchStep>,
    plan: MemberLaunchPlan,
    use_shim: bool,
)
    requires
        launcher::are_launch_steps(steps, plan, use_shim),
    ensures
        steps[0] == LaunchStep::ExpectSession(plan.identity.session_id),
        steps.last() is RecordSpawn,
        steps.contains(LaunchStep::ActivateWatcher) <==> plan.activate_watcher,
        exists|t: int, s: int|
            {
                &&& t < s
                &&& #[trigger] stands(steps, t, LaunchStep::Type(plan.short_cmd))
                &&& #[trigger] stands(steps, s, LaunchStep::SetState(plan.initial_state))
                &&& !use_shim ==> exists|d: int|
                    d < t && #[trigger] stands(steps, d, LaunchStep::EnterDirectory(plan.work_dir))
            },
        forall|k: int|
            0 <= k < steps.len() && #[trigger] steps[k] is Type ==> steps[k] == LaunchStep::Type(
                plan.short_cmd,
            ),
        forall|k: int| 0 <= k < steps.len() && #[trigger] steps[k] is EnterDirectory ==> !use_shim,
{
    let k: int = if use_shim {
        1
    } else {
        2
    };
    let w: int = if plan.activate_watcher {
        1
    } else {
        0
    };
    if plan.activate_watcher {
        assert(steps[k + 2] == LaunchStep::ActivateWatcher);
    }
    assert(stands(steps, k, LaunchStep::Type(plan.short_cmd)));
    assert(stands(steps, k + 1, LaunchStep::SetState(plan.initial_state)));
    if !use_shim {
        assert(stands(steps, 1, LaunchStep::EnterDirectory(plan.work_dir)));
    }
}

proof fn lemma_text_at(s: Seq<char>, head: Seq<char>, needle: Seq<char>, rest: Seq<char>)
    requires
        s == head + needle + rest,
    ensures
        text::contains(s, needle),
{
    assert(s.subrange(head.len() as int, (head.len() + needle.len()) as int) =~= needle);
    assert(text::matches_at(s, needle, head.len() as int));
}

/// The launch script names the member, enters the directory and then starts the
/// agent, with the wrappers before all else on the path; the wrappers call the
/// programs that were found, and the one of the board names the board of the
/// project; the command runs the script.
pub proof fn law_script_starts_the_agent(
    s: LaunchScript,
    member: Seq<char>,
    root: Seq<char>,
    temp: Seq<char>,
    dir: Seq<char>,
    agent_cmd: Seq<char>,
    kanban: Seq<char>,
    batty: Seq<char>,
)
    requires
        launch_script::is_launch_script(s, member, root, temp, dir, agent_cmd, kanban, batty),
    ensures
        text::contains(s.script@, "export PATH='"@ + s.wrapper_dir@ + "':\"$PATH\"\n"@),
        text::contains(s.script@, "export BATTY_MEMBER='"@ + member + "'\n"@),
        text::ends_with(s.script@, "\ncd '"@ + dir + "'\n"@ + agent_cmd + "\n"@),
        s.kanban_path@ == paths::join_path(s.wrapper_dir@, "kanban-md"@),
        s.batty_path@ == paths::join_path(s.wrapper_dir@, "batty"@),
        text::contains(s.kanban_wrapper@, "exec '"@ + kanban + "' \"$@\" --dir '"@),
        text::ends_with(
            s.kanban_wrapper@,
            " --dir '"@ + paths::join_path(
                paths::join_path(paths::join_path(root, ".batty"@), "team_config"@),
                "board"@,
            ) + "'\n"@,
        ),
        text::contains(s.batty_wrapper@, "exec '"@ + batty + "' \"$@\"\n"@),
        s.short_cmd@ == "bash '"@ + s.script_path@ + "'"@,
{
    let bash = "#!/bin/bash\n"@;
    let path = "export PATH='"@;
    let named = "export BATTY_MEMBER='"@;
    reveal_strlit("#!/bin/bash\nexport PATH='");
    reveal_strlit("#!/bin/bash\n");
    reveal_strlit("export PATH='");
    reveal_strlit("':\"$PATH\"\nexport BATTY_MEMBER='");
    reveal_strlit("':\"$PATH\"\n");
    reveal_strlit("export BATTY_MEMBER='");
    reveal_strlit("'\ncd '");
    reveal_strlit("\ncd '");
    reveal_strlit("'\n");
    let w = s.wrapper_dir@;
    assert("#!/bin/bash\nexport PATH='"@ =~= bash + path);
    assert("':\"$PATH\"\nexport BATTY_MEMBER='"@ =~= "':\"$PATH\"\n"@ + named);
    let last = "\ncd '"@ + dir + "'\n"@ + agent_cmd + "\n"@;
    assert(s.script@ =~= bash + (path + w + "':\"$PATH\"\n"@) + (named + member + "'"@ + last)) by {
        reveal_strlit("'");
        assert("'\ncd '"@ =~= "'"@ + "\ncd '"@);
    }
    lemma_text_at(
        s.script@,
        bash,
        path + w + "':\"$PATH\"\n"@,
        named + member + "'"@ + last,
    );
    let start = bash + (path + w + "':\"$PATH\"\n"@);
    let cd = "cd '"@ + dir + "'\n"@ + agent_cmd + "\n"@;
    assert(s.script@ =~= start + (named + member + "'\n"@) + cd) by {
        reveal_strlit("cd '");
        reveal_strlit("'");
        assert("'\ncd '"@ =~= "'\n"@ + "cd '"@);
        assert("'\n"@ + "cd '"@ =~= "'"@ + "\ncd '"@);
    }
    lemma_text_at(s.script@, start, named + member + "'\n"@, cd);
    let whole = s.script@;
    assert(whole.subrange(whole.len() - last.len(), whole.len() as int) =~= last);

    reveal_strlit("#!/bin/bash\nexec '");
    reveal_strlit("exec '");
    reveal_strlit("' \"$@\" --dir '");
    reveal_strlit(" --dir '");
    reveal_strlit("' \"$@\"\n");
    assert("#!/bin/bash\nexec '"@ =~= bash + "exec '"@);
    let board = paths::join_path(
        paths::join_path(paths::join_path(root, ".batty"@), "team_config"@),
        "board"@,
    );
    assert(s.kanban_wrapper@ =~= bash + ("exec '"@ + kanban + "' \"$@\" --dir '"@) + (board
        + "'\n"@));
    lemma_text_at(
        s.kanban_wrapper@,
        bash,
        "exec '"@ + kanban + "' \"$@\" --dir '"@,
        board + "'\n"@,
    );
    let tail = " --dir '"@ + board + "'\n"@;
    let k = s.kanban_wrapper@;
    assert(k.subrange(k.len() - tail.len(), k.len() as int) =~= tail);
    assert(s.batty_wrapper@ =~= bash + ("exec '"@ + batty + "' \"$@\"\n"@) + Seq::<char>::empty());
    lemma_text_at(
        s.batty_wrapper@,
        bash,
        "exec '"@ + batty + "' \"$@\"\n"@,
        Seq::<char>::empty(),
    );
}

/// Two members of a project have different scripts and wrappers.
pub proof fn law_scripts_are_apart(
    s: LaunchScript,
    t: LaunchScript,
    one: Seq<char>,
    other: Seq<char>,
    root: Seq<char>,
    temp: Seq<char>,
    dirs: (Seq<char>, Seq<char>),
    cmds: (Seq<char>, Seq<char>),
    kanban: Seq<char>,
    batty: Seq<char>,
)
    requires
        launch_script::is_launch_script(s, one, root, temp, dirs.0, cmds.0, kanban, batty),
        launch_script::is_launch_script(t, other, root, temp, dirs.1, cmds.1, kanban, batty),
        one != other,
    ensures
        s.script_path@ != t.script_path@,
        s.wrapper_dir@ != t.wrapper_dir@,
{
    reveal_strlit("batty-launch-");
    reveal_strlit("batty-bin-");
    reveal_strlit(".sh");
    let slug = launch_script::slug(root);
    let head = "batty-launch-"@ + slug + "-"@;
    let bin = "batty-bin-"@ + slug + "-"@;
    lemma_joins_apart(temp, head + one + ".sh"@, head + other + ".sh"@);
    lemma_joins_apart(temp, bin + one, bin + other);
    if head + one + ".sh"@ == head + other + ".sh"@ {
        let a = head + one + ".sh"@;
        assert(one =~= a.subrange(head.len() as int, a.len() - 3));
        assert(other =~= a.subrange(head.len() as int, a.len() - 3));
    }
    if bin + one == bin + other {
        let a = bin + one;
        assert(one =~= a.subrange(bin.len() as int, a.len() as int));
        assert(other =~= a.subrange(bin.len() as int, a.len() as int));
    }
}

proof fn lemma_joins_apart(base: Seq<char>, a: Seq<char>, b: Seq<char>)
    requires
        a.len() > 0,
        b.len() > 0,
        a[0] != '/',
        b[0] != '/',
    ensures
        paths::join_path(base, a) == paths::join_path(base, b) ==> a == b,
{
    let j = paths::join_path(base, a);
    if j == paths::join_path(base, b) {
        let n = j.len() - a.len();
        assert(j.len() - b.len() == n);
        assert(a =~= j.subrange(n as int, j.len() as int));
        assert(b =~= j.subrange(n as int, j.len() as int));
    }
}

/// The members whose panes are validated are those that are not the user and
/// have a pane, in the order of the team.
pub proof fn law_members_with_panes_are_validated(
    ms: Seq<MemberInstance>,
    panes: Seq<Seq<char>>,
    n: int,
)
    requires
        0 <= n <= ms.len() <= usize::MAX,
    ensures
        ({
            let at = launcher::launchable(ms, panes, n);
            &&& forall|k: int|
                0 <= k < at.len() ==> (#[trigger] at[k]) < n && ms[at[k] as int].role_type
                    != RoleType::User && panes.contains(ms[at[k] as int].name@)
            &&& forall|i: int|
                0 <= i < n && (#[trigger] ms[i]).role_type != RoleType::User && panes.contains(
                    ms[i].name@,
                ) ==> at.contains(i as usize)
            &&& forall|j: int, k: int|
                0 <= j < k < at.len() ==> #[trigger] at[j] < #[trigger] at[k]
        }),
    decreases n,
{
    if n > 0 {
        law_members_with_panes_are_validated(ms, panes, n - 1);
        let before = launcher::launchable(ms, panes, n - 1);
        let at = launcher::launchable(ms, panes, n);
        assert forall|i: int|
            0 <= i < n && (#[trigger] ms[i]).role_type != RoleType::User && panes.contains(
                ms[i].name@,
            ) implies at.contains(i as usize) by {
            if i < n - 1 {
                let k = choose|k: int| 0 <= k < before.len() && before[k] == i as usize;
                assert(at[k] == i as usize);
            } else {
                assert(at[at.len() - 1] == i as usize);
            }
        }
    }
}

// ---------------------------------------------------------------------------
// Sessions and directories

/// The id of a session of Codex is in the first line of its file that describes
/// the session; lines of other kinds do not count.
pub proof fn law_session_files_tell_their_id(lines: Seq<SessionLine>, from: int)
    requires
        0 <= from,
    ensures
        ({
            let describes = |l: SessionLine|
                l.kind matches Some(k) && (k matches Some(t) && t@ == "session_meta"@);
            &&& forall|i: int|
                from <= i < lines.len() && describes(#[trigger] lines[i]) && (forall|k: int|
                    from <= k < i ==> !describes(#[trigger] lines[k])) ==> match lines[i].id {
                    Some(Some(id)) => sessions::described_id(lines, from) == Some(id@),
                    _ => sessions::described_id(lines, from) is None,
                }
            &&& (forall|k: int| from <= k < lines.len() ==> !describes(#[trigger] lines[k]))
                ==> sessions::described_id(lines, from) is None
        }),
    decreases lines.len() - from,
{
    if from < lines.len() {
        law_session_files_tell_their_id(lines, from + 1);
        let l = lines[from];
        assert((sessions::opt_opt_view(l.kind) == Some(Some("session_meta"@))) == (
        l.kind matches Some(k) && (k matches Some(t) && t@ == "session_meta"@)));
    }
}

/// Codex goes on with what is found among its files, Kiro with any session that
/// has a name, and every other agent with its own session where that is there.
pub proof fn law_sessions_are_looked_up(
    agent: Seq<char>,
    id: Seq<char>,
    codex: Seq<CodexSession>,
    is_there: bool,
)
    ensures
        ({
            let r = sessions::resolved_session(agent, id, codex, is_there);
            &&& agent == "codex-cli"@ ==> r == sessions::resumable(codex, id, 0)
            &&& agent == "kiro-cli"@ ==> r == (if id.len() > 0 {
                Some(id)
            } else {
                None
            })
            &&& agent != "codex-cli"@ && agent != "kiro-cli"@ ==> r == (if is_there {
                Some(id)
            } else {
                None
            })
        }),
{
    reveal_strlit("codex-cli");
    reveal_strlit("kiro-cli");
    assert("codex-cli"@.len() == 9 && "kiro-cli"@.len() == 8);
}

/// A member with a worktree works in it, any other at the root; Codex is
/// started in a directory of its own below that.
pub proof fn law_members_work_in_their_places(root: Seq<char>, member: MemberInstance)
    ensures
        ({
            let tree = paths::join_path(
                paths::join_path(paths::join_path(root, ".batty"@), "worktrees"@),
                member.name@,
            );
            &&& member.use_worktrees ==> sessions::member_dir(root, member) == tree
            &&& !member.use_worktrees ==> sessions::member_dir(root, member) == root
            &&& forall|s: WorktreeSetup, m: bool| #[trigger]
                launcher::is_setup(s, root, member.name@, m) ==> s.worktree_dir@ == tree
                    && s.team_config_dir@ == paths::join_path(
                    paths::join_path(root, ".batty"@),
                    "team_config"@,
                ) && s.is_multi_repo == m
            &&& forall|dir: Seq<char>| #[trigger]
                sessions::codex_context_path(dir, member.name@) == paths::join_path(
                    paths::join_path(paths::join_path(dir, ".batty"@), "codex-context"@),
                    member.name@,
                )
            &&& forall|agent: Seq<char>| #[trigger]
                launch_script::is_codex(agent) <==> agent == "codex"@ || agent == "codex-cli"@
        }),
{
}

/// A session is shared exactly if two different members run the agent in it.
pub proof fn law_shared_sessions_have_two_members(
    state: Map<Seq<char>, LaunchIdentity>,
    adapter: Seq<char>,
    session: Seq<char>,
    a: Seq<char>,
    b: Seq<char>,
)
    requires
        state.contains_key(a),
        state.contains_key(b),
        state[a].agent@ == adapter,
        state[a].session_id matches Some(s) && s@ == session,
    ensures
        a != b && state[b].agent@ == adapter && (state[b].session_id matches Some(s) && s@
            == session) ==> launch_state::is_duplicated(state, adapter, session),
        (forall|n: Seq<char>|
            n != a && state.contains_key(n) ==> (#[trigger] state[n]).agent@ != adapter
                || state[n].session_id is None || state[n].session_id->Some_0@ != session)
            ==> !launch_state::is_duplicated(state, adapter, session),
{
    assert(launch_state::has_session(state, adapter, a, session));
    if a != b && state[b].agent@ == adapter && (state[b].session_id matches Some(s) && s@
        == session) {
        assert(launch_state::has_session(state, adapter, b, session));
    }
    if forall|n: Seq<char>|
        n != a && state.contains_key(n) ==> (#[trigger] state[n]).agent@ != adapter
            || state[n].session_id is None || state[n].session_id->Some_0@ != session {
        assert forall|n: Seq<char>| n != a implies !#[trigger] launch_state::has_session(
            state,
            adapter,
            n,
            session,
        ) by {
            if state.contains_key(n) {
                assert(state[n].agent@ != adapter || state[n].session_id is None
                    || state[n].session_id->Some_0@ != session);
            }
        }
    }
}

/// A new session of a member changes that session and nothing else in the state.
pub proof fn law_new_session_changes_one_member(
    state: Map<Seq<char>, LaunchIdentity>,
    after: Map<Seq<char>, LaunchIdentity>,
    name: Seq<char>,
    session: Seq<char>,
)
    requires
        state.contains_key(name),
        launch_state::with_session(state, after, name, session),
    ensures
        after.contains_key(name),
        after[name].session_id matches Some(s) && s@ == session,
        after[name].agent == state[name].agent,
        after[name].prompt == state[name].prompt,
        forall|n: Seq<char>| #[trigger] after.contains_key(n) <==> state.contains_key(n),
        forall|n: Seq<char>| n != name && state.contains_key(n) ==> #[trigger] after[n] == state[n],
{
}

// ---------------------------------------------------------------------------
// Launching a team

proof fn lemma_next_launchable(ms: Seq<MemberInstance>, panes: Seq<Seq<char>>, from: int)
    requires
        0 <= from,
    ensures
        ({
            let ready = |m: MemberInstance|
                m.role_type != RoleType::User && panes.contains(m.name@);
            match spawn::next_launchable(ms, panes, from) {
                Some(i) => from <= i < ms.len() && ready(ms[i]) && forall|k: int|
                    from <= k < i ==> !ready(#[trigger] ms[k]),
                None => forall|k: int| from <= k < ms.len() ==> !ready(#[trigger] ms[k]),
            }
        }),
    decreases ms.len() - from,
{
    if from < ms.len() && !launcher::is_launchable(ms[from], panes) {
        lemma_next_launchable(ms, panes, from + 1);
    }
}

/// A team is launched member by member: the next one is the first behind the
/// last one that has a pane and is not the user. Who started is filed with its
/// identity, what was decided on every prepared member is told in the end, and
/// a member that could not be prepared leaves nothing.
pub proof fn law_launching_goes_member_by_member(
    ms: Seq<MemberInstance>,
    panes: Seq<Seq<char>>,
    run: SpawnView,
    reply: SpawnReply,
    after: SpawnView,
    step: SpawnStep,
)
    requires
        0 <= run.next < ms.len() || reply is Start,
        0 <= run.next,
        spawn::is_next(ms, panes, run, reply, after, step),
    ensures
        ({
            let ready = |m: MemberInstance|
                m.role_type != RoleType::User && panes.contains(m.name@);
            let from = if reply is Start {
                0
            } else {
                run.next + 1
            };
            &&& step matches SpawnStep::Launch(k) ==> from <= k < ms.len() && ready(ms[k as int])
                && after.next == k && forall|i: int| from <= i < k ==> !ready(#[trigger] ms[i])
            &&& step is Done ==> forall|i: int| from <= i < ms.len() ==> !ready(#[trigger] ms[i])
            &&& (step matches SpawnStep::Done { note } ==> if after.resume_summaries.len() == 0 {
                note is None
            } else {
                note matches Some(t) && t@ == "resume: "@ + text::join(
                    after.resume_summaries,
                    ", "@,
                )
            })
            &&& match reply {
                SpawnReply::Start => after.resume_summaries == run.resume_summaries
                    && after.launched == run.launched,
                SpawnReply::NotPrepared => after.resume_summaries == run.resume_summaries
                    && after.launched == run.launched,
                SpawnReply::NotStarted { summary } => after.resume_summaries
                    == run.resume_summaries.push(summary@) && after.launched == run.launched,
                SpawnReply::Started { summary, identity } => after.resume_summaries
                    == run.resume_summaries.push(summary@) && after.launched
                    == run.launched.insert(ms[run.next].name@, identity),
            }
        }),
{
    lemma_next_launchable(ms, panes, spawn::resume_at(run, reply));
}

proof fn lemma_no_news(
    state: Map<Seq<char>, LaunchIdentity>,
    found: Seq<(String, Option<String>)>,
    n: int,
)
    requires
        0 <= n <= found.len(),
        forall|k: int|
            0 <= k < n ==> (#[trigger] found[k]).1 is None || !state.contains_key(found[k].0@) || (
            state[found[k].0@].session_id is Some && state[found[k].0@].session_id->Some_0@
                == found[k].1->Some_0@),
    ensures
        !launch_state::any_change(state, found, n),
        forall|name: Seq<char>|
            state.contains_key(name) ==> #[trigger] launch_state::synced_session(
                state,
                found,
                name,
                n,
            ) == paths::opt_view(state[name].session_id),
    decreases n,
{
    if n > 0 {
        lemma_no_news(state, found, n - 1);
        assert(found[n - 1].1 is None || !state.contains_key(found[n - 1].0@) || (
        state[found[n - 1].0@].session_id is Some && state[found[n - 1].0@].session_id->Some_0@
            == found[n - 1].1->Some_0@));
        assert forall|name: Seq<char>| state.contains_key(name) implies #[trigger]
            launch_state::synced_session(state, found, name, n) == paths::opt_view(
            state[name].session_id,
        ) by {
            assert(launch_state::synced_session(state, found, name, n - 1) == paths::opt_view(
                state[name].session_id,
            ));
        }
    }
}

/// Finding the sessions that are known already is no change.
pub proof fn law_known_sessions_are_no_news(
    state: Map<Seq<char>, LaunchIdentity>,
    found: Seq<(String, Option<String>)>,
)
    requires
        forall|k: int|
            0 <= k < found.len() ==> (#[trigger] found[k]).1 is None || !state.contains_key(
                found[k].0@,
            ) || (state[found[k].0@].session_id is Some
                && state[found[k].0@].session_id->Some_0@ == found[k].1->Some_0@),
    ensures
        !launch_state::any_change(state, found, found.len() as int),
{
    lemma_no_news(state, found, found.len() as int);
}

/// A member whose agent and prompt are as before goes on where it left off: in
/// the session that is found for the saved one, if no other member has that.
pub proof fn law_saved_sessions_are_resumed<
    S: Fn(String, String) -> Option<String>,
    W: Fn(ScriptRequest) -> Result<String, String>,
>(
    names: ClaudeNames,
    member: MemberInstance,
    saved: LaunchIdentity,
    duplicates: Seq<Seq<char>>,
    prompt: Seq<char>,
    work_dir: Seq<char>,
    use_sdk_mode: bool,
    find_session: S,
    write_script: W,
    plan: MemberLaunchPlan,
    found: Seq<char>,
)
    requires
        names.wf(),
        launcher::is_prepared(
            names,
            member,
            true,
            Some(saved),
            duplicates,
            prompt,
            work_dir,
            use_sdk_mode,
            find_session,
            write_script,
            Ok(plan),
        ),
        saved.agent@ == names.adapter@ || saved.agent@ == "codex-cli"@,
        saved.agent@ == sessions::canonical(names, launcher::agent_of(names, member)),
        saved.prompt@ == prompt,
        saved.session_id matches Some(s) && !duplicates.contains(s@),
        forall|a: String, s: String, r: Option<String>|
            a@ == saved.agent@ && s@ == saved.session_id->Some_0@ && #[trigger] call_ensures(
                find_session,
                (a, s),
                r,
            ) ==> r is Some && r->Some_0@ == found,
    ensures
        plan.initial_state == MemberState::Working,
        plan.activate_watcher,
        plan.persist_session_id,
        !(use_sdk_mode && saved.agent@ == names.adapter@) ==> plan.identity.session_id is Some
            && plan.identity.session_id->Some_0@ == found,
{
    let name = launcher::agent_of(names, member);
    law_agents_go_by_their_names(names, name);
    let agent = sessions::canonical(names, name);
    sessions::law_canonical_names_are_stable(names, name);
    let previous = Some(saved);
    let (resolved, fresh, session) = choose|
        resolved: Option<Seq<char>>,
        fresh: Option<Seq<char>>,
        session: Option<Seq<char>>,
    |
        {
            &&& launcher::is_lookup(find_session, agent, previous, resolved)
            &&& sessions::is_fresh_session(names, agent, fresh)
            &&& #[trigger] launcher::is_preparation(
                names,
                member,
                true,
                previous,
                launcher::is_saved_duplicate(previous, duplicates),
                prompt,
                work_dir,
                use_sdk_mode,
                write_script,
                resolved,
                fresh,
                session,
                Ok(plan),
            )
        };
    assert(resolved == Some(found));
    law_member_goes_on_where_it_can(
        names,
        agent,
        true,
        launcher::resumes(true, previous, agent, prompt),
        resolved,
        launcher::is_saved_duplicate(previous, duplicates),
        fresh,
    );
    reveal_strlit("codex-cli");
    reveal_strlit("kiro-cli");
    assert("codex-cli"@.len() == 9 && "kiro-cli"@.len() == 8);
}

/// The script of a prepared member is written for that member, its agent, its
/// prompt and its directory, with the session of the plan; it resumes exactly
/// where the member goes on and does not talk over the streaming protocol. What
/// writing it gave is the command of the plan.
pub proof fn law_scripts_are_written_for_their_member<
    S: Fn(String, String) -> Option<String>,
    W: Fn(ScriptRequest) -> Result<String, String>,
>(
    names: ClaudeNames,
    member: MemberInstance,
    asked: bool,
    previous: Option<LaunchIdentity>,
    duplicates: Seq<Seq<char>>,
    prompt: Seq<char>,
    work_dir: Seq<char>,
    use_sdk_mode: bool,
    find_session: S,
    write_script: W,
    plan: MemberLaunchPlan,
)
    requires
        launcher::is_prepared(
            names,
            member,
            asked,
            previous,
            duplicates,
            prompt,
            work_dir,
            use_sdk_mode,
            find_session,
            write_script,
            Ok(plan),
        ),
    ensures
        exists|s: ScriptRequest|
            {
                let agent = match member.agent {
                    Some(a) => a@,
                    None => names.agent@,
                };
                let sdk = use_sdk_mode && sessions::canonical(names, agent) == names.adapter@;
                &&& #[trigger] call_ensures(
                    write_script,
                    (s,),
                    Ok::<String, String>(plan.short_cmd),
                )
                &&& s.member_name@ == member.name@
                &&& s.agent_name@ == agent
                &&& s.prompt@ == prompt
                &&& s.work_dir@ == work_dir
                &&& s.idle
                &&& s.sdk_mode == sdk
                &&& s.resume == (plan.initial_state == MemberState::Working && !sdk)
                &&& paths::opt_view(s.session_id) == paths::opt_view(plan.identity.session_id)
            },
{
    let agent = sessions::canonical(names, launcher::agent_of(names, member));
    let is_duplicate = launcher::is_saved_duplicate(previous, duplicates);
    let (resolved, fresh, session) = choose|
        resolved: Option<Seq<char>>,
        fresh: Option<Seq<char>>,
        session: Option<Seq<char>>,
    |
        {
            &&& launcher::is_lookup(find_session, agent, previous, resolved)
            &&& sessions::is_fresh_session(names, agent, fresh)
            &&& #[trigger] launcher::is_preparation(
                names,
                member,
                asked,
                previous,
                is_duplicate,
                prompt,
                work_dir,
                use_sdk_mode,
                write_script,
                resolved,
                fresh,
                session,
                Ok(plan),
            )
        };
    let decided = launcher::decision(
        names,
        member,
        asked,
        previous,
        is_duplicate,
        prompt,
        resolved,
        fresh,
    );
    let sdk_mode = launcher::is_sdk_mode(names, member, use_sdk_mode);
    let (s, written) = choose|s: ScriptRequest, written: Result<String, String>|
        {
            &&& launcher::is_request(
                s,
                names,
                member,
                prompt,
                work_dir,
                sdk_mode,
                decided.0,
                session,
            )
            &&& #[trigger] call_ensures(write_script, (s,), written)
            &&& match written {
                Ok(cmd) => plan.short_cmd == cmd && launcher::is_plan(
                    plan,
                    names,
                    member,
                    asked,
                    previous,
                    is_duplicate,
                    prompt,
                    work_dir,
                    resolved,
                    decided,
                    session,
                ),
                Err(e) => Ok::<MemberLaunchPlan, String>(plan) == Err::<MemberLaunchPlan, String>(
                    e,
                ),
            }
        };
    assert(written == Ok::<String, String>(plan.short_cmd));
    assert(call_ensures(write_script, (s,), Ok::<String, String>(plan.short_cmd)));
}

} // verus!
