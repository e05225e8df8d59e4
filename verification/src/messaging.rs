//! Routing of messages: who a name stands for, who sends, who may talk to
//! whom.
//!
//! What the team configuration says comes in as a roster; there is none where
//! the configuration is missing or cannot be read.

use vstd::prelude::*;
use vstd::string::*;

use crate::inbox;
use crate::inbox::{inboxes_root, InboxMessage, MessageType};
use crate::inbox_queue;
use crate::inbox_queue::deliver_to_inbox;
use crate::mail::{MailStore, Mailbox};
use crate::paths;
use crate::team::MemberInstance;
use crate::text;
use crate::text::{copy, is_among, join_strings, same, trimmed_str};

verus! {

/// What the team configuration says about names.
pub struct TeamRoster {
    /// The names of the configured roles.
    pub roles: Vec<String>,
    /// The members, where the hierarchy could be resolved.
    pub members: Option<Vec<MemberInstance>>,
}

/// The members of a roster, where there are any to be had.
pub open spec fn members_of(roster: Option<TeamRoster>) -> Option<Seq<MemberInstance>> {
    match roster {
        Some(r) => match r.members {
            Some(m) => Some(m@),
            None => None,
        },
        None => None,
    }
}

/// The names that stand for no member: the user and the daemon.
pub open spec fn is_outside_name(name: Seq<char>) -> bool {
    name == "human"@ || name == "daemon"@
}

fn outside_name(name: &str) -> (r: bool)
    ensures
        r == is_outside_name(name@),
{
    same(name, "human") || same(name, "daemon")
}

/// The first member of this name, from the position `from` on.
pub open spec fn member_index(ms: Seq<MemberInstance>, name: Seq<char>, from: int) -> Option<int>
    decreases ms.len() - from,
{
    if 0 <= from < ms.len() {
        if ms[from].name@ == name {
            Some(from)
        } else {
            member_index(ms, name, from + 1)
        }
    } else {
        None
    }
}

fn find_member(ms: &Vec<MemberInstance>, name: &str) -> (r: Option<usize>)
    ensures
        match r {
            Some(i) => member_index(ms@, name@, 0) == Some(i as int) && i < ms@.len(),
            None => member_index(ms@, name@, 0) is None,
        },
{
    let mut i: usize = 0;
    while i < ms.len()
        invariant
            i <= ms@.len(),
            member_index(ms@, name@, 0) == member_index(ms@, name@, i as int),
        decreases ms@.len() - i,
    {
        if same(ms[i].name.as_str(), name) {
            return Some(i);
        }
        i += 1;
    }
    None
}

/// The names of the members of a role.
pub open spec fn names_in_role(ms: Seq<MemberInstance>, role: Seq<char>) -> Seq<Seq<char>>
    decreases ms.len(),
{
    if ms.len() == 0 {
        Seq::empty()
    } else {
        let rest = names_in_role(ms.drop_last(), role);
        if ms.last().role_name@ == role {
            rest.push(ms.last().name@)
        } else {
            rest
        }
    }
}

fn find_in_role(ms: &Vec<MemberInstance>, role: &str) -> (r: Vec<String>)
    ensures
        text::views(r@) == names_in_role(ms@, role@),
{
    let mut out: Vec<String> = Vec::new();
    let mut i: usize = 0;
    assert(text::views(out@) == names_in_role(ms@.take(0), role@));
    while i < ms.len()
        invariant
            i <= ms@.len(),
            text::views(out@) == names_in_role(ms@.take(i as int), role@),
        decreases ms@.len() - i,
    {
        assert(ms@.take(i + 1).drop_last() == ms@.take(i as int));
        if same(ms[i].role_name.as_str(), role) {
            let ghost before = out@;
            out.push(copy(ms[i].name.as_str()));
            assert(text::views(out@) == text::views(before).push(ms@[i as int].name@));
        }
        i += 1;
    }
    assert(ms@.take(i as int) == ms@);
    out
}

/// The role of a member; a name that is no member's stands for itself.
pub open spec fn role_name_of(roster: Option<TeamRoster>, name: Seq<char>) -> Seq<char> {
    if is_outside_name(name) {
        name
    } else {
        match members_of(roster) {
            Some(ms) => match member_index(ms, name, 0) {
                Some(i) => ms[i].role_name@,
                None => name,
            },
            None => name,
        }
    }
}

/// The role of a member, such as `engineer` for `eng-1-2`; a name that is no
/// member's stands for itself.
pub fn resolve_role_name(roster: &Option<TeamRoster>, member_name: &str) -> (r: String)
    ensures
        r@ == role_name_of(*roster, member_name@),
{
    if outside_name(member_name) {
        return copy(member_name);
    }
    if let Some(roster) = roster {
        if let Some(ms) = &roster.members {
            if let Some(i) = find_member(ms, member_name) {
                return copy(ms[i].role_name.as_str());
            }
        }
    }
    copy(member_name)
}

/// Why a name cannot be resolved.
pub open spec fn ambiguous_text(name: Seq<char>, matches: Seq<Seq<char>>) -> Seq<char> {
    "'"@ + name + "' matches multiple members: "@ + text::join(matches, ", "@)
        + ". Use the explicit member name."@
}

/// The member that a name stands for.
pub open spec fn member_name_of(roster: Option<TeamRoster>, name: Seq<char>) -> Result<
    Seq<char>,
    Seq<char>,
> {
    if is_outside_name(name) {
        Ok(name)
    } else {
        match members_of(roster) {
            Some(ms) => if member_index(ms, name, 0) is Some {
                Ok(name)
            } else {
                let matches = names_in_role(ms, name);
                if matches.len() == 0 {
                    Ok(name)
                } else if matches.len() == 1 {
                    Ok(matches[0])
                } else {
                    Err(ambiguous_text(name, matches))
                }
            },
            None => Ok(name),
        }
    }
}

/// The texts of a result.
pub open spec fn texts(r: Result<String, String>) -> Result<Seq<char>, Seq<char>> {
    match r {
        Ok(s) => Ok(s@),
        Err(e) => Err(e@),
    }
}

/// The member that a name stands for: a member's name stands for the member,
/// the name of a role with one member for this member. A role with several
/// members is an error; any other name stands for itself.
pub fn resolve_member_name(roster: &Option<TeamRoster>, member_name: &str) -> (r: Result<
    String,
    String,
>)
    ensures
        texts(r) == member_name_of(*roster, member_name@),
{
    if outside_name(member_name) {
        return Ok(copy(member_name));
    }
    if let Some(roster) = roster {
        if let Some(ms) = &roster.members {
            if let Some(_) = find_member(ms, member_name) {
                return Ok(copy(member_name));
            }
            let matches: Vec<String> = find_in_role(ms, member_name);
            assert(text::views(matches@).len() == matches@.len());
            if matches.len() == 0 {
                return Ok(copy(member_name));
            }
            if matches.len() == 1 {
                assert(text::views(matches@)[0] == matches@[0]@);
                return Ok(copy(matches[0].as_str()));
            }
            return Err(
                copy("'").concat(member_name).concat("' matches multiple members: ").concat(
                    join_strings(&matches, ", ").as_str(),
                ).concat(". Use the explicit member name."),
            );
        }
    }
    Ok(copy(member_name))
}

// ---------------------------------------------------------------------------
// Senders

/// Who calls: the member that the environment names, else the role of the
/// terminal pane, where either says something.
pub open spec fn detected_sender(
    member_var: Option<Seq<char>>,
    pane_output: Option<Seq<char>>,
) -> Option<Seq<char>> {
    if member_var is Some && member_var->Some_0.len() > 0 {
        member_var
    } else {
        match pane_output {
            Some(out) => if text::trim(out).len() > 0 {
                Some(text::trim(out))
            } else {
                None
            },
            None => None,
        }
    }
}

fn is_filled(s: &str) -> (r: bool)
    ensures
        r == (s@.len() > 0),
{
    s.unicode_len() > 0
}

/// Detects who calls, from the `BATTY_MEMBER` variable and from what the
/// terminal multiplexer printed for the pane's role where it could be asked.
pub fn detect_sender(member_var: &Option<String>, pane_output: &Option<String>) -> (r: Option<
    String,
>)
    ensures
        paths::opt_view(r) == detected_sender(
            paths::opt_view(*member_var),
            paths::opt_view(*pane_output),
        ),
{
    if let Some(member) = member_var {
        if is_filled(member.as_str()) {
            return Some(copy(member.as_str()));
        }
    }
    match pane_output {
        Some(out) => {
            let role: String = trimmed_str(out.as_str());
            if is_filled(role.as_str()) {
                Some(role)
            } else {
                None
            }
        },
        None => None,
    }
}

/// The sender is the user, the daemon, or has a place in the team.
pub open spec fn belongs(roster: Option<TeamRoster>, sender: Seq<char>) -> bool {
    ||| is_outside_name(sender)
    ||| roster matches Some(r) && text::views(r.roles@).contains(sender)
    ||| members_of(roster) matches Some(ms) && member_index(ms, sender, 0) is Some
}

/// Tells whether a sender has a place in this team.
pub fn sender_belongs_to_project(roster: &Option<TeamRoster>, sender: &str) -> (r: bool)
    ensures
        r == belongs(*roster, sender@),
{
    if outside_name(sender) {
        return true;
    }
    match roster {
        Some(roster) => {
            if is_among(&roster.roles, sender) {
                return true;
            }
            match &roster.members {
                Some(ms) => find_member(ms, sender).is_some(),
                None => false,
            }
        },
        None => false,
    }
}

/// The sender of a message: the given one, else the detected one, where they
/// belong to the team; else the user.
pub open spec fn sender_of(
    roster: Option<TeamRoster>,
    from_override: Option<Seq<char>>,
    detected: Option<Seq<char>>,
) -> Seq<char> {
    let candidate = match from_override {
        Some(s) => s,
        None => match detected {
            Some(s) => s,
            None => "human"@,
        },
    };
    if belongs(roster, candidate) {
        candidate
    } else {
        "human"@
    }
}

/// The sender of a message.
pub fn effective_sender(
    roster: &Option<TeamRoster>,
    from_override: &Option<String>,
    detected: &Option<String>,
) -> (r: String)
    ensures
        r@ == sender_of(*roster, paths::opt_view(*from_override), paths::opt_view(*detected)),
{
    let candidate: String = match from_override {
        Some(s) => copy(s.as_str()),
        None => match detected {
            Some(s) => copy(s.as_str()),
            None => copy("human"),
        },
    };
    if sender_belongs_to_project(roster, candidate.as_str()) {
        candidate
    } else {
        copy("human")
    }
}

// ---------------------------------------------------------------------------
// Sending

/// The rule on who may talk to whom may answer so for these roles.
pub open spec fn is_answer<F: Fn(String, String) -> bool>(
    can_talk: F,
    from_role: Seq<char>,
    to_role: Seq<char>,
    answer: bool,
) -> bool {
    exists|a: String, b: String|
        a@ == from_role && b@ == to_role && #[trigger] call_ensures(can_talk, (a, b), answer)
}

/// Why a message is refused.
pub open spec fn refusal(
    from: Seq<char>,
    from_role: Seq<char>,
    verb: Seq<char>,
    to: Seq<char>,
    to_role: Seq<char>,
) -> Seq<char> {
    from + " ("@ + from_role + ") is not allowed to "@ + verb + " "@ + to + " ("@ + to_role
        + "). Check talks_to in team.yaml."@
}

/// The message may pass: there is no configuration, or its rule says so.
pub open spec fn may_pass<F: Fn(String, String) -> bool>(
    roster: Option<TeamRoster>,
    can_talk: F,
    from: Seq<char>,
    to: Seq<char>,
    answer: bool,
) -> bool {
    match roster {
        Some(_) => is_answer(
            can_talk,
            role_name_of(roster, from),
            role_name_of(roster, to),
            answer,
        ),
        None => answer,
    }
}

/// Asks whether `from` may talk to `to`.
fn ask<F: Fn(String, String) -> bool>(
    roster: &Option<TeamRoster>,
    can_talk: &F,
    verb: &str,
    from: &str,
    to: &str,
) -> (r: Result<(), String>)
    requires
        forall|a: String, b: String| #[trigger] call_requires(*can_talk, (a, b)),
    ensures
        may_pass(*roster, *can_talk, from@, to@, r is Ok),
        r matches Err(e) ==> e@ == refusal(
            from@,
            role_name_of(*roster, from@),
            verb@,
            to@,
            role_name_of(*roster, to@),
        ),
{
    match roster {
        Some(_) => {
            let from_role: String = resolve_role_name(roster, from);
            let to_role: String = resolve_role_name(roster, to);
            let a: String = copy(from_role.as_str());
            let b: String = copy(to_role.as_str());
            let ghost pair = (a, b);
            let answer: bool = can_talk(a, b);
            assert(call_ensures(*can_talk, (pair.0, pair.1), answer));
            assert(is_answer(*can_talk, from_role@, to_role@, answer));
            if answer {
                Ok(())
            } else {
                Err(
                    copy(from).concat(" (").concat(from_role.as_str()).concat(
                        ") is not allowed to ",
                    ).concat(verb).concat(" ").concat(to).concat(" (").concat(
                        to_role.as_str(),
                    ).concat("). Check talks_to in team.yaml."),
                )
            }
        },
        None => Ok(()),
    }
}

/// A message of this kind was delivered, and nothing else happened.
pub open spec fn is_posted(
    before: Map<Seq<char>, Mailbox>,
    after: Map<Seq<char>, Mailbox>,
    project_root: Seq<char>,
    from: Seq<char>,
    to: Seq<char>,
    body: Seq<char>,
    msg_type: MessageType,
    id: Seq<char>,
) -> bool {
    exists|m: InboxMessage|
        {
            &&& m.is_new(from, to, body, msg_type)
            &&& #[trigger] inbox_queue::is_delivery(
                before,
                after,
                inbox_queue::inbox_path(inbox::inboxes_root_path(project_root), to),
                m,
                id,
            )
        }
}

/// The id is not in use in the inbox of whoever the name stands for.
pub open spec fn is_fresh_for(
    store: Map<Seq<char>, Mailbox>,
    project_root: Seq<char>,
    roster: Option<TeamRoster>,
    name: Seq<char>,
    id: Seq<char>,
) -> bool {
    member_name_of(roster, name) matches Ok(to) ==> inbox_queue::is_fresh(
        store,
        inbox_queue::inbox_path(inbox::inboxes_root_path(project_root), to),
        id,
    )
}

/// What posting a message does: it fails where the recipient is ambiguous or
/// may not be written to, and leaves everything as it is; else the message is
/// delivered.
pub open spec fn is_posting<F: Fn(String, String) -> bool>(
    before: Map<Seq<char>, Mailbox>,
    after: Map<Seq<char>, Mailbox>,
    project_root: Seq<char>,
    roster: Option<TeamRoster>,
    can_talk: F,
    from: Seq<char>,
    name: Seq<char>,
    body: Seq<char>,
    msg_type: MessageType,
    verb: Seq<char>,
    id: Seq<char>,
    result: Result<Seq<char>, Seq<char>>,
) -> bool {
    match member_name_of(roster, name) {
        Err(e) => result == Err::<Seq<char>, Seq<char>>(e) && after == before,
        Ok(to) => {
            &&& may_pass(roster, can_talk, from, to, result is Ok)
            &&& match result {
                Ok(stored) => stored == id && is_posted(
                    before,
                    after,
                    project_root,
                    from,
                    to,
                    body,
                    msg_type,
                    id,
                ),
                Err(e) => after == before && e == refusal(
                    from,
                    role_name_of(roster, from),
                    verb,
                    to,
                    role_name_of(roster, to),
                ),
            }
        },
    }
}

/// Sends a message from the detected sender to the inbox of a role or member.
pub fn send_message<F: Fn(String, String) -> bool>(
    store: &mut MailStore,
    project_root: &str,
    roster: &Option<TeamRoster>,
    can_talk: &F,
    detected: &Option<String>,
    role: &str,
    msg: &str,
    id: &str,
) -> (r: Result<String, String>)
    requires
        old(store).wf(),
        forall|a: String, b: String| #[trigger] call_requires(*can_talk, (a, b)),
        is_fresh_for(old(store)@, project_root@, *roster, role@, id@),
    ensures
        final(store).wf(),
        is_posting(
            old(store)@,
            final(store)@,
            project_root@,
            *roster,
            *can_talk,
            sender_of(*roster, None, paths::opt_view(*detected)),
            role@,
            msg@,
            MessageType::Send,
            "message"@,
            id@,
            texts(r),
        ),
{
    send_message_as(store, project_root, roster, can_talk, &None, detected, role, msg, id)
}

/// Sends a message to the inbox of a role or member, from the given sender,
/// or else from the detected one. Returns the id of the stored message.
pub fn send_message_as<F: Fn(String, String) -> bool>(
    store: &mut MailStore,
    project_root: &str,
    roster: &Option<TeamRoster>,
    can_talk: &F,
    from_override: &Option<String>,
    detected: &Option<String>,
    role: &str,
    msg: &str,
    id: &str,
) -> (r: Result<String, String>)
    requires
        old(store).wf(),
        forall|a: String, b: String| #[trigger] call_requires(*can_talk, (a, b)),
        is_fresh_for(old(store)@, project_root@, *roster, role@, id@),
    ensures
        final(store).wf(),
        is_posting(
            old(store)@,
            final(store)@,
            project_root@,
            *roster,
            *can_talk,
            sender_of(*roster, paths::opt_view(*from_override), paths::opt_view(*detected)),
            role@,
            msg@,
            MessageType::Send,
            "message"@,
            id@,
            texts(r),
        ),
{
    let from: String = effective_sender(roster, from_override, detected);
    let to: String = match resolve_member_name(roster, role) {
        Ok(to) => to,
        Err(e) => {
            return Err(e);
        },
    };
    match ask(roster, can_talk, "message", from.as_str(), to.as_str()) {
        Ok(_) => {},
        Err(e) => {
            return Err(e);
        },
    }
    let root: String = inboxes_root(project_root);
    let m: InboxMessage = InboxMessage::new_send(from.as_str(), to.as_str(), msg);
    Ok(deliver_to_inbox(store, root.as_str(), &m, id))
}

/// Assigns a task to an engineer by a message to their inbox, from the
/// detected sender. Returns the id of the stored message.
pub fn assign_task<F: Fn(String, String) -> bool>(
    store: &mut MailStore,
    project_root: &str,
    roster: &Option<TeamRoster>,
    can_talk: &F,
    detected: &Option<String>,
    engineer: &str,
    task: &str,
    id: &str,
) -> (r: Result<String, String>)
    requires
        old(store).wf(),
        forall|a: String, b: String| #[trigger] call_requires(*can_talk, (a, b)),
        is_fresh_for(old(store)@, project_root@, *roster, engineer@, id@),
    ensures
        final(store).wf(),
        is_posting(
            old(store)@,
            final(store)@,
            project_root@,
            *roster,
            *can_talk,
            sender_of(*roster, None, paths::opt_view(*detected)),
            engineer@,
            task@,
            MessageType::Assign,
            "assign"@,
            id@,
            texts(r),
        ),
{
    let from: String = effective_sender(roster, &None, detected);
    let to: String = match resolve_member_name(roster, engineer) {
        Ok(to) => to,
        Err(e) => {
            return Err(e);
        },
    };
    match ask(roster, can_talk, "assign", from.as_str(), to.as_str()) {
        Ok(_) => {},
        Err(e) => {
            return Err(e);
        },
    }
    let root: String = inboxes_root(project_root);
    let m: InboxMessage = InboxMessage::new_assign(from.as_str(), to.as_str(), task);
    Ok(deliver_to_inbox(store, root.as_str(), &m, id))
}

} // verus!
