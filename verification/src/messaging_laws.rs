//! Whom a message reaches, in whose name, and who is refused.

use vstd::prelude::*;

use crate::inbox;
use crate::inbox::{InboxMessage, MessageType};
use crate::inbox_queue;
use crate::mail;
use crate::mail::Mailbox;
use crate::messaging;
use crate::messaging::TeamRoster;
use crate::paths;
use crate::team::MemberInstance;
use crate::text;

verus! {

proof fn lemma_member_index(ms: Seq<MemberInstance>, name: Seq<char>, from: int)
    requires
        0 <= from,
    ensures
        messaging::member_index(ms, name, from) matches Some(i) ==> from <= i < ms.len()
            && ms[i].name@ == name && forall|k: int|
            from <= k < i ==> (#[trigger] ms[k]).name@ != name,
        messaging::member_index(ms, name, from) is None ==> forall|k: int|
            from <= k < ms.len() ==> (#[trigger] ms[k]).name@ != name,
    decreases ms.len() - from,
{
    if from < ms.len() && ms[from].name@ != name {
        lemma_member_index(ms, name, from + 1);
    }
}

proof fn lemma_in_role(ms: Seq<MemberInstance>, role: Seq<char>)
    ensures
        ({
            let names = messaging::names_in_role(ms, role);
            &&& names.len() <= ms.len()
            &&& forall|k: int|
                0 <= k < names.len() ==> exists|i: int|
                    0 <= i < ms.len() && (#[trigger] ms[i]).role_name@ == role && ms[i].name@
                        == #[trigger] names[k]
            &&& forall|i: int|
                0 <= i < ms.len() && (#[trigger] ms[i]).role_name@ == role ==> names.contains(
                    ms[i].name@,
                )
            &&& names.len() == 1 ==> forall|i: int, j: int|
                0 <= i < ms.len() && 0 <= j < ms.len() && (#[trigger] ms[i]).role_name@ == role && (
                #[trigger] ms[j]).role_name@ == role ==> i == j
            &&& names.len() >= 2 ==> exists|i: int, j: int|
                0 <= i < j < ms.len() && (#[trigger] ms[i]).role_name@ == role && (
                #[trigger] ms[j]).role_name@ == role
        }),
    decreases ms.len(),
{
    if ms.len() > 0 {
        let front = ms.drop_last();
        lemma_in_role(front, role);
        let before = messaging::names_in_role(front, role);
        let names = messaging::names_in_role(ms, role);
        assert forall|k: int| 0 <= k < names.len() implies exists|i: int|
            0 <= i < ms.len() && (#[trigger] ms[i]).role_name@ == role && ms[i].name@
                == #[trigger] names[k] by {
            if k < before.len() {
                assert(names[k] == before[k]);
                let i = choose|i: int|
                    0 <= i < front.len() && (#[trigger] front[i]).role_name@ == role
                        && front[i].name@ == before[k];
                assert(ms[i] == front[i]);
            } else {
                assert(ms[ms.len() - 1].name@ == names[k]);
            }
        }
        assert forall|i: int| 0 <= i < ms.len() && (#[trigger] ms[i]).role_name@ == role implies names.contains(
            ms[i].name@,
        ) by {
            if i < front.len() {
                assert(front[i] == ms[i]);
                let k = choose|k: int| 0 <= k < before.len() && before[k] == front[i].name@;
                assert(names[k] == before[k]);
            } else {
                assert(names[names.len() - 1] == ms[i].name@);
            }
        }
        if names.len() == 1 {
            assert forall|i: int, j: int|
                0 <= i < ms.len() && 0 <= j < ms.len() && (#[trigger] ms[i]).role_name@ == role && (
                #[trigger] ms[j]).role_name@ == role implies i == j by {
                let last = ms.len() - 1;
                if i < last {
                    assert(front[i] == ms[i]);
                }
                if j < last {
                    assert(front[j] == ms[j]);
                }
                if i < last && j == last {
                    assert(before.contains(front[i].name@));
                }
                if j < last && i == last {
                    assert(before.contains(front[j].name@));
                }
            }
        }
        if names.len() >= 2 {
            if before.len() >= 2 {
                let (i, j) = choose|i: int, j: int|
                    0 <= i < j < front.len() && (#[trigger] front[i]).role_name@ == role && (
                    #[trigger] front[j]).role_name@ == role;
                assert(ms[i] == front[i] && ms[j] == front[j]);
            } else {
                let i = choose|i: int|
                    0 <= i < front.len() && (#[trigger] front[i]).role_name@ == role
                        && front[i].name@ == before[0];
                assert(ms[i] == front[i]);
                assert(ms[ms.len() - 1].role_name@ == role);
            }
        }
    }
}

/// A member's own name stands for that member; a role's name for its only
/// member; it is an error exactly where no member has the name and several
/// members have the role. Everything else stands for itself.
pub proof fn law_names_stand_for_members(
    roster: Option<TeamRoster>,
    ms: Seq<MemberInstance>,
    name: Seq<char>,
)
    requires
        messaging::members_of(roster) == Some(ms),
        name != "human"@,
        name != "daemon"@,
    ensures
        ({
            let found = messaging::member_name_of(roster, name);
            let is_member = exists|i: int| 0 <= i < ms.len() && (#[trigger] ms[i]).name@ == name;
            &&& is_member ==> found == Ok::<Seq<char>, Seq<char>>(name)
            &&& found is Err <==> !is_member && exists|i: int, j: int|
                0 <= i < j < ms.len() && (#[trigger] ms[i]).role_name@ == name && (
                #[trigger] ms[j]).role_name@ == name
            &&& forall|i: int|
                0 <= i < ms.len() && (#[trigger] ms[i]).role_name@ == name && found is Ok
                    && !is_member ==> found == Ok::<Seq<char>, Seq<char>>(ms[i].name@)
            &&& (forall|i: int|
                0 <= i < ms.len() ==> (#[trigger] ms[i]).name@ != name && ms[i].role_name@ != name)
                ==> found == Ok::<Seq<char>, Seq<char>>(name)
            &&& found matches Err(e) ==> forall|i: int|
                0 <= i < ms.len() && (#[trigger] ms[i]).role_name@ == name ==> text::contains(
                    e,
                    ms[i].name@,
                )
        }),
{
    lemma_member_index(ms, name, 0);
    lemma_in_role(ms, name);
    let names = messaging::names_in_role(ms, name);
    if messaging::member_name_of(roster, name) is Err {
        let e = messaging::ambiguous_text(name, names);
        assert forall|i: int| 0 <= i < ms.len() && (#[trigger] ms[i]).role_name@ == name implies text::contains(
            e,
            ms[i].name@,
        ) by {
            let k = choose|k: int| 0 <= k < names.len() && names[k] == ms[i].name@;
            lemma_joined_holds(names, ", "@, k);
            let list = text::join(names, ", "@);
            let at = choose|at: int| text::matches_at(list, names[k], at);
            let head = "'"@ + name + "' matches multiple members: "@;
            assert(e =~= head + list + ". Use the explicit member name."@);
            assert(e.subrange(head.len() + at, head.len() + at + names[k].len())
                =~= list.subrange(at, at + names[k].len()));
            assert(text::matches_at(e, names[k], head.len() + at));
        }
    }
    if names.len() == 1 {
        assert forall|i: int|
            0 <= i < ms.len() && (#[trigger] ms[i]).role_name@ == name implies names[0]
            == ms[i].name@ by {
            assert(names.contains(ms[i].name@));
        }
    }
}

proof fn lemma_joined_holds(parts: Seq<Seq<char>>, sep: Seq<char>, i: int)
    requires
        0 <= i < parts.len(),
    ensures
        text::contains(text::join(parts, sep), parts[i]),
    decreases parts.len(),
{
    let whole = text::join(parts, sep);
    if i == parts.len() - 1 {
        let at = whole.len() - parts[i].len();
        assert(whole.subrange(at, whole.len() as int) =~= parts[i]);
        assert(text::matches_at(whole, parts[i], at));
    } else {
        let front = parts.drop_last();
        lemma_joined_holds(front, sep, i);
        let at = choose|at: int| text::matches_at(text::join(front, sep), front[i], at);
        assert(whole.subrange(at, at + parts[i].len()) =~= text::join(front, sep).subrange(
            at,
            at + parts[i].len(),
        ));
        assert(text::matches_at(whole, parts[i], at));
    }
}

/// The user and the daemon stand for themselves, and so does every name where
/// there is no team.
pub proof fn law_outside_names_stand_for_themselves(roster: Option<TeamRoster>, name: Seq<char>)
    requires
        name == "human"@ || name == "daemon"@ || messaging::members_of(roster) is None,
    ensures
        messaging::member_name_of(roster, name) == Ok::<Seq<char>, Seq<char>>(name),
        messaging::role_name_of(roster, name) == name,
{
}

/// The role of a member is the role of the first member of that name; a name
/// that no member has stands for itself.
pub proof fn law_roles_of_members(
    roster: Option<TeamRoster>,
    ms: Seq<MemberInstance>,
    name: Seq<char>,
)
    requires
        messaging::members_of(roster) == Some(ms),
        name != "human"@,
        name != "daemon"@,
    ensures
        forall|i: int|
            0 <= i < ms.len() && (#[trigger] ms[i]).name@ == name && (forall|k: int|
                0 <= k < i ==> (#[trigger] ms[k]).name@ != name) ==> messaging::role_name_of(
                roster,
                name,
            ) == ms[i].role_name@,
        (forall|i: int| 0 <= i < ms.len() ==> (#[trigger] ms[i]).name@ != name)
            ==> messaging::role_name_of(roster, name) == name,
{
    lemma_member_index(ms, name, 0);
}

/// A message goes out in the name of whoever is given, or else of whoever was
/// detected, if they have a place in the team; in any other case it goes out
/// in the name of the user. So nobody outside the team can sign.
pub proof fn law_only_the_team_signs(
    roster: Option<TeamRoster>,
    ms: Seq<MemberInstance>,
    given: Option<Seq<char>>,
    detected: Option<Seq<char>>,
)
    requires
        messaging::members_of(roster) == Some(ms),
        roster is Some,
    ensures
        ({
            let sender = messaging::sender_of(roster, given, detected);
            let has_a_place = |s: Seq<char>|
                s == "human"@ || s == "daemon"@ || (exists|i: int|
                    0 <= i < roster->Some_0.roles@.len() && (#[trigger] roster->Some_0.roles@[i])@
                        == s) || (exists|i: int|
                    0 <= i < ms.len() && (#[trigger] ms[i]).name@ == s);
            &&& has_a_place(sender)
            &&& given matches Some(g) ==> sender == (if has_a_place(g) {
                g
            } else {
                "human"@
            })
            &&& given is None && detected is Some ==> sender == (if has_a_place(
                detected->Some_0,
            ) {
                detected->Some_0
            } else {
                "human"@
            })
            &&& given is None && detected is None ==> sender == "human"@
        }),
{
    let roles = roster->Some_0.roles@;
    assert forall|s: Seq<char>| #[trigger] messaging::belongs(roster, s) == (s == "human"@ || s
        == "daemon"@ || (exists|i: int| 0 <= i < roles.len() && (#[trigger] roles[i])@ == s) || (
    exists|i: int| 0 <= i < ms.len() && (#[trigger] ms[i]).name@ == s)) by {
        lemma_member_index(ms, s, 0);
        let views = text::views(roles);
        if views.contains(s) {
            let i = choose|i: int| 0 <= i < views.len() && views[i] == s;
            assert(roles[i]@ == s);
        }
        if exists|i: int| 0 <= i < roles.len() && (#[trigger] roles[i])@ == s {
            let i = choose|i: int| 0 <= i < roles.len() && (#[trigger] roles[i])@ == s;
            assert(views[i] == s);
        }
    }
}

/// A member that the environment names is the caller; else the pane's role,
/// without white space around it. Nothing is detected from empty texts.
pub proof fn law_callers_are_detected(var: Option<Seq<char>>, pane: Option<Seq<char>>)
    ensures
        ({
            let found = messaging::detected_sender(var, pane);
            &&& var is Some && var->Some_0.len() > 0 ==> found == var
            &&& var is None || var == Some(Seq::<char>::empty()) ==> (pane matches Some(p) ==> (
            text::trim(p).len() > 0 ==> found == Some(text::trim(p))) && (text::trim(p).len() == 0
                ==> found is None)) && (pane is None ==> found is None)
            &&& found matches Some(s) ==> s.len() > 0
        }),
{
    if var is Some && var->Some_0.len() == 0 {
        assert(var->Some_0 =~= Seq::<char>::empty());
    }
}

/// A message that was accepted is pending for the one whom the name stands
/// for, in the inbox of that member below the project, with the sender, the
/// recipient and the body that were given and of the given kind; no other
/// mailbox changes. A message that was refused changes nothing, and without a
/// team nobody is refused.
pub proof fn law_posted_messages_arrive<F: Fn(String, String) -> bool>(
    before: Map<Seq<char>, Mailbox>,
    after: Map<Seq<char>, Mailbox>,
    root: Seq<char>,
    roster: Option<TeamRoster>,
    can_talk: F,
    from: Seq<char>,
    name: Seq<char>,
    body: Seq<char>,
    msg_type: MessageType,
    verb: Seq<char>,
    id: Seq<char>,
    result: Result<Seq<char>, Seq<char>>,
)
    requires
        messaging::is_posting(
            before,
            after,
            root,
            roster,
            can_talk,
            from,
            name,
            body,
            msg_type,
            verb,
            id,
            result,
        ),
    ensures
        result is Err ==> after == before,
        roster is None ==> result == Ok::<Seq<char>, Seq<char>>(id),
        result matches Ok(stored) ==> {
            let to = messaging::member_name_of(roster, name)->Ok_0;
            let path = paths::join_path(
                paths::join_path(paths::join_path(root, ".batty"@), "inboxes"@),
                to,
            );
            &&& stored == id
            &&& exists|m: InboxMessage| #[trigger]
                inbox_queue::is_held(mail::mailbox_at(after, path).new, m) && m.id@ == id && m.from@
                    == from && m.to@ == to && m.body@ == body && m.msg_type == msg_type
            &&& mail::mailbox_at(after, path).new.len() == mail::mailbox_at(before, path).new.len()
                + 1
            &&& mail::mailbox_at(after, path).cur == mail::mailbox_at(before, path).cur
            &&& forall|p: Seq<char>|
                p != path ==> #[trigger] mail::mailbox_at(after, p) == mail::mailbox_at(before, p)
        },
        result is Ok && roster is Some ==> exists|a: String, b: String|
            a@ == messaging::role_name_of(roster, from) && b@ == messaging::role_name_of(
                roster,
                messaging::member_name_of(roster, name)->Ok_0,
            ) && #[trigger] call_ensures(can_talk, (a, b), true),
{
    if result is Ok {
        let to = messaging::member_name_of(roster, name)->Ok_0;
        let path = inbox_queue::inbox_path(inbox::inboxes_root_path(root), to);
        let m = choose|m: InboxMessage|
            {
                &&& m.is_new(from, to, body, msg_type)
                &&& #[trigger] inbox_queue::is_delivery(before, after, path, m, id)
            };
        inbox_queue::law_delivery_reaches_the_recipient(before, after, path, m, id);
        let held = choose|held: InboxMessage| #[trigger]
            inbox_queue::is_held(mail::mailbox_at(after, path).new, held) && mail::is_filed_as(
                held,
                m,
                id,
            );
        assert(held.from@ == from);
    }
}

} // verus!
