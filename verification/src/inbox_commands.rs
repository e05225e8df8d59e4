//! The inbox commands: listing, reading, acknowledging and purging messages,
//! and merging a worktree.

use vstd::prelude::*;
use vstd::string::*;

use crate::digits;
use crate::inbox;
use crate::inbox::{inboxes_root, InboxPurgeSummary, Listed, MessageType};
use crate::inbox_queue;
use crate::inbox_queue::{
    all_messages, mark_delivered, purge_delivered_messages, purge_delivered_messages_for_all,
};
use crate::mail;
use crate::mail::{MailStore, Mailbox};
use crate::merge::lock::MergeOutcome;
use crate::messaging;
use crate::messaging::{resolve_member_name, TeamRoster};
use crate::text;
use crate::text::{
    begins, chars_of, copy, decimal_string, decimal_usize, padded_right, repeated, same, string_of,
};

verus! {

/// How much of a body a listing shows.
pub const INBOX_BODY_PREVIEW_CHARS: usize = 140;

/// `input`, cut after `max_chars` characters.
pub open spec fn truncated(input: Seq<char>, max_chars: nat) -> Seq<char> {
    if input.len() <= max_chars {
        input
    } else {
        input.take(max_chars as int) + "..."@
    }
}

/// Cuts a text after `max_chars` characters; a cut text ends with three dots.
pub fn truncate_chars(input: &str, max_chars: usize) -> (r: String)
    ensures
        r@ == truncated(input@, max_chars as nat),
{
    let chars: Vec<char> = chars_of(input);
    if chars.len() <= max_chars {
        return copy(input);
    }
    assert(input@.subrange(0, max_chars as int) == input@.take(max_chars as int));
    string_of(&chars, 0, max_chars).concat("...")
}

// ---------------------------------------------------------------------------
// References

/// How many of `ms` are dated at this second.
pub open spec fn dated_at(ms: Seq<Listed>, timestamp: u64) -> nat
    decreases ms.len(),
{
    if ms.len() == 0 {
        0
    } else {
        dated_at(ms.drop_last(), timestamp) + (if ms.last().0.timestamp == timestamp {
            1nat
        } else {
            0nat
        })
    }
}

fn count_dated(ms: &Vec<Listed>, timestamp: u64, upto: usize) -> (r: usize)
    requires
        upto <= ms@.len(),
    ensures
        r == dated_at(ms@.take(upto as int), timestamp),
        r <= upto,
{
    let mut count: usize = 0;
    let mut i: usize = 0;
    while i < upto
        invariant
            i <= upto <= ms@.len(),
            count <= i,
            count == dated_at(ms@.take(i as int), timestamp),
        decreases upto - i,
    {
        assert(ms@.take(i + 1).drop_last() == ms@.take(i as int));
        if ms[i].0.timestamp == timestamp {
            count += 1;
        }
        i += 1;
    }
    count
}

/// The reference of the message at position `i`: its time, and, where several
/// messages have the same time, its number among them.
pub open spec fn ref_at(ms: Seq<Listed>, i: int) -> Seq<char> {
    let t = ms[i].0.timestamp;
    if dated_at(ms, t) <= 1 {
        text::decimal(t as nat)
    } else {
        text::decimal(t as nat) + "-"@ + text::decimal(dated_at(ms.take(i + 1), t))
    }
}

/// The references of the messages of a listing.
pub open spec fn refs_of(ms: Seq<Listed>) -> Seq<Seq<char>> {
    Seq::new(ms.len(), |i: int| ref_at(ms, i))
}

/// The short references of the messages of a listing.
pub fn inbox_message_refs(messages: &Vec<Listed>) -> (r: Vec<String>)
    ensures
        text::views(r@) == refs_of(messages@),
{
    let mut out: Vec<String> = Vec::new();
    let mut i: usize = 0;
    while i < messages.len()
        invariant
            i <= messages@.len(),
            text::views(out@) == refs_of(messages@).take(i as int),
        decreases messages@.len() - i,
    {
        let t: u64 = messages[i].0.timestamp;
        let total: usize = count_dated(messages, t, messages.len());
        assert(messages@.take(messages@.len() as int) == messages@);
        let stamp: String = decimal_string(t);
        let text_of_ref: String = if total <= 1 {
            stamp
        } else {
            stamp.concat("-").concat(decimal_usize(count_dated(messages, t, i + 1)).as_str())
        };
        let ghost before = out@;
        assert(text_of_ref@ == ref_at(messages@, i as int));
        let ghost shown = text_of_ref@;
        out.push(text_of_ref);
        i += 1;
        assert(text::views(out@) == text::views(before).push(shown));
        assert(refs_of(messages@).take(i as int) == refs_of(messages@).take(i - 1).push(
            refs_of(messages@)[i - 1],
        ));
    }
    assert(refs_of(messages@).take(i as int) == refs_of(messages@));
    out
}

/// The selector names the message at position `i`: by its id, a prefix of its
/// id or its reference.
pub open spec fn is_selected(ms: Seq<Listed>, selector: Seq<char>, i: int) -> bool {
    text::starts_with(ms[i].0.id@, selector) || ref_at(ms, i) == selector
}

/// The positions below `n` of the messages that the selector names.
pub open spec fn selected(ms: Seq<Listed>, selector: Seq<char>, n: int) -> Seq<usize>
    decreases n,
{
    if n <= 0 {
        Seq::empty()
    } else if is_selected(ms, selector, n - 1) {
        selected(ms, selector, n - 1).push((n - 1) as usize)
    } else {
        selected(ms, selector, n - 1)
    }
}

/// The positions of the messages that a selector names.
pub fn resolve_inbox_message_indices(messages: &Vec<Listed>, selector: &str) -> (r: Vec<usize>)
    ensures
        r@ == selected(messages@, selector@, messages@.len() as int),
{
    let refs: Vec<String> = inbox_message_refs(messages);
    assert(text::views(refs@).len() == refs@.len());
    let mut out: Vec<usize> = Vec::new();
    let mut i: usize = 0;
    while i < messages.len()
        invariant
            i <= messages@.len(),
            text::views(refs@) == refs_of(messages@),
            refs@.len() == messages@.len(),
            out@ == selected(messages@, selector@, i as int),
        decreases messages@.len() - i,
    {
        assert(refs@[i as int]@ == text::views(refs@)[i as int]);
        if begins(&chars_of(messages[i].0.id.as_str()), selector) || same(
            refs[i].as_str(),
            selector,
        ) {
            out.push(i);
        }
        i += 1;
    }
    out
}

// ---------------------------------------------------------------------------
// Listing

/// `delivered` or `pending`.
pub open spec fn status_text(was_delivered: bool) -> Seq<char> {
    if was_delivered {
        "delivered"@
    } else {
        "pending"@
    }
}

fn status_of(was_delivered: bool) -> (r: String)
    ensures
        r@ == status_text(was_delivered),
{
    if was_delivered {
        copy("delivered")
    } else {
        copy("pending")
    }
}

/// The name of a message type in a listing.
pub open spec fn type_text(t: MessageType) -> Seq<char> {
    match t {
        MessageType::Send => "send"@,
        MessageType::Assign => "assign"@,
    }
}

fn type_of(t: MessageType) -> (r: String)
    ensures
        r@ == type_text(t),
{
    match t {
        MessageType::Send => copy("send"),
        MessageType::Assign => copy("assign"),
    }
}

/// A line of four padded columns and a rest.
pub open spec fn row(
    status: Seq<char>,
    from: Seq<char>,
    kind: Seq<char>,
    reference: Seq<char>,
    rest: Seq<char>,
) -> Seq<char> {
    text::pad_right(status, 10) + " "@ + text::pad_right(from, 12) + " "@ + text::pad_right(
        kind,
        12,
    ) + " "@ + text::pad_right(reference, 14) + " "@ + rest + "\n"@
}

fn row_of(status: &str, from: &str, kind: &str, reference: &str, rest: &str) -> (r: String)
    ensures
        r@ == row(status@, from@, kind@, reference@, rest@),
{
    padded_right(status, 10).concat(" ").concat(padded_right(from, 12).as_str()).concat(" ").concat(
        padded_right(kind, 12).as_str(),
    ).concat(" ").concat(padded_right(reference, 14).as_str()).concat(" ").concat(rest).concat("\n")
}

/// The line of the message at position `i`.
pub open spec fn message_row(ms: Seq<Listed>, i: int) -> Seq<char> {
    row(
        status_text(ms[i].1),
        ms[i].0.from@,
        type_text(ms[i].0.msg_type),
        ref_at(ms, i),
        truncated(ms[i].0.body@, INBOX_BODY_PREVIEW_CHARS as nat),
    )
}

/// The lines of the messages from `start` up to `n`.
pub open spec fn message_rows(ms: Seq<Listed>, start: int, n: int) -> Seq<char>
    decreases n - start,
{
    if n <= start {
        Seq::empty()
    } else {
        message_rows(ms, start, n - 1) + message_row(ms, n - 1)
    }
}

/// Where a listing starts that shows the last `limit` messages.
pub open spec fn listing_start(len: nat, limit: Option<usize>) -> nat {
    match limit {
        Some(n) => if n <= len {
            (len - n) as nat
        } else {
            0
        },
        None => 0,
    }
}

/// The text of a listing.
pub open spec fn listing(member: Seq<char>, ms: Seq<Listed>, limit: Option<usize>) -> Seq<char> {
    if ms.len() == 0 {
        "No messages for "@ + member + ".\n"@
    } else {
        let start = listing_start(ms.len(), limit);
        let shown = (ms.len() - start) as nat;
        let note = if start > 0 {
            "Showing "@ + text::decimal(shown) + " of "@ + text::decimal(ms.len())
                + " messages for "@ + member
                + ". Use `-n <N>` or `--all` to see more.\n"@
        } else {
            Seq::empty()
        };
        note + row("STATUS"@, "FROM"@, "TYPE"@, "REF"@, "BODY"@) + text::repeat('-', 96) + "\n"@
            + message_rows(ms, start as int, ms.len() as int)
    }
}

/// Renders the last `limit` messages of a member, or all.
pub fn format_inbox_listing(member: &str, messages: &Vec<Listed>, limit: Option<usize>) -> (r:
    String)
    ensures
        r@ == listing(member@, messages@, limit),
{
    if messages.len() == 0 {
        return copy("No messages for ").concat(member).concat(".\n");
    }
    let len: usize = messages.len();
    let start: usize = match limit {
        Some(n) => len.saturating_sub(n),
        None => 0,
    };
    let refs: Vec<String> = inbox_message_refs(messages);
    assert(text::views(refs@).len() == refs@.len());
    let note: String = if start > 0 {
        copy("Showing ").concat(decimal_usize(len - start).as_str()).concat(" of ").concat(
            decimal_usize(len).as_str(),
        ).concat(" messages for ").concat(member).concat(
            ". Use `-n <N>` or `--all` to see more.\n",
        )
    } else {
        String::new()
    };
    let head: String = note.concat(row_of("STATUS", "FROM", "TYPE", "REF", "BODY").as_str()).concat(
        repeated('-', 96).as_str(),
    ).concat("\n");
    let ghost top = head@;
    let mut out: String = head;
    let mut i: usize = start;
    assert(top + message_rows(messages@, start as int, start as int) == top);
    while i < len
        invariant
            start <= i <= len,
            len == messages@.len(),
            text::views(refs@) == refs_of(messages@),
            refs@.len() == messages@.len(),
            out@ == top + message_rows(messages@, start as int, i as int),
        decreases len - i,
    {
        assert(refs@[i as int]@ == text::views(refs@)[i as int]);
        let m: &Listed = &messages[i];
        let line: String = row_of(
            status_of(m.1).as_str(),
            m.0.from.as_str(),
            type_of(m.0.msg_type).as_str(),
            refs[i].as_str(),
            truncate_chars(m.0.body.as_str(), INBOX_BODY_PREVIEW_CHARS).as_str(),
        );
        let ghost before = out@;
        out = out.concat(line.as_str());
        i += 1;
        assert(out@ == top + (message_rows(messages@, start as int, i - 1) + line@));
    }
    out
}

/// The inbox of whoever the name stands for.
pub open spec fn inbox_of(
    store: Map<Seq<char>, Mailbox>,
    project_root: Seq<char>,
    member: Seq<char>,
) -> Mailbox {
    mail::mailbox_at(
        store,
        inbox_queue::inbox_path(inbox::inboxes_root_path(project_root), member),
    )
}

/// Lists the messages of a member.
pub fn list_inbox(
    store: &MailStore,
    project_root: &str,
    roster: &Option<TeamRoster>,
    member: &str,
    limit: Option<usize>,
) -> (r: Result<String, String>)
    requires
        store.wf(),
    ensures
        messaging::texts(r) == (match messaging::member_name_of(*roster, member@) {
            Ok(name) => Ok::<Seq<char>, Seq<char>>(
                listing(
                    name,
                    inbox_queue::all_in(inbox_of(store@, project_root@, name)),
                    limit,
                ),
            ),
            Err(e) => Err(e),
        }),
{
    let name: String = match resolve_member_name(roster, member) {
        Ok(name) => name,
        Err(e) => {
            return Err(e);
        },
    };
    let root: String = inboxes_root(project_root);
    let messages: Vec<Listed> = all_messages(store, root.as_str(), name.as_str());
    Ok(format_inbox_listing(name.as_str(), &messages, limit))
}

/// Why a selector names no single message, where it does not.
pub open spec fn selection_error(member: Seq<char>, selector: Seq<char>, found: nat) -> Seq<char> {
    if found == 0 {
        "no message matching '"@ + selector + "' in "@ + member + "'s inbox"@
    } else {
        "'"@ + selector + "' matches "@ + text::decimal(found)
            + " messages — use a longer prefix or the REF column from `batty inbox`"@
    }
}

/// The one message that a selector names.
pub open spec fn selection(ms: Seq<Listed>, member: Seq<char>, selector: Seq<char>) -> Result<
    int,
    Seq<char>,
> {
    let found = selected(ms, selector, ms.len() as int);
    if found.len() == 1 {
        Ok(found[0] as int)
    } else {
        Err(selection_error(member, selector, found.len()))
    }
}

proof fn lemma_selected_bound(ms: Seq<Listed>, selector: Seq<char>, n: int)
    requires
        0 <= n <= usize::MAX,
    ensures
        forall|k: int|
            0 <= k < selected(ms, selector, n).len() ==> #[trigger] selected(ms, selector, n)[k]
                < n && is_selected(ms, selector, selected(ms, selector, n)[k] as int),
        forall|i: int|
            0 <= i < n && is_selected(ms, selector, i) ==> #[trigger] selected(
                ms,
                selector,
                n,
            ).contains(i as usize),
    decreases n,
{
    if n > 0 {
        lemma_selected_bound(ms, selector, n - 1);
        let s0 = selected(ms, selector, n - 1);
        let s1 = selected(ms, selector, n);
        assert forall|i: int| 0 <= i < n && is_selected(ms, selector, i) implies #[trigger]
            s1.contains(i as usize) by {
            if i < n - 1 {
                assert(s0.contains(i as usize));
                let k = choose|k: int| 0 <= k < s0.len() && s0[k] == i as usize;
                assert(s1[k] == i as usize);
            } else {
                assert(s1[s0.len() as int] == i as usize);
            }
        }
    }
}

fn select(messages: &Vec<Listed>, member: &str, selector: &str) -> (r: Result<usize, String>)
    ensures
        match r {
            Ok(i) => selection(messages@, member@, selector@) == Ok::<int, Seq<char>>(i as int)
                && i < messages@.len(),
            Err(e) => selection(messages@, member@, selector@) == Err::<int, Seq<char>>(e@),
        },
{
    let found: Vec<usize> = resolve_inbox_message_indices(messages, selector);
    let n: usize = messages.len();
    proof {
        lemma_selected_bound(messages@, selector@, n as int);
    }
    if found.len() == 1 {
        let ghost s = selected(messages@, selector@, messages@.len() as int);
        assert(s[0] < messages@.len());
        Ok(found[0])
    } else if found.len() == 0 {
        Err(
            copy("no message matching '").concat(selector).concat("' in ").concat(member).concat(
                "'s inbox",
            ),
        )
    } else {
        Err(
            copy("'").concat(selector).concat("' matches ").concat(
                decimal_usize(found.len()).as_str(),
            ).concat(" messages — use a longer prefix or the REF column from `batty inbox`"),
        )
    }
}

/// The text of one message.
pub open spec fn message_text(m: Listed) -> Seq<char> {
    "ID:     "@ + m.0.id@ + "\nFrom:   "@ + m.0.from@ + "\nTo:     "@ + m.0.to@ + "\nType:   "@
        + (match m.0.msg_type {
        MessageType::Send => "Send"@,
        MessageType::Assign => "Assign"@,
    }) + "\nStatus: "@ + status_text(m.1) + "\nTime:   "@ + text::decimal(m.0.timestamp as nat)
        + "\n\n"@ + m.0.body@ + "\n"@
}

/// Renders one message of a member, named by its id, a prefix of its id or
/// its reference.
pub fn read_message(
    store: &MailStore,
    project_root: &str,
    roster: &Option<TeamRoster>,
    member: &str,
    id: &str,
) -> (r: Result<String, String>)
    requires
        store.wf(),
    ensures
        messaging::texts(r) == (match messaging::member_name_of(*roster, member@) {
            Ok(name) => {
                let ms = inbox_queue::all_in(inbox_of(store@, project_root@, name));
                match selection(ms, name, id@) {
                    Ok(i) => Ok::<Seq<char>, Seq<char>>(message_text(ms[i])),
                    Err(e) => Err(e),
                }
            },
            Err(e) => Err(e),
        }),
{
    let name: String = match resolve_member_name(roster, member) {
        Ok(name) => name,
        Err(e) => {
            return Err(e);
        },
    };
    let root: String = inboxes_root(project_root);
    let messages: Vec<Listed> = all_messages(store, root.as_str(), name.as_str());
    let i: usize = match select(&messages, name.as_str(), id) {
        Ok(i) => i,
        Err(e) => {
            return Err(e);
        },
    };
    let m: &Listed = &messages[i];
    let kind: String = match m.0.msg_type {
        MessageType::Send => copy("Send"),
        MessageType::Assign => copy("Assign"),
    };
    Ok(
        copy("ID:     ").concat(m.0.id.as_str()).concat("\nFrom:   ").concat(
            m.0.from.as_str(),
        ).concat("\nTo:     ").concat(m.0.to.as_str()).concat("\nType:   ").concat(
            kind.as_str(),
        ).concat("\nStatus: ").concat(status_of(m.1).as_str()).concat("\nTime:   ").concat(
            decimal_string(m.0.timestamp).as_str(),
        ).concat("\n\n").concat(m.0.body.as_str()).concat("\n"),
    )
}

/// What acknowledging a message does: the store afterwards, or the error.
pub open spec fn acknowledged(
    store: Map<Seq<char>, Mailbox>,
    project_root: Seq<char>,
    roster: Option<TeamRoster>,
    member: Seq<char>,
    id: Seq<char>,
) -> Result<Map<Seq<char>, Mailbox>, Seq<char>> {
    match messaging::member_name_of(roster, member) {
        Ok(name) => {
            let path = inbox_queue::inbox_path(inbox::inboxes_root_path(project_root), name);
            let ms = inbox_queue::all_in(mail::mailbox_at(store, path));
            match selection(ms, name, id) {
                Ok(i) => if inbox_queue::is_fresh(store, path, ms[i].0.id@) {
                    Err(
                        "failed to mark message '"@ + ms[i].0.id@ + "' as delivered for '"@ + name
                            + "'"@,
                    )
                } else {
                    Ok(inbox_queue::marked(store, path, ms[i].0.id@))
                },
                Err(e) => Err(e),
            }
        },
        Err(e) => Err(e),
    }
}

/// Acknowledges a pending message of a member, named by its id, a prefix of
/// its id or its reference: marks it as delivered.
pub fn ack_message(
    store: &mut MailStore,
    project_root: &str,
    roster: &Option<TeamRoster>,
    member: &str,
    id: &str,
) -> (r: Result<(), String>)
    requires
        old(store).wf(),
    ensures
        final(store).wf(),
        match acknowledged(old(store)@, project_root@, *roster, member@, id@) {
            Ok(after) => r is Ok && final(store)@ == after,
            Err(e) => r matches Err(x) && x@ == e && final(store)@ == old(store)@,
        },
{
    let name: String = match resolve_member_name(roster, member) {
        Ok(name) => name,
        Err(e) => {
            return Err(e);
        },
    };
    let root: String = inboxes_root(project_root);
    let messages: Vec<Listed> = all_messages(store, root.as_str(), name.as_str());
    let i: usize = match select(&messages, name.as_str(), id) {
        Ok(i) => i,
        Err(e) => {
            return Err(e);
        },
    };
    mark_delivered(store, root.as_str(), name.as_str(), messages[i].0.id.as_str())
}

/// Purges delivered messages of one member, or of every member that has a
/// directory under the inboxes root (`directories`).
pub fn purge_inbox(
    store: &mut MailStore,
    project_root: &str,
    roster: &Option<TeamRoster>,
    directories: &Vec<String>,
    member: &Option<String>,
    all_roles: bool,
    before: Option<u64>,
    purge_all: bool,
) -> (r: Result<InboxPurgeSummary, String>)
    requires
        old(store).wf(),
        inbox_queue::purged_count_for_all(
            old(store)@,
            inbox::inboxes_root_path(project_root@),
            directories@,
            before,
            purge_all,
        ) <= usize::MAX,
    ensures
        final(store).wf(),
        r matches Err(e) ==> final(store)@ == old(store)@ && Some(e@) == purge_refusal(
            *roster,
            *member,
            all_roles,
            before,
            purge_all,
        ),
        r is Ok ==> purge_refusal(*roster, *member, all_roles, before, purge_all) is None,
        r matches Ok(summary) ==> if all_roles {
            &&& final(store)@ == inbox_queue::purged_for_all(
                old(store)@,
                inbox::inboxes_root_path(project_root@),
                directories@,
                before,
                purge_all,
            )
            &&& summary.roles == directories@.len()
            &&& summary.messages == inbox_queue::purged_count_for_all(
                old(store)@,
                inbox::inboxes_root_path(project_root@),
                directories@,
                before,
                purge_all,
            )
        } else {
            &&& messaging::member_name_of(*roster, member->Some_0@) matches Ok(name)
            &&& {
                let path = inbox_queue::inbox_path(inbox::inboxes_root_path(project_root@), name);
                &&& inbox_queue::purge_of(old(store)@, final(store)@, path, before, purge_all)
                &&& summary.roles == 1
                &&& summary.messages == inbox_queue::purged_count(
                    old(store)@,
                    path,
                    before,
                    purge_all,
                )
            }
        },
{
    if !purge_all && before.is_none() {
        return Err(copy("use `--all` or `--before <unix-timestamp>` with `batty inbox purge`"));
    }
    let root: String = inboxes_root(project_root);
    if all_roles {
        return Ok(
            purge_delivered_messages_for_all(store, root.as_str(), directories, before, purge_all),
        );
    }
    match member {
        None => Err(copy("member is required unless using `--all-roles`")),
        Some(member) => {
            match resolve_member_name(roster, member.as_str()) {
                Err(e) => Err(e),
                Ok(name) => {
                    let messages: usize = purge_delivered_messages(
                        store,
                        root.as_str(),
                        name.as_str(),
                        before,
                        purge_all,
                    );
                    Ok(InboxPurgeSummary { roles: 1, messages })
                },
            }
        },
    }
}

/// Why a purge is refused, where it is.
pub open spec fn purge_refusal(
    roster: Option<TeamRoster>,
    member: Option<String>,
    all_roles: bool,
    before: Option<u64>,
    purge_all: bool,
) -> Option<Seq<char>> {
    if !purge_all && before is None {
        Some("use `--all` or `--before <unix-timestamp>` with `batty inbox purge`"@)
    } else if all_roles {
        None
    } else {
        match member {
            None => Some("member is required unless using `--all-roles`"@),
            Some(m) => match messaging::member_name_of(roster, m@) {
                Err(e) => Some(e),
                Ok(_) => None,
            },
        }
    }
}

/// What merging a worktree reports for the outcome of the merge.
pub open spec fn merge_report(outcome: Result<MergeOutcome<String>, String>) -> Result<
    (),
    Seq<char>,
> {
    match outcome {
        Ok(MergeOutcome::Success(_)) => Ok(()),
        Ok(MergeOutcome::RebaseConflict(stderr)) => Err(
            "merge blocked by rebase conflict: "@ + stderr@,
        ),
        Ok(MergeOutcome::MergeFailure(stderr)) => Err("merge failed: "@ + stderr@),
        Err(e) => Err(e@),
    }
}

/// Merges the worktree of an engineer: `merge` merges the branch of the
/// engineer that the name stands for.
pub fn merge_worktree<F: Fn(String) -> Result<MergeOutcome<String>, String>>(
    roster: &Option<TeamRoster>,
    engineer: &str,
    merge: &F,
) -> (r: Result<(), String>)
    requires
        forall|s: String| #[trigger] call_requires(*merge, (s,)),
    ensures
        match messaging::member_name_of(*roster, engineer@) {
            Err(e) => r matches Err(x) && x@ == e,
            Ok(name) => exists|s: String, outcome: Result<MergeOutcome<String>, String>|
                {
                    &&& s@ == name
                    &&& #[trigger] call_ensures(*merge, (s,), outcome)
                    &&& match merge_report(outcome) {
                        Ok(_) => r is Ok,
                        Err(e) => r matches Err(x) && x@ == e,
                    }
                },
        },
{
    let name: String = match resolve_member_name(roster, engineer) {
        Ok(name) => name,
        Err(e) => {
            return Err(e);
        },
    };
    let ghost given = name;
    let outcome: Result<MergeOutcome<String>, String> = merge(name);
    assert(call_ensures(*merge, (given,), outcome));
    match outcome {
        Ok(MergeOutcome::Success(_)) => Ok(()),
        Ok(MergeOutcome::RebaseConflict(stderr)) => Err(
            copy("merge blocked by rebase conflict: ").concat(stderr.as_str()),
        ),
        Ok(MergeOutcome::MergeFailure(stderr)) => Err(
            copy("merge failed: ").concat(stderr.as_str()),
        ),
        Err(e) => Err(e),
    }
}

// ---------------------------------------------------------------------------
// Laws

proof fn lemma_dated_grows(ms: Seq<Listed>, t: u64, i: int, j: int)
    requires
        0 <= i <= j <= ms.len(),
    ensures
        dated_at(ms.take(i), t) <= dated_at(ms.take(j), t),
    decreases j - i,
{
    if i < j {
        lemma_dated_grows(ms, t, i, j - 1);
        assert(ms.take(j).drop_last() == ms.take(j - 1));
    }
}

/// No two messages of a listing have the same reference.
pub proof fn law_references_are_distinct(ms: Seq<Listed>, i: int, j: int)
    requires
        0 <= i < j < ms.len(),
    ensures
        ref_at(ms, i) != ref_at(ms, j),
{
    reveal_strlit("-");
    let ti = ms[i].0.timestamp;
    let tj = ms[j].0.timestamp;
    let ni = dated_at(ms.take(i + 1), ti);
    let nj = dated_at(ms.take(j + 1), tj);
    let xi = if dated_at(ms, ti) <= 1 {
        Seq::empty()
    } else {
        "-"@ + text::decimal(ni)
    };
    let xj = if dated_at(ms, tj) <= 1 {
        Seq::empty()
    } else {
        "-"@ + text::decimal(nj)
    };
    assert(ref_at(ms, i) == text::decimal(ti as nat) + xi);
    assert(ref_at(ms, j) == text::decimal(tj as nat) + xj);
    if ref_at(ms, i) == ref_at(ms, j) {
        digits::lemma_split_at_dash(ti as nat, xi, tj as nat, xj);
        assert(ms.take(i + 1).drop_last() == ms.take(i));
        assert(ms.take(j + 1).drop_last() == ms.take(j));
        lemma_dated_grows(ms, ti, i + 1, j);
        lemma_dated_grows(ms, ti, j + 1, ms.len() as int);
        assert(ms.take(ms.len() as int) == ms);
        assert(ni < nj);
        assert(dated_at(ms, ti) > 1);
        assert(xi.skip(1) == text::decimal(ni));
        assert(xj.skip(1) == text::decimal(nj));
        digits::lemma_decimal_injective(ni, nj);
    }
}

/// The reference that a listing shows for a message, and its id, both name
/// this message; and a selector that is neither a reference nor the start of
/// an id names none.
pub proof fn law_references_name_their_message(ms: Seq<Listed>, i: int)
    requires
        0 <= i < ms.len() <= usize::MAX,
    ensures
        selected(ms, ref_at(ms, i), ms.len() as int).contains(i as usize),
        selected(ms, ms[i].0.id@, ms.len() as int).contains(i as usize),
        forall|s: Seq<char>|
            (forall|k: int| 0 <= k < ms.len() ==> !#[trigger] is_selected(ms, s, k)) ==> (
            #[trigger] selected(ms, s, ms.len() as int)).len() == 0,
        (forall|k: int|
            0 <= k < ms.len() ==> !text::starts_with(
                (#[trigger] ms[k]).0.id@,
                ref_at(ms, i),
            )) ==> selected(ms, ref_at(ms, i), ms.len() as int) == seq![i as usize],
{
    let n = ms.len() as int;
    let by_ref = ref_at(ms, i);
    lemma_selected_bound(ms, by_ref, n);
    lemma_selected_bound(ms, ms[i].0.id@, n);
    assert(is_selected(ms, by_ref, i));
    assert(is_selected(ms, ms[i].0.id@, i)) by {
        assert(ms[i].0.id@.take(ms[i].0.id@.len() as int) == ms[i].0.id@);
    }
    assert forall|s: Seq<char>|
        (forall|k: int| 0 <= k < ms.len() ==> !#[trigger] is_selected(ms, s, k)) implies (
    #[trigger] selected(ms, s, n)).len() == 0 by {
        lemma_selected_bound(ms, s, n);
        if selected(ms, s, n).len() > 0 {
            assert(is_selected(ms, s, selected(ms, s, n)[0] as int));
        }
    }
    if forall|k: int| 0 <= k < ms.len() ==> !text::starts_with((#[trigger] ms[k]).0.id@, by_ref) {
        lemma_only_one(ms, by_ref, i, n);
    }
}

proof fn lemma_only_one(ms: Seq<Listed>, selector: Seq<char>, i: int, n: int)
    requires
        0 <= i < ms.len(),
        0 <= n <= ms.len() <= usize::MAX,
        selector == ref_at(ms, i),
        forall|k: int| 0 <= k < ms.len() ==> !text::starts_with((#[trigger] ms[k]).0.id@, selector),
    ensures
        selected(ms, selector, n) == (if i < n {
            seq![i as usize]
        } else {
            Seq::empty()
        }),
    decreases n,
{
    if n > 0 {
        lemma_only_one(ms, selector, i, n - 1);
        assert(!text::starts_with(ms[n - 1].0.id@, selector));
        if n - 1 < i {
            law_references_are_distinct(ms, n - 1, i);
        } else if i < n - 1 {
            law_references_are_distinct(ms, i, n - 1);
        }
    }
}

} // verus!
