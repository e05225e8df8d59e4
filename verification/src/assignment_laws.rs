//! What holds of assignments: what an engineer is told of a task, and how much
//! of what is known goes with it.

use vstd::prelude::*;

use crate::assignment;
use crate::learnings::{Candidate, LearningEntry, RelatedTaskContext, Task, TaskMetricsSummary};
use crate::text;
use crate::text_laws::{lemma_holds, lemma_holds_within};

verus! {

// ---------------------------------------------------------------------------
// The message

proof fn lemma_paths_are_listed(files: Seq<Seq<char>>, k: int)
    requires
        0 <= k < files.len(),
    ensures
        text::contains(assignment::listed_paths(files), "  - "@ + files[k] + "\n"@),
    decreases files.len(),
{
    let front = files.drop_last();
    let before = assignment::listed_paths(front);
    let all = assignment::listed_paths(files);
    let last = "  - "@ + files.last() + "\n"@;
    assert(all =~= before + last);
    if k == files.len() - 1 {
        lemma_holds(before, last, Seq::empty());
        assert(before + last + Seq::<char>::empty() =~= all);
    } else {
        lemma_paths_are_listed(front, k);
        lemma_holds_within(Seq::empty(), before, last, "  - "@ + files[k] + "\n"@);
        assert(Seq::<char>::empty() + before + last =~= all);
    }
}

/// The packet of an assignment names the task, lists every file that may be
/// written, and tells how to acknowledge that; without such files there is
/// nothing to acknowledge.
pub proof fn law_packet_lists_the_files(
    id: u32,
    files: Seq<Seq<char>>,
    token: Seq<char>,
    recipient: Seq<char>,
)
    ensures
        ({
            let p = assignment::packet(id, files, token, recipient);
            &&& text::contains(p, "task_id: "@ + text::decimal(id as nat) + "\n"@)
            &&& forall|k: int|
                0 <= k < files.len() ==> text::contains(p, "  - "@ + #[trigger] files[k] + "\n"@)
            &&& text::contains(p, "\nscope_ack_token: \""@ + token + "\"\n"@)
            &&& files.len() > 0 ==> text::contains(p, "scope_ack_required: true\n"@)
                && text::ends_with(
                p,
                "Before your first file write, run `batty send "@ + recipient + " \""@ + token
                    + "\"`.\n"@,
            )
            &&& files.len() == 0 ==> text::contains(p, "allowed_files: []\n"@) && text::contains(
                p,
                "scope_ack_required: false\n"@,
            )
        }),
{
    let p = assignment::packet(id, files, token, recipient);
    lemma_packet_names_the_task(id, files, token, recipient);
    lemma_packet_lists(id, files, token, recipient);
    lemma_packet_tells_the_token(id, files, token, recipient);
    lemma_packet_asks(id, files, token, recipient);
}

spec fn packet_list(files: Seq<Seq<char>>) -> Seq<char> {
    if files.len() > 0 {
        "allowed_files:\n"@ + assignment::listed_paths(files)
    } else {
        "allowed_files: []\n"@
    }
}

spec fn packet_flag(files: Seq<Seq<char>>) -> Seq<char> {
    if files.len() > 0 {
        "true"@
    } else {
        "false"@
    }
}

spec fn packet_hint(files: Seq<Seq<char>>, token: Seq<char>, recipient: Seq<char>) -> Seq<char> {
    if files.len() > 0 {
        "Before your first file write, run `batty send "@ + recipient + " \""@ + token
            + "\"`.\n"@
    } else {
        Seq::empty()
    }
}

spec fn packet_command(token: Seq<char>, recipient: Seq<char>) -> Seq<char> {
    "\"\nscope_ack_command: \"batty send "@ + recipient + " \\\""@ + token + "\\\"\"\n```\n"@
}

spec fn packet_start(id: u32) -> Seq<char> {
    "Assignment Packet:\n```yaml\ntask_id: "@ + text::decimal(id as nat) + "\n"@
}

proof fn lemma_packet_parts(id: u32, files: Seq<Seq<char>>, token: Seq<char>, recipient: Seq<char>)
    ensures
        assignment::packet(id, files, token, recipient) == packet_start(id) + packet_list(files)
            + "scope_ack_required: "@ + packet_flag(files) + "\nscope_ack_token: \""@ + token
            + packet_command(token, recipient) + packet_hint(files, token, recipient),
{
    assert(assignment::packet(id, files, token, recipient) =~= packet_start(id) + packet_list(files)
        + "scope_ack_required: "@ + packet_flag(files) + "\nscope_ack_token: \""@ + token
        + packet_command(token, recipient) + packet_hint(files, token, recipient));
}

proof fn lemma_packet_names_the_task(
    id: u32,
    files: Seq<Seq<char>>,
    token: Seq<char>,
    recipient: Seq<char>,
)
    ensures
        text::contains(
            assignment::packet(id, files, token, recipient),
            "task_id: "@ + text::decimal(id as nat) + "\n"@,
        ),
{
    lemma_packet_parts(id, files, token, recipient);
    let named = "task_id: "@ + text::decimal(id as nat) + "\n"@;
    let title = "Assignment Packet:\n```yaml\n"@;
    assert("Assignment Packet:\n```yaml\ntask_id: "@ == title + "task_id: "@) by {
        reveal_strlit("Assignment Packet:\n```yaml\ntask_id: ");
        reveal_strlit("Assignment Packet:\n```yaml\n");
        reveal_strlit("task_id: ");
        assert("Assignment Packet:\n```yaml\ntask_id: "@ =~= title + "task_id: "@);
    }
    assert(packet_start(id) =~= title + named);
    let rest = packet_list(files) + "scope_ack_required: "@ + packet_flag(files)
        + "\nscope_ack_token: \""@ + token + packet_command(token, recipient) + packet_hint(
        files,
        token,
        recipient,
    );
    assert(assignment::packet(id, files, token, recipient) =~= title + named + rest);
    lemma_holds(title, named, rest);
}

proof fn lemma_packet_lists(id: u32, files: Seq<Seq<char>>, token: Seq<char>, recipient: Seq<char>)
    ensures
        text::contains(assignment::packet(id, files, token, recipient), packet_list(files)),
        forall|k: int|
            0 <= k < files.len() ==> text::contains(
                assignment::packet(id, files, token, recipient),
                "  - "@ + #[trigger] files[k] + "\n"@,
            ),
{
    lemma_packet_parts(id, files, token, recipient);
    let p = assignment::packet(id, files, token, recipient);
    let head = packet_start(id);
    let list = packet_list(files);
    let none = Seq::<char>::empty();
    let after = "scope_ack_required: "@ + packet_flag(files) + "\nscope_ack_token: \""@ + token
        + packet_command(token, recipient) + packet_hint(files, token, recipient);
    assert(p =~= head + list + after);
    lemma_holds(head, list, after);
    assert forall|k: int| 0 <= k < files.len() implies text::contains(
        p,
        "  - "@ + #[trigger] files[k] + "\n"@,
    ) by {
        let line = "  - "@ + files[k] + "\n"@;
        lemma_paths_are_listed(files, k);
        let paths = assignment::listed_paths(files);
        lemma_holds_within("allowed_files:\n"@, paths, none, line);
        assert("allowed_files:\n"@ + paths + none =~= list);
        lemma_holds_within(head, list, after, line);
    }
}

proof fn lemma_packet_tells_the_token(
    id: u32,
    files: Seq<Seq<char>>,
    token: Seq<char>,
    recipient: Seq<char>,
)
    ensures
        text::contains(
            assignment::packet(id, files, token, recipient),
            "\nscope_ack_token: \""@ + token + "\"\n"@,
        ),
{
    lemma_packet_parts(id, files, token, recipient);
    let told = "\nscope_ack_token: \""@ + token + "\"\n"@;
    let head = packet_start(id) + packet_list(files) + "scope_ack_required: "@ + packet_flag(files);
    let call = "scope_ack_command: \"batty send "@;
    let tail = call + recipient + " \\\""@ + token + "\\\"\"\n```\n"@;
    assert("\"\nscope_ack_command: \"batty send "@ == "\"\n"@ + call) by {
        reveal_strlit("\"\nscope_ack_command: \"batty send ");
        reveal_strlit("scope_ack_command: \"batty send ");
        reveal_strlit("\"\n");
        assert("\"\nscope_ack_command: \"batty send "@ =~= "\"\n"@ + call);
    }
    assert(packet_command(token, recipient) =~= "\"\n"@ + tail);
    let hint = packet_hint(files, token, recipient);
    assert(assignment::packet(id, files, token, recipient) =~= head + told + (tail + hint));
    lemma_holds(head, told, tail + hint);
}

proof fn lemma_packet_asks(id: u32, files: Seq<Seq<char>>, token: Seq<char>, recipient: Seq<char>)
    ensures
        ({
            let p = assignment::packet(id, files, token, recipient);
            &&& files.len() > 0 ==> text::contains(p, "scope_ack_required: true\n"@)
            &&& files.len() == 0 ==> text::contains(p, "scope_ack_required: false\n"@)
            &&& text::ends_with(p, packet_hint(files, token, recipient))
        }),
{
    lemma_packet_parts(id, files, token, recipient);
    let p = assignment::packet(id, files, token, recipient);
    let head = packet_start(id) + packet_list(files);
    let asked = "scope_ack_required: "@ + packet_flag(files) + "\n"@;
    let hint = packet_hint(files, token, recipient);
    assert("\nscope_ack_token: \""@ == "\n"@ + "scope_ack_token: \""@) by {
        reveal_strlit("\nscope_ack_token: \"");
        reveal_strlit("scope_ack_token: \"");
        reveal_strlit("\n");
        assert("\nscope_ack_token: \""@ =~= "\n"@ + "scope_ack_token: \""@);
    }
    let last = "scope_ack_token: \""@ + token + packet_command(token, recipient);
    assert(p =~= head + asked + (last + hint));
    lemma_holds(head, asked, last + hint);
    assert(files.len() > 0 ==> asked == "scope_ack_required: true\n"@) by {
        reveal_strlit("scope_ack_required: ");
        reveal_strlit("true");
        reveal_strlit("\n");
        reveal_strlit("scope_ack_required: true\n");
        assert("scope_ack_required: "@ + "true"@ + "\n"@ =~= "scope_ack_required: true\n"@);
    }
    assert(files.len() == 0 ==> asked == "scope_ack_required: false\n"@) by {
        reveal_strlit("scope_ack_required: ");
        reveal_strlit("false");
        reveal_strlit("\n");
        reveal_strlit("scope_ack_required: false\n");
        assert("scope_ack_required: "@ + "false"@ + "\n"@ =~= "scope_ack_required: false\n"@);
    }
    assert(p =~= head + asked + last + hint);
    lemma_holds(head + asked + last, hint, Seq::empty());
}

/// The message of an assignment begins with the number, the title and the
/// description of the task, holds the packet, and ends with the context where
/// there is one.
pub proof fn law_assignment_tells_the_task(
    task: Task,
    files: Seq<Seq<char>>,
    token: Seq<char>,
    recipient: Seq<char>,
    context: Seq<char>,
)
    ensures
        ({
            let m = assignment::assignment_message(task, files, token, recipient, context);
            let p = assignment::packet(task.id, files, token, recipient);
            &&& text::starts_with(
                m,
                "Task #"@ + text::decimal(task.id as nat) + ": "@ + task.title@ + "\n\n"@
                    + task.description@ + "\n\n"@,
            )
            &&& text::contains(m, p)
            &&& context.len() > 0 ==> text::ends_with(m, "\n\nDispatch context:\n"@ + context)
            &&& context.len() == 0 ==> text::ends_with(m, p)
        }),
{
    let m = assignment::assignment_message(task, files, token, recipient, context);
    let p = assignment::packet(task.id, files, token, recipient);
    let head = "Task #"@ + text::decimal(task.id as nat) + ": "@ + task.title@ + "\n\n"@
        + task.description@ + "\n\n"@;
    let tail = if context.len() == 0 {
        Seq::<char>::empty()
    } else {
        "\n\nDispatch context:\n"@ + context
    };
    assert(m =~= head + p + tail);
    assert(m =~= head + (p + tail));
    lemma_holds(Seq::empty(), head, p + tail);
    lemma_holds(head, p, tail);
    lemma_holds(head + p, tail, Seq::empty());
    if context.len() == 0 {
        assert(m =~= head + p);
    }
}

// ---------------------------------------------------------------------------
// The context

proof fn lemma_dashed(items: Seq<Seq<char>>, k: int)
    requires
        0 <= k < items.len(),
    ensures
        text::contains(assignment::dashed(items), "- "@ + items[k] + "\n"@),
    decreases items.len(),
{
    let front = items.drop_last();
    let before = assignment::dashed(front);
    let all = assignment::dashed(items);
    let last = "- "@ + items.last() + "\n"@;
    assert(all =~= before + last);
    if k == items.len() - 1 {
        lemma_holds(before, last, Seq::empty());
        assert(before + last + Seq::<char>::empty() =~= all);
    } else {
        lemma_dashed(front, k);
        lemma_holds_within(Seq::empty(), before, last, "- "@ + items[k] + "\n"@);
        assert(Seq::<char>::empty() + before + last =~= all);
    }
}

proof fn lemma_related_lines(
    candidates: Seq<Candidate>,
    related: Seq<RelatedTaskContext>,
    n: int,
    k: int,
)
    requires
        0 <= k < n <= related.len(),
    ensures
        ({
            let task = candidates[related[k].candidate as int].task;
            text::contains(
                assignment::related_lines(candidates, related, n),
                "- Task #"@ + text::decimal(task.id as nat) + ": "@ + task.title@,
            )
        }),
    decreases n,
{
    let task = candidates[related[k].candidate as int].task;
    let needle = "- Task #"@ + text::decimal(task.id as nat) + ": "@ + task.title@;
    let before = assignment::related_lines(candidates, related, n - 1);
    let c = candidates[related[n - 1].candidate as int];
    let line = assignment::related_line(c, related[n - 1].metrics);
    let none = Seq::<char>::empty();
    if k == n - 1 {
        let notes = assignment::notes_on(c.git_summary, related[n - 1].metrics);
        let tail = (if notes.len() == 0 {
            none
        } else {
            " ("@ + text::join(notes, ", "@) + ")"@
        }) + "\n"@;
        assert(line =~= needle + tail);
        lemma_holds(before, needle, tail);
        assert(before + needle + tail =~= before + line);
    } else {
        lemma_related_lines(candidates, related, n - 1, k);
        lemma_holds_within(none, before, line, needle);
        assert(none + before + line =~= before + line);
    }
}

proof fn lemma_learning_lines(
    entries: Seq<LearningEntry>,
    chosen: Seq<usize>,
    n: int,
    k: int,
)
    requires
        0 <= k < n <= chosen.len(),
    ensures
        ({
            let e = entries[chosen[k] as int];
            text::contains(
                assignment::learning_lines(entries, chosen, n),
                "] "@ + e.summary@ + "\n"@,
            )
        }),
    decreases n,
{
    let e = entries[chosen[k] as int];
    let needle = "] "@ + e.summary@ + "\n"@;
    let before = assignment::learning_lines(entries, chosen, n - 1);
    let line = assignment::learning_line(entries[chosen[n - 1] as int]);
    let none = Seq::<char>::empty();
    if k == n - 1 {
        let head = "- Task #"@ + text::decimal(e.task_id as nat) + " ["@ + (if e.tags@.len() == 0 {
            "untagged"@
        } else {
            text::join(text::views(e.tags@), ", "@)
        });
        assert(line =~= head + needle);
        lemma_holds(before + head, needle, none);
        assert(before + head + needle + none =~= before + line);
    } else {
        lemma_learning_lines(entries, chosen, n - 1, k);
        lemma_holds_within(none, before, line, needle);
        assert(none + before + line =~= before + line);
    }
}

/// The context has a section for each of what is known, in this order: related
/// tasks, failures of them, files to look at, and learnings. Each is there
/// exactly if there is something to tell, and tells all of it.
pub proof fn law_context_tells_what_is_known(
    candidates: Seq<Candidate>,
    related: Seq<RelatedTaskContext>,
    patterns: Seq<Seq<char>>,
    files: Seq<Seq<char>>,
    entries: Seq<LearningEntry>,
    chosen: Seq<usize>,
)
    ensures
        ({
            let s = assignment::context_sections(
                candidates,
                related,
                patterns,
                files,
                entries,
                chosen,
            );
            let one = |b: bool|
                if b {
                    1int
                } else {
                    0int
                };
            let a = one(related.len() > 0);
            let b = a + one(patterns.len() > 0);
            let c = b + one(files.len() > 0);
            let d = c + one(chosen.len() > 0);
            &&& s.len() == d
            &&& related.len() > 0 ==> text::starts_with(s[0], "Recent related completions:\n"@)
            &&& forall|k: int|
                0 <= k < related.len() ==> text::contains(
                    s[0],
                    "- Task #"@ + text::decimal(
                        candidates[(#[trigger] related[k]).candidate as int].task.id as nat,
                    ) + ": "@ + candidates[related[k].candidate as int].task.title@,
                )
            &&& patterns.len() > 0 ==> text::starts_with(
                s[a],
                "Failure history from similar tasks:\n"@,
            )
            &&& forall|k: int|
                0 <= k < patterns.len() ==> text::contains(
                    s[a],
                    "- "@ + #[trigger] patterns[k] + "\n"@,
                )
            &&& files.len() > 0 ==> text::starts_with(s[b], "Likely files to inspect:\n"@)
            &&& forall|k: int|
                0 <= k < files.len() ==> text::contains(s[b], "- "@ + #[trigger] files[k] + "\n"@)
            &&& chosen.len() > 0 ==> text::starts_with(s[c], "Relevant prior learnings:\n"@)
            &&& forall|k: int|
                0 <= k < chosen.len() ==> text::contains(
                    s[c],
                    "] "@ + entries[#[trigger] chosen[k] as int].summary@ + "\n"@,
                )
        }),
{
    let none = Seq::<char>::empty();
    let rs = assignment::related_lines(candidates, related, related.len() as int);
    let ls = assignment::learning_lines(entries, chosen, chosen.len() as int);
    lemma_holds(none, "Recent related completions:\n"@, rs);
    lemma_holds(none, "Failure history from similar tasks:\n"@, assignment::dashed(patterns));
    lemma_holds(none, "Likely files to inspect:\n"@, assignment::dashed(files));
    lemma_holds(none, "Relevant prior learnings:\n"@, ls);
    assert forall|k: int| 0 <= k < related.len() implies text::contains(
        "Recent related completions:\n"@ + rs,
        "- Task #"@ + text::decimal(
            candidates[(#[trigger] related[k]).candidate as int].task.id as nat,
        ) + ": "@ + candidates[related[k].candidate as int].task.title@,
    ) by {
        let task = candidates[related[k].candidate as int].task;
        lemma_related_lines(candidates, related, related.len() as int, k);
        lemma_holds_within(
            "Recent related completions:\n"@,
            rs,
            none,
            "- Task #"@ + text::decimal(task.id as nat) + ": "@ + task.title@,
        );
        assert("Recent related completions:\n"@ + rs + none =~= "Recent related completions:\n"@
            + rs);
    }
    assert forall|k: int| 0 <= k < patterns.len() implies text::contains(
        "Failure history from similar tasks:\n"@ + assignment::dashed(patterns),
        "- "@ + #[trigger] patterns[k] + "\n"@,
    ) by {
        let head = "Failure history from similar tasks:\n"@;
        lemma_dashed(patterns, k);
        lemma_holds_within(
            head,
            assignment::dashed(patterns),
            none,
            "- "@ + patterns[k] + "\n"@,
        );
        assert(head + assignment::dashed(patterns) + none =~= head + assignment::dashed(patterns));
    }
    assert forall|k: int| 0 <= k < files.len() implies text::contains(
        "Likely files to inspect:\n"@ + assignment::dashed(files),
        "- "@ + #[trigger] files[k] + "\n"@,
    ) by {
        let head = "Likely files to inspect:\n"@;
        lemma_dashed(files, k);
        lemma_holds_within(head, assignment::dashed(files), none, "- "@ + files[k] + "\n"@);
        assert(head + assignment::dashed(files) + none =~= head + assignment::dashed(files));
    }
    assert forall|k: int| 0 <= k < chosen.len() implies text::contains(
        "Relevant prior learnings:\n"@ + ls,
        "] "@ + entries[#[trigger] chosen[k] as int].summary@ + "\n"@,
    ) by {
        let head = "Relevant prior learnings:\n"@;
        lemma_learning_lines(entries, chosen, chosen.len() as int, k);
        lemma_holds_within(
            head,
            ls,
            none,
            "] "@ + entries[chosen[k] as int].summary@ + "\n"@,
        );
        assert(head + ls + none =~= head + ls);
    }
}

/// The notes on a related task are its commit, then each of the counts that is
/// above zero.
pub proof fn law_notes_tell_what_went_wrong(git: Option<String>, m: TaskMetricsSummary)
    ensures
        ({
            let notes = assignment::notes_on(git, m);
            let g = if git is Some {
                1int
            } else {
                0
            };
            let r = g + if m.retries > 0 {
                1int
            } else {
                0
            };
            let e = r + if m.escalations > 0 {
                1int
            } else {
                0
            };
            let c = e + if m.context_restart_count > 0 {
                1int
            } else {
                0
            };
            &&& notes.len() == c
            &&& git is Some ==> notes[0] == "git: "@ + git->Some_0@
            &&& m.retries > 0 ==> notes[g] == "retries="@ + text::decimal(m.retries as nat)
            &&& m.escalations > 0 ==> notes[r] == "escalations="@ + text::decimal(
                m.escalations as nat,
            )
            &&& m.context_restart_count > 0 ==> notes[e] == "context_restarts="@ + text::decimal(
                m.context_restart_count as nat,
            )
        }),
{
}

/// Not more than two failure patterns go with a task, the first ones, and none
/// without related tasks.
pub proof fn law_few_patterns_are_told(related: nat, patterns: Seq<Seq<char>>)
    ensures
        ({
            let told = assignment::matching_patterns(related, patterns);
            &&& related == 0 ==> told.len() == 0
            &&& related > 0 && patterns.len() <= 2 ==> told == patterns
            &&& related > 0 && patterns.len() > 2 ==> told == seq![patterns[0], patterns[1]]
        }),
{
    if related > 0 && patterns.len() > 2 {
        assert(assignment::matching_patterns(related, patterns) =~= seq![
            patterns[0],
            patterns[1],
        ]);
    }
}

/// The context of a task has at most five hundred words, not counting the dots
/// of a cut.
pub proof fn law_context_is_short(
    task: Task,
    candidates: Seq<Candidate>,
    related: Seq<RelatedTaskContext>,
    patterns: Seq<Seq<char>>,
    entries: Seq<LearningEntry>,
    chosen: Seq<usize>,
    context: Seq<char>,
)
    requires
        assignment::is_context(task, candidates, related, patterns, entries, chosen, context),
    ensures
        text::words(context).len() <= 501,
        exists|files: Seq<Seq<char>>|
            {
                let whole = text::join(
                    assignment::context_sections(
                        candidates,
                        related,
                        assignment::matching_patterns(related.len(), patterns),
                        files,
                        entries,
                        chosen,
                    ),
                    "\n"@,
                );
                &&& #[trigger] assignment::is_prediction(
                    candidates,
                    related,
                    crate::relevance::path_hints(task.description@),
                    files,
                )
                &&& text::words(whole).len() <= 500 ==> text::words(context) == text::words(whole)
                &&& text::words(whole).len() > 500 ==> text::words(context).len() >= 500
                    && text::words(context).subrange(0, 500) == text::words(whole).subrange(0, 500)
            },
{
    let files = choose|files: Seq<Seq<char>>|
        {
            &&& #[trigger] assignment::is_prediction(
                candidates,
                related,
                crate::relevance::path_hints(task.description@),
                files,
            )
            &&& context == assignment::limited(
                text::join(
                    assignment::context_sections(
                        candidates,
                        related,
                        assignment::matching_patterns(related.len(), patterns),
                        files,
                        entries,
                        chosen,
                    ),
                    "\n"@,
                ),
                500,
            )
        };
    let whole = text::join(
        assignment::context_sections(
            candidates,
            related,
            assignment::matching_patterns(related.len(), patterns),
            files,
            entries,
            chosen,
        ),
        "\n"@,
    );
    assignment::law_context_keeps_its_limit(whole, 500);
}

} // verus!
