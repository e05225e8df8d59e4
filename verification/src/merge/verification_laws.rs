//! What holds of verifications: how many attempts there are, what an engineer
//! is told after a failed one, and where it is filed.

use vstd::prelude::*;

use super::verification;
use super::verification::{FailureView, TestResults, VerificationPhase};
use crate::digits;
use crate::text;
use crate::text_laws::{lemma_holds, lemma_holds_within};

verus! {

/// A policy grants between one and three attempts, and what it asks for where
/// that lies between.
pub proof fn law_attempts_are_few(asked: u32)
    ensures
        1 <= verification::retry_budget(asked) <= 3,
        1 <= asked <= 3 ==> verification::retry_budget(asked) == asked,
        asked == 0 ==> verification::retry_budget(asked) == 1,
        asked > 3 ==> verification::retry_budget(asked) == 3,
{
}

/// Only a completed verification is recorded as passed, only a failed one as
/// escalated, and only one that is being fixed as to be tried again.
pub proof fn law_outcomes_are_recorded_as_they_are(phase: VerificationPhase)
    ensures
        verification::outcome_text(phase) == "verification_passed"@ <==> phase
            == VerificationPhase::Complete,
        verification::outcome_text(phase) == "verification_escalated"@ <==> phase
            == VerificationPhase::Failed,
        verification::outcome_text(phase) == "verification_retry_required"@ <==> phase
            == VerificationPhase::Fixing,
        verification::outcome_text(phase) == "verification_pending"@ <==> phase
            == VerificationPhase::Executing || phase == VerificationPhase::Verifying,
{
    reveal_strlit("verification_passed");
    reveal_strlit("verification_escalated");
    reveal_strlit("verification_retry_required");
    reveal_strlit("verification_pending");
    assert("verification_passed"@.len() == 19);
    assert("verification_escalated"@.len() == 22);
    assert("verification_retry_required"@.len() == 27);
    assert("verification_pending"@.len() == 20);
}

/// A failed test is told by its name, with its message and its place where they
/// are known and not empty.
pub proof fn law_failures_are_described(f: FailureView)
    ensures
        ({
            let d = verification::failure_detail(f);
            let message = f.message matches Some(m) && m.len() > 0;
            let place = f.location matches Some(l) && l.len() > 0;
            &&& text::starts_with(d, f.test_name)
            &&& !message && !place ==> d == f.test_name
            &&& message ==> text::contains(d, f.message->Some_0)
            &&& place ==> text::ends_with(d, "at "@ + f.location->Some_0 + ")"@)
            &&& message && place ==> d == f.test_name + " ("@ + f.message->Some_0 + " at "@
                + f.location->Some_0 + ")"@
        }),
{
    let d = verification::failure_detail(f);
    let none = Seq::<char>::empty();
    lemma_holds(none, f.test_name, none);
    assert(f.test_name + none =~= f.test_name);
    let place = f.location matches Some(l) && l.len() > 0;
    let message = f.message matches Some(m) && m.len() > 0;
    if message {
        let m = f.message->Some_0;
        let tail = if place {
            " at "@ + f.location->Some_0 + ")"@
        } else {
            ")"@
        };
        assert(d =~= f.test_name + " ("@ + m + tail);
        lemma_holds(f.test_name + " ("@, m, tail);
        lemma_holds(none, f.test_name, " ("@ + m + tail);
        assert(d =~= f.test_name + (" ("@ + m + tail));
        if place {
            reveal_strlit(" at ");
            reveal_strlit("at ");
            let last = "at "@ + f.location->Some_0 + ")"@;
            assert(" at "@ =~= seq![' '] + "at "@);
            let head = f.test_name + " ("@ + m + seq![' '];
            assert(d =~= head + last);
            lemma_holds(head, last, none);
        }
    } else if place {
        reveal_strlit(" (at ");
        reveal_strlit("at ");
        let last = "at "@ + f.location->Some_0 + ")"@;
        assert(" (at "@ =~= seq![' ', '('] + "at "@);
        let head = f.test_name + seq![' ', '('];
        assert(d =~= head + last);
        lemma_holds(head, last, none);
        lemma_holds(none, f.test_name, seq![' ', '('] + last);
        assert(d =~= f.test_name + (seq![' ', '('] + last));
    }
}

/// Failures are flaky exactly if they were in the run before and the current
/// run has none.
pub proof fn law_only_passing_runs_make_flaky(previous: Option<TestResults>, failed: u32)
    ensures
        failed > 0 ==> verification::flaky_failures(previous, failed).len() == 0,
        previous is None ==> verification::flaky_failures(previous, failed).len() == 0,
        (previous matches Some(p) && p.failed > 0 && failed == 0) ==> verification::flaky_failures(
            previous,
            failed,
        ) == previous->Some_0.failures@,
        (previous matches Some(p) && p.failed == 0) ==> verification::flaky_failures(
            previous,
            failed,
        ).len() == 0,
{
}

proof fn lemma_bullets(items: Seq<Seq<char>>, k: int)
    requires
        0 <= k < items.len(),
        k < 8,
    ensures
        text::contains(verification::bullet_lines(items), "- "@ + items[k] + "\n"@),
    decreases items.len(),
{
    let line = "- "@ + items[k] + "\n"@;
    let none = Seq::<char>::empty();
    if items.len() > 8 {
        lemma_bullets(items.take(8), k);
        assert(items.take(8)[k] == items[k]);
    } else {
        let before = verification::bullet_lines(items.drop_last());
        let last = "- "@ + items.last() + "\n"@;
        assert(verification::bullet_lines(items) =~= before + last);
        if k == items.len() - 1 {
            lemma_holds(before, last, none);
            assert(before + last + none =~= before + last);
        } else {
            lemma_bullets(items.drop_last(), k);
            assert(items.drop_last()[k] == items[k]);
            lemma_holds_within(none, before, last, line);
            assert(none + before + last =~= before + last);
        }
    }
}

/// The message after a failed verification starts with its headline and the
/// number of the attempt, lists the first eight failures and the first eight
/// files, and holds the output.
pub proof fn law_fix_message_tells_what_failed(
    iteration: u32,
    max_iterations: u32,
    headline: Seq<char>,
    failures: Seq<Seq<char>>,
    files: Seq<Seq<char>>,
    output: Seq<char>,
)
    ensures
        ({
            let m = verification::fix_message_text(
                iteration,
                max_iterations,
                headline,
                failures,
                files,
                output,
            );
            &&& text::starts_with(
                m,
                headline + "\nFix attempt "@ + text::decimal(iteration as nat) + "/"@
                    + text::decimal(verification::retry_budget(max_iterations) as nat) + ".\n"@,
            )
            &&& forall|k: int|
                0 <= k < failures.len() && k < 8 ==> text::contains(
                    m,
                    "- "@ + #[trigger] failures[k] + "\n"@,
                )
            &&& forall|k: int|
                0 <= k < files.len() && k < 8 ==> text::contains(
                    m,
                    "- "@ + #[trigger] files[k] + "\n"@,
                )
            &&& text::contains(m, text::trim(output))
            &&& text::ends_with(m, "\n```\nFix these failures, then report completion again."@)
        }),
{
    let m = verification::fix_message_text(
        iteration,
        max_iterations,
        headline,
        failures,
        files,
        output,
    );
    let none = Seq::<char>::empty();
    let head = headline + "\nFix attempt "@ + text::decimal(iteration as nat) + "/"@
        + text::decimal(verification::retry_budget(max_iterations) as nat) + ".\n"@;
    let fs = if failures.len() == 0 {
        none
    } else {
        "Failures:\n"@ + verification::bullet_lines(failures)
    };
    let ps = if files.len() == 0 {
        none
    } else {
        "Likely files to inspect:\n"@ + verification::bullet_lines(files)
    };
    let intro = "Latest verification output:\n```\n"@;
    let end = "\n```\nFix these failures, then report completion again."@;
    let out = text::trim(output);
    let tail = intro + out + end;
    assert(m =~= head + fs + ps + intro + out + end);
    assert(m =~= head + (fs + ps + tail));
    lemma_holds(none, head, fs + ps + tail);
    lemma_holds(head + fs + ps + intro, out, end);
    lemma_holds(head + fs + ps + intro + out, end, none);
    assert forall|k: int| 0 <= k < failures.len() && k < 8 implies text::contains(
        m,
        "- "@ + #[trigger] failures[k] + "\n"@,
    ) by {
        let b = verification::bullet_lines(failures);
        lemma_bullets(failures, k);
        lemma_holds_within(head + "Failures:\n"@, b, ps + tail, "- "@ + failures[k] + "\n"@);
        assert(m =~= head + "Failures:\n"@ + b + (ps + tail));
    }
    assert forall|k: int| 0 <= k < files.len() && k < 8 implies text::contains(
        m,
        "- "@ + #[trigger] files[k] + "\n"@,
    ) by {
        let b = verification::bullet_lines(files);
        lemma_bullets(files, k);
        let title = "Likely files to inspect:\n"@;
        lemma_holds_within(head + fs + title, b, tail, "- "@ + files[k] + "\n"@);
        assert(m =~= head + fs + title + b + tail);
    }
}

/// Two attempts of an engineer at a task are filed in different places.
pub proof fn law_attempts_are_filed_apart(task_id: u32, engineer: Seq<char>, a: u32, b: u32)
    requires
        0 < a < b,
    ensures
        verification::snapshot_path_text(task_id, engineer, a) != verification::snapshot_path_text(
            task_id,
            engineer,
            b,
        ),
        verification::snapshot_path_text(task_id, engineer, 0) == verification::snapshot_path_text(
            task_id,
            engineer,
            1,
        ),
        text::starts_with(
            verification::snapshot_path_text(task_id, engineer, a),
            ".batty/reports/verification/completion/task-"@,
        ),
        text::ends_with(
            verification::snapshot_path_text(task_id, engineer, a),
            "-"@ + engineer + "-attempt-"@ + text::decimal(a as nat) + ".json"@,
        ),
{
    let dir = ".batty/reports/verification/completion/task-"@;
    let number = verification::three_digits(task_id as nat);
    let head = dir + number + "-"@ + engineer + "-attempt-"@;
    let p = verification::snapshot_path_text(task_id, engineer, a);
    let q = verification::snapshot_path_text(task_id, engineer, b);
    let x = text::decimal(a as nat);
    let y = text::decimal(b as nat);
    let json = ".json"@;
    assert(p =~= head + x + json);
    assert(q =~= head + y + json);
    if p == q {
        assert(x =~= p.subrange(head.len() as int, p.len() - json.len()));
        assert(y =~= q.subrange(head.len() as int, q.len() - json.len()));
        digits::lemma_decimal_injective(a as nat, b as nat);
    }
    let rest = number + "-"@ + engineer + "-attempt-"@ + x + json;
    assert(p =~= dir + rest);
    lemma_holds(Seq::empty(), dir, rest);
    let last = "-"@ + engineer + "-attempt-"@ + x + json;
    assert(p =~= dir + number + last);
    lemma_holds(dir + number, last, Seq::empty());
}

} // verus!
