//! What the verification of a completed task remembers, and the texts that it
//! produces.

use vstd::prelude::*;
use vstd::string::*;

use crate::paths;
use crate::text;
use crate::text::{copy, decimal_string, repeated, trimmed_str};

verus! {

/// The phases of a verification.
#[derive(Clone, Copy, Debug, PartialEq, Eq, Structural)]
pub enum VerificationPhase {
    Executing,
    Verifying,
    Fixing,
    Complete,
    Failed,
}

/// The lower-case name of a phase.
pub open spec fn phase_text(phase: VerificationPhase) -> Seq<char> {
    match phase {
        VerificationPhase::Executing => "executing"@,
        VerificationPhase::Verifying => "verifying"@,
        VerificationPhase::Fixing => "fixing"@,
        VerificationPhase::Complete => "complete"@,
        VerificationPhase::Failed => "failed"@,
    }
}

/// The lower-case name of a phase.
pub fn phase_name(phase: VerificationPhase) -> (r: String)
    ensures
        r@ == phase_text(phase),
{
    match phase {
        VerificationPhase::Executing => copy("executing"),
        VerificationPhase::Verifying => copy("verifying"),
        VerificationPhase::Fixing => copy("fixing"),
        VerificationPhase::Complete => copy("complete"),
        VerificationPhase::Failed => copy("failed"),
    }
}

/// The kinds of evidence that a completion can show.
#[derive(Clone, Copy, Debug, PartialEq, Eq, Structural)]
pub enum EvidenceKind {
    CommitsAhead,
    FilesChanged,
    CodeFilesChanged,
    TestsPassed,
    TestsFailed,
}

/// The snake-case name of a kind of evidence.
pub open spec fn kind_text(kind: EvidenceKind) -> Seq<char> {
    match kind {
        EvidenceKind::CommitsAhead => "commits_ahead"@,
        EvidenceKind::FilesChanged => "files_changed"@,
        EvidenceKind::CodeFilesChanged => "code_files_changed"@,
        EvidenceKind::TestsPassed => "tests_passed"@,
        EvidenceKind::TestsFailed => "tests_failed"@,
    }
}

/// The snake-case name of a kind of evidence.
pub fn kind_name(kind: EvidenceKind) -> (r: String)
    ensures
        r@ == kind_text(kind),
{
    match kind {
        EvidenceKind::CommitsAhead => copy("commits_ahead"),
        EvidenceKind::FilesChanged => copy("files_changed"),
        EvidenceKind::CodeFilesChanged => copy("code_files_changed"),
        EvidenceKind::TestsPassed => copy("tests_passed"),
        EvidenceKind::TestsFailed => copy("tests_failed"),
    }
}

/// One piece of evidence.
#[derive(Clone, Debug)]
pub struct Evidence<T> {
    pub kind: EvidenceKind,
    pub detail: T,
}

/// The verification of one engineer's task.
#[derive(Clone, Debug)]
pub struct VerificationState {
    pub phase: VerificationPhase,
    pub iteration: u32,
    pub max_iterations: u32,
    pub last_test_passed: bool,
    pub last_test_output: Option<String>,
    pub evidence: Vec<Evidence<String>>,
}

/// The texts of a [`VerificationState`].
pub struct VerificationView {
    pub phase: VerificationPhase,
    pub iteration: u32,
    pub max_iterations: u32,
    pub last_test_passed: bool,
    pub last_test_output: Option<Seq<char>>,
    pub evidence: Seq<Evidence<Seq<char>>>,
}

/// The texts of a list of evidence.
pub open spec fn evidence_views(v: Seq<Evidence<String>>) -> Seq<Evidence<Seq<char>>> {
    Seq::new(v.len(), |i: int| Evidence { kind: v[i].kind, detail: v[i].detail@ })
}

impl View for VerificationState {
    type V = VerificationView;

    open spec fn view(&self) -> VerificationView {
        VerificationView {
            phase: self.phase,
            iteration: self.iteration,
            max_iterations: self.max_iterations,
            last_test_passed: self.last_test_passed,
            last_test_output: paths::opt_view(self.last_test_output),
            evidence: evidence_views(self.evidence@),
        }
    }
}

impl VerificationView {
    /// The state of a verification that has not begun.
    pub open spec fn fresh(max_iterations: u32) -> VerificationView {
        VerificationView {
            phase: VerificationPhase::Executing,
            iteration: 0,
            max_iterations,
            last_test_passed: false,
            last_test_output: None,
            evidence: Seq::empty(),
        }
    }

    /// The state in another phase.
    pub open spec fn in_phase(self, phase: VerificationPhase) -> VerificationView {
        VerificationView { phase, ..self }
    }

    /// The state with one more piece of evidence.
    pub open spec fn with_evidence(self, kind: EvidenceKind, detail: Seq<char>) -> VerificationView {
        VerificationView { evidence: self.evidence.push(Evidence { kind, detail }), ..self }
    }

    /// The state after a test run.
    pub open spec fn with_test(self, passed: bool, output: Seq<char>) -> VerificationView {
        VerificationView { last_test_passed: passed, last_test_output: Some(output), ..self }
    }
}

impl VerificationState {
    /// A verification that has not begun.
    pub fn new(max_iterations: u32) -> (r: VerificationState)
        ensures
            r@ == VerificationView::fresh(max_iterations),
    {
        let r = VerificationState {
            phase: VerificationPhase::Executing,
            iteration: 0,
            max_iterations,
            last_test_passed: false,
            last_test_output: None,
            evidence: Vec::new(),
        };
        assert(evidence_views(r.evidence@) == Seq::<Evidence<Seq<char>>>::empty());
        r
    }

    /// Enters a phase and returns the one that was left.
    pub fn transition(&mut self, next: VerificationPhase) -> (r: VerificationPhase)
        ensures
            r == old(self).phase,
            final(self)@ == old(self)@.in_phase(next),
    {
        let previous: VerificationPhase = self.phase;
        self.phase = next;
        previous
    }

    /// Starts another attempt.
    pub fn begin_iteration(&mut self)
        requires
            old(self).iteration < u32::MAX,
        ensures
            final(self)@ == (VerificationView {
                iteration: (old(self).iteration + 1) as u32,
                ..old(self)@
            }),
    {
        self.iteration = self.iteration + 1;
    }

    /// Tells whether the attempts are used up.
    pub fn reached_max_iterations(&self) -> (r: bool)
        ensures
            r == (self.iteration >= self.max_iterations),
    {
        self.iteration >= self.max_iterations
    }

    /// Forgets the evidence.
    pub fn clear_evidence(&mut self)
        ensures
            final(self)@ == (VerificationView { evidence: Seq::empty(), ..old(self)@ }),
    {
        self.evidence = Vec::new();
        assert(evidence_views(self.evidence@) == Seq::<Evidence<Seq<char>>>::empty());
    }

    /// Adds a piece of evidence.
    pub fn record_evidence(&mut self, kind: EvidenceKind, detail: String)
        ensures
            final(self)@ == old(self)@.with_evidence(kind, detail@),
    {
        let ghost before = self.evidence@;
        self.evidence.push(Evidence { kind, detail });
        assert(evidence_views(self.evidence@) == evidence_views(before).push(
            Evidence { kind, detail: detail@ },
        ));
    }
}

/// Between one and three attempts, whatever the policy asks for.
pub open spec fn retry_budget(max_iterations: u32) -> u32 {
    if max_iterations < 1 {
        1
    } else if max_iterations > 3 {
        3
    } else {
        max_iterations
    }
}

/// The number of attempts that a policy grants.
pub fn verification_retry_budget(max_iterations: u32) -> (r: u32)
    ensures
        r == retry_budget(max_iterations),
{
    if max_iterations < 1 {
        1
    } else if max_iterations > 3 {
        3
    } else {
        max_iterations
    }
}

/// The outcome that is recorded for a phase.
pub open spec fn outcome_text(phase: VerificationPhase) -> Seq<char> {
    match phase {
        VerificationPhase::Fixing => "verification_retry_required"@,
        VerificationPhase::Complete => "verification_passed"@,
        VerificationPhase::Failed => "verification_escalated"@,
        VerificationPhase::Executing => "verification_pending"@,
        VerificationPhase::Verifying => "verification_pending"@,
    }
}

/// The outcome that is recorded for a phase.
pub fn verification_outcome_label(phase: VerificationPhase) -> (r: String)
    ensures
        r@ == outcome_text(phase),
{
    match phase {
        VerificationPhase::Fixing => copy("verification_retry_required"),
        VerificationPhase::Complete => copy("verification_passed"),
        VerificationPhase::Failed => copy("verification_escalated"),
        VerificationPhase::Executing => copy("verification_pending"),
        VerificationPhase::Verifying => copy("verification_pending"),
    }
}

/// One failed test.
#[derive(Clone, Debug)]
pub struct TestFailure {
    pub test_name: String,
    pub message: Option<String>,
    pub location: Option<String>,
}

/// The results of a test run.
#[derive(Clone, Debug)]
pub struct TestResults {
    pub framework: String,
    pub total: Option<u32>,
    pub passed: u32,
    pub failed: u32,
    pub ignored: u32,
    pub failures: Vec<TestFailure>,
    pub summary: Option<String>,
}

/// The texts of a [`TestFailure`].
#[verifier::ext_equal]
pub struct FailureView {
    pub test_name: Seq<char>,
    pub message: Option<Seq<char>>,
    pub location: Option<Seq<char>>,
}

impl View for TestFailure {
    type V = FailureView;

    open spec fn view(&self) -> FailureView {
        FailureView {
            test_name: self.test_name@,
            message: paths::opt_view(self.message),
            location: paths::opt_view(self.location),
        }
    }
}

/// The texts of a list of failed tests.
pub open spec fn failure_views(v: Seq<TestFailure>) -> Seq<FailureView> {
    Seq::new(v.len(), |i: int| v[i]@)
}

/// The texts of [`TestResults`].
#[verifier::ext_equal]
pub struct ResultsView {
    pub framework: Seq<char>,
    pub total: Option<u32>,
    pub passed: u32,
    pub failed: u32,
    pub ignored: u32,
    pub failures: Seq<FailureView>,
    pub summary: Option<Seq<char>>,
}

impl View for TestResults {
    type V = ResultsView;

    open spec fn view(&self) -> ResultsView {
        ResultsView {
            framework: self.framework@,
            total: self.total,
            passed: self.passed,
            failed: self.failed,
            ignored: self.ignored,
            failures: failure_views(self.failures@),
            summary: paths::opt_view(self.summary),
        }
    }
}

/// Results without a single test.
pub open spec fn no_results(framework: Seq<char>, summary: Option<Seq<char>>) -> ResultsView {
    ResultsView {
        framework,
        total: None,
        passed: 0,
        failed: 0,
        ignored: 0,
        failures: Seq::empty(),
        summary,
    }
}

/// Results without a single test.
pub fn empty_test_results(framework: &str, summary: Option<String>) -> (r: TestResults)
    ensures
        r@ == no_results(framework@, paths::opt_view(summary)),
{
    let r = TestResults {
        framework: copy(framework),
        total: None,
        passed: 0,
        failed: 0,
        ignored: 0,
        failures: Vec::new(),
        summary,
    };
    assert(r@ =~= no_results(framework@, paths::opt_view(summary)));
    r
}

/// An optional text, nothing where it is missing or empty.
pub open spec fn filled(s: Option<Seq<char>>) -> Option<Seq<char>> {
    match s {
        Some(t) => if t.len() == 0 {
            None
        } else {
            Some(t)
        },
        None => None,
    }
}

/// One line on a failed test: its name, then the message and the place where
/// they are known.
pub open spec fn failure_detail(failure: FailureView) -> Seq<char> {
    match (filled(failure.message), filled(failure.location)) {
        (Some(message), Some(location)) => failure.test_name + " ("@ + message + " at "@ + location
            + ")"@,
        (Some(message), None) => failure.test_name + " ("@ + message + ")"@,
        (None, Some(location)) => failure.test_name + " (at "@ + location + ")"@,
        (None, None) => failure.test_name,
    }
}

/// One line per failed test.
pub open spec fn failure_details(failures: Seq<FailureView>) -> Seq<Seq<char>> {
    Seq::new(failures.len(), |i: int| failure_detail(failures[i]))
}

fn describe_failure(failure: &TestFailure) -> (r: String)
    ensures
        r@ == failure_detail(failure@),
{
    let name: String = failure.test_name.clone();
    let message: Option<&str> = match &failure.message {
        Some(m) => if m.as_str().is_empty() {
            None
        } else {
            Some(m.as_str())
        },
        None => None,
    };
    let location: Option<&str> = match &failure.location {
        Some(m) => if m.as_str().is_empty() {
            None
        } else {
            Some(m.as_str())
        },
        None => None,
    };
    match (message, location) {
        (Some(m), Some(l)) => name.concat(" (").concat(m).concat(" at ").concat(l).concat(")"),
        (Some(m), None) => name.concat(" (").concat(m).concat(")"),
        (None, Some(l)) => name.concat(" (at ").concat(l).concat(")"),
        (None, None) => name,
    }
}

/// Describes each failed test in one line.
pub fn structured_failure_details(results: &TestResults) -> (r: Vec<String>)
    ensures
        text::views(r@) == failure_details(results@.failures),
{
    let mut out: Vec<String> = Vec::new();
    let mut i: usize = 0;
    while i < results.failures.len()
        invariant
            i <= results.failures@.len(),
            text::views(out@) == failure_details(results@.failures).take(i as int),
        decreases results.failures@.len() - i,
    {
        let ghost before = out@;
        let ghost all = failure_details(results@.failures);
        out.push(describe_failure(&results.failures[i]));
        assert(text::views(out@) == text::views(before).push(all[i as int]));
        i += 1;
        assert(all.take(i as int) == all.take(i - 1).push(all[i - 1]));
    }
    assert(failure_details(results@.failures).take(i as int) == failure_details(
        results@.failures,
    ));
    out
}

/// A copy of a failed test.
fn clone_failure(failure: &TestFailure) -> (r: TestFailure)
    ensures
        r == *failure,
{
    TestFailure {
        test_name: failure.test_name.clone(),
        message: match &failure.message {
            Some(m) => Some(m.clone()),
            None => None,
        },
        location: match &failure.location {
            Some(m) => Some(m.clone()),
            None => None,
        },
    }
}

/// A copy of a list of failed tests.
fn clone_failures(failures: &Vec<TestFailure>) -> (r: Vec<TestFailure>)
    ensures
        r@ == failures@,
{
    let mut out: Vec<TestFailure> = Vec::new();
    let mut i: usize = 0;
    while i < failures.len()
        invariant
            i <= failures@.len(),
            out@ == failures@.take(i as int),
        decreases failures@.len() - i,
    {
        out.push(clone_failure(&failures[i]));
        i += 1;
        assert(failures@.take(i as int) == failures@.take(i - 1).push(failures@[i - 1]));
    }
    assert(failures@.take(i as int) == failures@);
    out
}

/// A copy of the results of a test run.
pub(crate) fn clone_results(results: &TestResults) -> (r: TestResults)
    ensures
        r@ == results@,
{
    TestResults {
        framework: results.framework.clone(),
        total: results.total,
        passed: results.passed,
        failed: results.failed,
        ignored: results.ignored,
        failures: clone_failures(&results.failures),
        summary: match &results.summary {
            Some(m) => Some(m.clone()),
            None => None,
        },
    }
}

/// A copy of a list of evidence.
pub(crate) fn clone_evidence(evidence: &Vec<Evidence<String>>) -> (r: Vec<Evidence<String>>)
    ensures
        evidence_views(r@) == evidence_views(evidence@),
{
    let ghost all = evidence_views(evidence@);
    let mut out: Vec<Evidence<String>> = Vec::new();
    let mut i: usize = 0;
    while i < evidence.len()
        invariant
            i <= evidence@.len(),
            all == evidence_views(evidence@),
            evidence_views(out@) == all.take(i as int),
        decreases evidence@.len() - i,
    {
        let ghost before = out@;
        out.push(Evidence { kind: evidence[i].kind, detail: evidence[i].detail.clone() });
        assert(evidence_views(out@) == evidence_views(before).push(all[i as int]));
        i += 1;
        assert(all.take(i as int) == all.take(i - 1).push(all[i - 1]));
    }
    assert(all.take(i as int) == all);
    out
}

/// A run that passes after a run with failures makes those failures flaky.
pub open spec fn turned_green(previous: Option<TestResults>, current_failed: u32) -> bool {
    previous matches Some(p) && p.failed != 0 && current_failed == 0
}

/// The failures of the previous run, where the current one has none.
pub open spec fn flaky_failures(previous: Option<TestResults>, current_failed: u32) -> Seq<
    TestFailure,
> {
    if turned_green(previous, current_failed) {
        previous->Some_0.failures@
    } else {
        Seq::empty()
    }
}

/// The failures of the previous run, where the current one has none.
pub fn detect_flaky_failures(previous: &Option<TestResults>, current: &TestResults) -> (r: Vec<
    TestFailure,
>)
    ensures
        r@ == flaky_failures(*previous, current.failed),
{
    if let Some(p) = previous {
        if p.failed != 0 && current.failed == 0 {
            return clone_failures(&p.failures);
        }
    }
    Vec::new()
}

/// The first eight of `items`, each on a line of its own behind a dash.
pub open spec fn bullet_lines(items: Seq<Seq<char>>) -> Seq<char>
    decreases items.len(),
{
    if items.len() == 0 {
        Seq::empty()
    } else if items.len() > 8 {
        bullet_lines(items.take(8))
    } else {
        bullet_lines(items.drop_last()) + "- "@ + items.last() + "\n"@
    }
}

fn add_bullets(out: String, items: &Vec<String>) -> (r: String)
    ensures
        r@ == out@ + bullet_lines(text::views(items@)),
{
    let ghost all = text::views(items@);
    let ghost start = out@;
    let n: usize = if items.len() > 8 {
        8
    } else {
        items.len()
    };
    let mut out: String = out;
    let mut i: usize = 0;
    assert(start == start + bullet_lines(all.take(0)));
    while i < n
        invariant
            i <= n <= items@.len(),
            n <= 8,
            all == text::views(items@),
            out@ == start + bullet_lines(all.take(i as int)),
        decreases n - i,
    {
        out = out.concat("- ").concat(items[i].as_str()).concat("\n");
        i += 1;
        proof {
            assert(all.take(i as int).drop_last() == all.take(i - 1));
            let b = bullet_lines(all.take(i - 1));
            let x = all[i - 1];
            assert(start + (b + "- "@ + x + "\n"@) == start + b + "- "@ + x + "\n"@);
        }
    }
    proof {
        if items@.len() <= 8 {
            assert(all.take(i as int) == all);
        }
    }
    out
}

/// The message that sends an engineer back to fix a rejected completion.
pub open spec fn fix_message_text(
    iteration: u32,
    max_iterations: u32,
    headline: Seq<char>,
    failures: Seq<Seq<char>>,
    file_paths: Seq<Seq<char>>,
    output: Seq<char>,
) -> Seq<char> {
    let head = headline + "\nFix attempt "@ + text::decimal(iteration as nat) + "/"@
        + text::decimal(retry_budget(max_iterations) as nat) + ".\n"@;
    let with_failures = if failures.len() == 0 {
        head
    } else {
        head + "Failures:\n"@ + bullet_lines(failures)
    };
    let with_files = if file_paths.len() == 0 {
        with_failures
    } else {
        with_failures + "Likely files to inspect:\n"@ + bullet_lines(file_paths)
    };
    with_files + "Latest verification output:\n```\n"@ + text::trim(output)
        + "\n```\nFix these failures, then report completion again."@
}

/// Writes the message that sends an engineer back to fix a rejected
/// completion. At most eight failures and eight files are listed.
pub fn verification_fix_message(
    state: &VerificationState,
    headline: &str,
    failures: &Vec<String>,
    file_paths: &Vec<String>,
    output: &str,
) -> (r: String)
    ensures
        r@ == fix_message_text(
            state.iteration,
            state.max_iterations,
            headline@,
            text::views(failures@),
            text::views(file_paths@),
            output@,
        ),
{
    let attempt: String = decimal_string(state.iteration as u64);
    let budget: String = decimal_string(verification_retry_budget(state.max_iterations) as u64);
    let mut body: String = copy(headline).concat("\nFix attempt ").concat(attempt.as_str()).concat(
        "/",
    ).concat(budget.as_str()).concat(".\n");
    if failures.len() > 0 {
        body = add_bullets(body.concat("Failures:\n"), failures);
    }
    if file_paths.len() > 0 {
        body = add_bullets(body.concat("Likely files to inspect:\n"), file_paths);
    }
    body.concat("Latest verification output:\n```\n").concat(trimmed_str(output).as_str()).concat(
        "\n```\nFix these failures, then report completion again.",
    )
}

/// `n` in decimal, with leading zeros up to three digits.
pub open spec fn three_digits(n: nat) -> Seq<char> {
    let d = text::decimal(n);
    if d.len() < 3 {
        text::repeat('0', (3 - d.len()) as nat) + d
    } else {
        d
    }
}

fn three_digits_of(n: u32) -> (r: String)
    ensures
        r@ == three_digits(n as nat),
{
    let d: String = decimal_string(n as u64);
    let len: usize = d.as_str().unicode_len();
    if len < 3 {
        repeated('0', 3 - len).concat(d.as_str())
    } else {
        d
    }
}

/// The attempt that a snapshot is filed under.
pub open spec fn snapshot_attempt(iteration: u32) -> u32 {
    if iteration == 0 {
        1
    } else {
        iteration
    }
}

/// Where the snapshot of an attempt is kept, relative to the project root.
pub open spec fn snapshot_path_text(task_id: u32, engineer: Seq<char>, iteration: u32) -> Seq<
    char,
> {
    ".batty/reports/verification/completion/task-"@ + three_digits(task_id as nat) + "-"@ + engineer
        + "-attempt-"@ + text::decimal(snapshot_attempt(iteration) as nat) + ".json"@
}

/// Where the snapshot of an attempt is kept, relative to the project root.
pub fn snapshot_path(task_id: u32, engineer: &str, iteration: u32) -> (r: String)
    ensures
        r@ == snapshot_path_text(task_id, engineer@, iteration),
{
    let attempt: u32 = if iteration == 0 {
        1
    } else {
        iteration
    };
    copy(".batty/reports/verification/completion/task-").concat(
        three_digits_of(task_id).as_str(),
    ).concat("-").concat(engineer).concat("-attempt-").concat(
        decimal_string(attempt as u64).as_str(),
    ).concat(".json")
}

} // verus!
