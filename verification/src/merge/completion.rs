//! What happens when an engineer reports a task as done.
//!
//! The daemon's side of a completion is a machine. Each turn takes the desk
//! of the engineer (what the daemon remembers of them), the state that the
//! completion is in and the event that arrived. It gives back the new desk,
//! the actions to perform in order, and the next state. Where the completion
//! is not over, the last action is a question whose answer is the next event.

use vstd::prelude::*;
use vstd::string::*;

use super::lock::{MergeMode, MergeOutcome};
use super::verification::{
    clone_evidence, clone_results, detect_flaky_failures, empty_test_results, kind_name, phase_name,
    snapshot_path, structured_failure_details, verification_fix_message,
    verification_outcome_label, verification_retry_budget, Evidence, EvidenceKind, FailureView,
    ResultsView, TestFailure, TestResults, VerificationPhase, VerificationState, VerificationView,
};
use crate::paths;
use crate::text;
use crate::text::{clone_strings, copy, decimal_string, join_strings, trimmed_str};

verus! {

/// Whether a member is at work.
#[derive(Clone, Copy, Debug, PartialEq, Eq, Structural)]
pub enum MemberState {
    Idle,
    Working,
}

/// The policy that a completion is judged by.
#[derive(Clone, Copy, Debug)]
pub struct CompletionPolicy {
    pub auto_run_tests: bool,
    pub require_evidence: bool,
    pub max_iterations: u32,
    pub auto_merge_enabled: bool,
}

/// Who reports, to whom, and under which policy.
#[derive(Clone, Debug)]
pub struct CompletionContext {
    pub engineer: String,
    pub manager: Option<String>,
    pub board_dir: String,
    pub uses_worktrees: bool,
    pub policy: CompletionPolicy,
}

/// What the daemon remembers of one engineer. `V` is the type of a
/// verification.
#[derive(Clone, Debug)]
pub struct Desk<V> {
    pub active_task: Option<u32>,
    pub member_state: MemberState,
    pub retry_count: Option<u32>,
    /// Rejections of the active task for want of code changes.
    pub narration_rejections: Option<u32>,
    pub verification: Option<V>,
}

impl Desk<VerificationState> {
    /// The desk with the texts that its strings hold.
    pub open spec fn text(self) -> Desk<VerificationView> {
        Desk {
            active_task: self.active_task,
            member_state: self.member_state,
            retry_count: self.retry_count,
            narration_rejections: self.narration_rejections,
            verification: match self.verification {
                Some(v) => Some(v@),
                None => None,
            },
        }
    }
}

/// The desk once the task is off it.
pub open spec fn cleared<V>(desk: Desk<V>) -> Desk<V> {
    Desk {
        active_task: None,
        member_state: MemberState::Idle,
        retry_count: None,
        narration_rejections: None,
        verification: desk.verification,
    }
}

fn clear_desk(desk: &mut Desk<VerificationState>)
    ensures
        final(desk).text() == cleared(old(desk).text()),
{
    desk.active_task = None;
    desk.member_state = MemberState::Idle;
    desk.retry_count = None;
    desk.narration_rejections = None;
}

/// What git says of the branch.
#[derive(Clone, Debug)]
pub struct BranchFacts<T> {
    pub commits: u32,
    pub files: u32,
    pub code_files: u32,
    pub diff_stat: T,
}

impl BranchFacts<String> {
    /// The facts with the texts that their strings hold.
    pub open spec fn text(self) -> BranchFacts<Seq<char>> {
        BranchFacts {
            commits: self.commits,
            files: self.files,
            code_files: self.code_files,
            diff_stat: self.diff_stat@,
        }
    }
}

/// What the scope fence of the task says.
#[derive(Clone, Debug)]
pub struct ScopeFence {
    pub ack_present: bool,
    pub out_of_scope_files: Vec<String>,
}

/// A run of the test command.
#[derive(Clone, Debug)]
pub struct VerificationRun {
    pub passed: bool,
    pub output: String,
    pub results: TestResults,
    /// One line on the failures of `results`.
    pub failure_summary: String,
    pub failures: Vec<String>,
    pub file_paths: Vec<String>,
}

/// A run of the test command as contracts see it.
pub struct RunView {
    pub passed: bool,
    pub output: Seq<char>,
    pub results: ResultsView,
    pub failure_summary: Seq<char>,
    pub failures: Seq<Seq<char>>,
    pub file_paths: Seq<Seq<char>>,
}

impl View for VerificationRun {
    type V = RunView;

    open spec fn view(&self) -> RunView {
        RunView {
            passed: self.passed,
            output: self.output@,
            results: self.results@,
            failure_summary: self.failure_summary@,
            failures: text::views(self.failures@),
            file_paths: text::views(self.file_paths@),
        }
    }
}

/// What is known once the tests have passed.
#[derive(Clone, Debug)]
pub struct MergeFacts {
    pub branch: String,
    pub title: String,
    pub previous_results: Option<TestResults>,
    /// The per-task override of auto-merge.
    pub auto_merge_override: Option<bool>,
    /// The diff, where it could be analysed.
    pub diff: Option<DiffSummary>,
}

/// What the analysis of a branch's diff says.
#[derive(Clone, Copy, Debug, PartialEq, Eq, Structural)]
pub struct DiffSummary {
    pub files_changed: usize,
    pub lines_changed: usize,
    pub has_migrations: bool,
    pub has_config_changes: bool,
    pub rename_count: usize,
    /// The confidence that the policy scores the diff with, as the bits of a
    /// double.
    pub confidence_bits: u64,
}

/// Which auto-merge decision is asked for.
#[derive(Clone, Copy, Debug, PartialEq, Eq, Structural)]
pub enum DecisionKind {
    /// Manual review, whatever the diff says.
    ForcedManual,
    /// Auto-merge, whatever the diff says.
    ForcedAuto(DiffSummary),
    /// As the policy evaluates the diff.
    Evaluate(DiffSummary),
}

/// An auto-merge decision.
#[derive(Clone, Debug)]
pub struct AutoMergeDecision {
    pub accepted: bool,
    /// The confidence, written with two decimals.
    pub confidence: String,
    /// The confidence, as the bits of a double.
    pub confidence_bits: u64,
    pub reasons: Vec<String>,
}

/// Where a task goes after review.
#[derive(Clone, Debug)]
pub enum ReviewRoute<T> {
    /// Manual review because of an override.
    Override,
    /// Queued for auto-merge, with the bits of the confidence.
    AutoMerge { confidence_bits: u64, files_changed: usize, lines_changed: usize },
    /// Manual review by policy, with the confidence and the reasons.
    Policy { confidence: T, reasons: T },
}

/// Where a completion stands. `T` is the type of texts, `V` that of a
/// verification, `R` that of test results.
#[derive(Clone, Debug)]
pub enum CompletionState<T, V, R> {
    Reported,
    AwaitBranch { task: u32 },
    AwaitScope { task: u32, facts: BranchFacts<T>, verification: V },
    AwaitTests { task: u32, facts: BranchFacts<T>, verification: V, fenced: bool },
    AwaitMergeFacts { task: u32, results: R, duration_ms: u64 },
    AwaitDecision { task: u32, branch: T, title: T, duration_ms: u64, asked: DecisionKind },
    AwaitReviewCommits {
        task: u32,
        branch: T,
        title: T,
        duration_ms: u64,
        route: ReviewRoute<T>,
    },
    AwaitMerge { task: u32, branch: T, title: T, duration_ms: u64 },
    AwaitBoard { task: u32, title: T, mode: MergeMode, reason: Option<T> },
    Done,
}

/// What is filed of a verification: the report at `path`, relative to the
/// project, and what the board keeps of it with the task.
#[derive(Clone, Debug)]
pub struct Snapshot {
    pub path: String,
    pub task: u32,
    pub engineer: String,
    pub phase: String,
    pub attempt: u32,
    pub max_attempts: u32,
    pub outcome: String,
    pub passed: bool,
    pub results: TestResults,
    pub failures: Vec<String>,
    pub file_paths: Vec<String>,
    pub evidence: Vec<Evidence<String>>,
    pub output: String,
}

/// The texts of a [`Snapshot`].
#[verifier::ext_equal]
pub struct SnapshotView {
    pub path: Seq<char>,
    pub task: u32,
    pub engineer: Seq<char>,
    pub phase: Seq<char>,
    pub attempt: u32,
    pub max_attempts: u32,
    pub outcome: Seq<char>,
    pub passed: bool,
    pub results: ResultsView,
    pub failures: Seq<Seq<char>>,
    pub file_paths: Seq<Seq<char>>,
    pub evidence: Seq<Evidence<Seq<char>>>,
    pub output: Seq<char>,
}

impl View for Snapshot {
    type V = SnapshotView;

    open spec fn view(&self) -> SnapshotView {
        SnapshotView {
            path: self.path@,
            task: self.task,
            engineer: self.engineer@,
            phase: self.phase@,
            attempt: self.attempt,
            max_attempts: self.max_attempts,
            outcome: self.outcome@,
            passed: self.passed,
            results: self.results@,
            failures: text::views(self.failures@),
            file_paths: text::views(self.file_paths@),
            evidence: super::verification::evidence_views(self.evidence@),
            output: self.output@,
        }
    }
}

/// What is recorded of a test run: its results, and the failures of the run
/// before that it showed to be flaky.
#[derive(Clone, Debug)]
pub struct TestRecord {
    pub results: TestResults,
    pub flaky: Vec<TestFailure>,
}

/// The texts of a [`TestRecord`].
#[verifier::ext_equal]
pub struct TestRecordView {
    pub results: ResultsView,
    pub flaky: Seq<FailureView>,
}

impl View for TestRecord {
    type V = TestRecordView;

    open spec fn view(&self) -> TestRecordView {
        TestRecordView {
            results: self.results@,
            flaky: super::verification::failure_views(self.flaky@),
        }
    }
}

/// One thing to do. `T` is the type of texts, `L` that of lists of them, `S`
/// that of snapshots, `R` that of recorded test runs.
#[derive(Clone, Debug)]
pub enum CompletionAction<T, L, S, R> {
    /// Ask for commits, files and diff stat of the branch.
    AskBranch,
    /// Ask for the scope fence of the task.
    AskScope,
    /// Run the test command.
    RunTests,
    /// Ask for branch, title, previous results, override and diff analysis.
    AskMergeFacts,
    /// Ask for an auto-merge decision.
    AskDecision(DecisionKind),
    /// Ask again for the commits ahead of `main`.
    AskReviewCommits,
    /// Take the merge lock and merge the branch.
    Merge,
    /// Run the board tool, tell `notify` where it fails, and answer whether
    /// it worked.
    UpdateBoard { args: L, note: T, notify: L },
    RecordPhaseChanged { previous: T, next: T, iteration: u32 },
    RecordEvidence { kind: T, detail: T },
    RecordOrchestratorNote(T),
    RevertFiles(L),
    EmitScopeViolation(T),
    RecordTestResults(R),
    RecordNarrationRejection { count: u32 },
    /// File the snapshot, and note at the task that tests were run, whether
    /// they passed, their results, the outcome and the path.
    PersistSnapshot(S),
    SendMessage { from: T, to: T, body: T },
    RecordMaxIterations { iteration: u32, manager: T },
    RecordEscalated(T),
    MoveTask(T),
    BlockTask(T),
    /// Record the confidence that the diff was scored with.
    RecordConfidence(DiffSummary),
    RecordDecision { accepted: bool, confidence: T, confidence_bits: u64, reasons: L },
    /// Move the task to review under `manager`.
    MoveToReview { manager: Option<T> },
    MarkWorking(T),
    RecordCompleted,
    /// Put the merge of `branch`, whose tests passed, into the merge queue.
    EnqueueMerge {
        branch: T,
        duration_ms: u64,
        verify_after: bool,
        confidence_bits: u64,
        files_changed: usize,
        lines_changed: usize,
    },
    RecordTiming { branch: T, duration_ms: u64 },
    RecordManualMerge(MergeMode),
    RecordMergeFailed(T),
    NotifyReportsTo { manager: T, body: T },
    AppendLearning(T),
    /// Run the board tool; its failure changes nothing.
    TryUpdateBoard { args: L, note: T, notify: L },
}

/// An action as it exists at run time.
pub type Action = CompletionAction<String, Vec<String>, Snapshot, TestRecord>;

/// An action as contracts see it.
pub type ActionView = CompletionAction<
    Seq<char>,
    Seq<Seq<char>>,
    SnapshotView,
    TestRecordView,
>;

/// A state as it exists at run time.
pub type Progress = CompletionState<String, VerificationState, TestResults>;

/// A state as contracts see it.
pub type ProgressView = CompletionState<Seq<char>, VerificationView, ResultsView>;

impl ReviewRoute<String> {
    /// The route with the texts that its strings hold.
    pub open spec fn text(self) -> ReviewRoute<Seq<char>> {
        match self {
            ReviewRoute::Override => ReviewRoute::Override,
            ReviewRoute::AutoMerge { confidence_bits, files_changed, lines_changed } =>
                ReviewRoute::AutoMerge { confidence_bits, files_changed, lines_changed },
            ReviewRoute::Policy { confidence, reasons } => ReviewRoute::Policy {
                confidence: confidence@,
                reasons: reasons@,
            },
        }
    }
}

impl CompletionState<String, VerificationState, TestResults> {
    /// The state with the texts that its strings hold.
    pub open spec fn text(self) -> ProgressView {
        match self {
            CompletionState::Reported => CompletionState::Reported,
            CompletionState::AwaitBranch { task } => CompletionState::AwaitBranch { task },
            CompletionState::AwaitScope { task, facts, verification } => CompletionState::AwaitScope {
                task,
                facts: facts.text(),
                verification: verification@,
            },
            CompletionState::AwaitTests { task, facts, verification, fenced } => CompletionState::AwaitTests {
                task,
                facts: facts.text(),
                verification: verification@,
                fenced,
            },
            CompletionState::AwaitMergeFacts { task, results, duration_ms } => CompletionState::AwaitMergeFacts {
                task,
                results: results@,
                duration_ms,
            },
            CompletionState::AwaitDecision { task, branch, title, duration_ms, asked } => CompletionState::AwaitDecision {
                task,
                branch: branch@,
                title: title@,
                duration_ms,
                asked,
            },
            CompletionState::AwaitReviewCommits { task, branch, title, duration_ms, route } => CompletionState::AwaitReviewCommits {
                task,
                branch: branch@,
                title: title@,
                duration_ms,
                route: route.text(),
            },
            CompletionState::AwaitMerge { task, branch, title, duration_ms } => CompletionState::AwaitMerge {
                task,
                branch: branch@,
                title: title@,
                duration_ms,
            },
            CompletionState::AwaitBoard { task, title, mode, reason } => CompletionState::AwaitBoard {
                task,
                title: title@,
                mode,
                reason: paths::opt_view(reason),
            },
            CompletionState::Done => CompletionState::Done,
        }
    }
}

impl CompletionAction<String, Vec<String>, Snapshot, TestRecord> {
    /// The action with the texts that its strings hold.
    pub open spec fn text(self) -> ActionView {
        match self {
            CompletionAction::AskBranch => CompletionAction::AskBranch,
            CompletionAction::AskScope => CompletionAction::AskScope,
            CompletionAction::RunTests => CompletionAction::RunTests,
            CompletionAction::AskMergeFacts => CompletionAction::AskMergeFacts,
            CompletionAction::AskDecision(kind) => CompletionAction::AskDecision(kind),
            CompletionAction::AskReviewCommits => CompletionAction::AskReviewCommits,
            CompletionAction::Merge => CompletionAction::Merge,
            CompletionAction::UpdateBoard { args, note, notify } => CompletionAction::UpdateBoard {
                args: text::views(args@),
                note: note@,
                notify: text::views(notify@),
            },
            CompletionAction::RecordPhaseChanged { previous, next, iteration } => CompletionAction::RecordPhaseChanged {
                previous: previous@,
                next: next@,
                iteration,
            },
            CompletionAction::RecordEvidence { kind, detail } => CompletionAction::RecordEvidence {
                kind: kind@,
                detail: detail@,
            },
            CompletionAction::RecordOrchestratorNote(t) => CompletionAction::RecordOrchestratorNote(
                t@,
            ),
            CompletionAction::RevertFiles(l) => CompletionAction::RevertFiles(text::views(l@)),
            CompletionAction::EmitScopeViolation(t) => CompletionAction::EmitScopeViolation(t@),
            CompletionAction::RecordTestResults(record) => CompletionAction::RecordTestResults(
                record@,
            ),
            CompletionAction::RecordNarrationRejection { count } => CompletionAction::RecordNarrationRejection {
                count,
            },
            CompletionAction::PersistSnapshot(snapshot) => CompletionAction::PersistSnapshot(
                snapshot@,
            ),
            CompletionAction::SendMessage { from, to, body } => CompletionAction::SendMessage {
                from: from@,
                to: to@,
                body: body@,
            },
            CompletionAction::RecordMaxIterations { iteration, manager } => CompletionAction::RecordMaxIterations {
                iteration,
                manager: manager@,
            },
            CompletionAction::RecordEscalated(t) => CompletionAction::RecordEscalated(t@),
            CompletionAction::MoveTask(t) => CompletionAction::MoveTask(t@),
            CompletionAction::BlockTask(t) => CompletionAction::BlockTask(t@),
            CompletionAction::RecordConfidence(diff) => CompletionAction::RecordConfidence(diff),
            CompletionAction::RecordDecision { accepted, confidence, confidence_bits, reasons } =>
                CompletionAction::RecordDecision {
                accepted,
                confidence: confidence@,
                confidence_bits,
                reasons: text::views(reasons@),
            },
            CompletionAction::MoveToReview { manager } => CompletionAction::MoveToReview {
                manager: paths::opt_view(manager),
            },
            CompletionAction::MarkWorking(t) => CompletionAction::MarkWorking(t@),
            CompletionAction::RecordCompleted => CompletionAction::RecordCompleted,
            CompletionAction::EnqueueMerge {
                branch,
                duration_ms,
                verify_after,
                confidence_bits,
                files_changed,
                lines_changed,
            } => CompletionAction::EnqueueMerge {
                branch: branch@,
                duration_ms,
                verify_after,
                confidence_bits,
                files_changed,
                lines_changed,
            },
            CompletionAction::RecordTiming { branch, duration_ms } => CompletionAction::RecordTiming {
                branch: branch@,
                duration_ms,
            },
            CompletionAction::RecordManualMerge(mode) => CompletionAction::RecordManualMerge(mode),
            CompletionAction::RecordMergeFailed(t) => CompletionAction::RecordMergeFailed(t@),
            CompletionAction::NotifyReportsTo { manager, body } => CompletionAction::NotifyReportsTo {
                manager: manager@,
                body: body@,
            },
            CompletionAction::AppendLearning(t) => CompletionAction::AppendLearning(t@),
            CompletionAction::TryUpdateBoard { args, note, notify } => CompletionAction::TryUpdateBoard {
                args: text::views(args@),
                note: note@,
                notify: text::views(notify@),
            },
        }
    }
}

/// The texts of a list of actions.
pub open spec fn action_views(v: Seq<Action>) -> Seq<ActionView> {
    Seq::new(v.len(), |i: int| v[i].text())
}

/// Appends an action.
fn act(actions: &mut Vec<Action>, action: Action)
    ensures
        action_views(final(actions)@) == action_views(old(actions)@).push(action.text()),
{
    actions.push(action);
}

/// The outcome of a turn.
pub struct Turn {
    pub desk: Desk<VerificationState>,
    pub actions: Vec<Action>,
    pub state: Progress,
}

/// The outcome of a turn as contracts see it.
#[verifier::ext_equal]
pub struct TurnView {
    pub desk: Desk<VerificationView>,
    pub actions: Seq<ActionView>,
    pub state: ProgressView,
}

impl View for Turn {
    type V = TurnView;

    open spec fn view(&self) -> TurnView {
        TurnView {
            desk: self.desk.text(),
            actions: action_views(self.actions@),
            state: self.state.text(),
        }
    }
}

/// What a completion waits for.
#[derive(Clone, Debug)]
pub enum CompletionEvent {
    Reported,
    Branch(BranchFacts<String>),
    Scope(Option<ScopeFence>),
    /// The test run, and how long it took in milliseconds.
    Tests(VerificationRun, u64),
    MergeFacts(MergeFacts),
    Decision(AutoMergeDecision),
    ReviewCommits(u32),
    Merged(MergeOutcome<String>),
    /// Whether the board was updated, and the task's title as the board has
    /// it.
    Board(bool, Option<String>),
}

// ---------------------------------------------------------------------------
// Texts

/// `n` in decimal.
pub open spec fn num(n: u32) -> Seq<char> {
    text::decimal(n as nat)
}

fn num_of(n: u32) -> (r: String)
    ensures
        r@ == num(n),
{
    decimal_string(n as u64)
}

/// The diff stat, or a word for its absence.
pub open spec fn diff_text(diff_stat: Seq<char>) -> Seq<char> {
    if diff_stat.len() == 0 {
        "(empty)"@
    } else {
        diff_stat
    }
}

fn diff_text_of(diff_stat: &str) -> (r: String)
    ensures
        r@ == diff_text(diff_stat@),
{
    if diff_stat.is_empty() {
        copy("(empty)")
    } else {
        copy(diff_stat)
    }
}

/// The facts of the branch, as they stand at the end of a headline.
pub open spec fn facts_text(facts: BranchFacts<Seq<char>>) -> Seq<char> {
    "Commits ahead of main: "@ + num(facts.commits) + ". Files changed: "@ + num(facts.files)
        + ". Code files changed: "@ + num(facts.code_files) + ". Diff stat: "@ + diff_text(
        facts.diff_stat,
    )
}

fn facts_text_of(facts: &BranchFacts<String>) -> (r: String)
    ensures
        r@ == facts_text(facts.text()),
{
    copy("Commits ahead of main: ").concat(num_of(facts.commits).as_str()).concat(
        ". Files changed: ",
    ).concat(num_of(facts.files).as_str()).concat(". Code files changed: ").concat(
        num_of(facts.code_files).as_str(),
    ).concat(". Diff stat: ").concat(diff_text_of(facts.diff_stat.as_str()).as_str())
}

/// The first sentence of a rejection.
pub open spec fn headline_text(
    has_evidence: bool,
    facts: BranchFacts<Seq<char>>,
    failure_summary: Seq<char>,
) -> Seq<char> {
    if has_evidence {
        "Verification failed because the test command did not pass. Summary: "@ + failure_summary
            + "."@
    } else if facts.commits == 0 {
        "Verification rejected this completion because there are no commits ahead of main. Run `git add -A`, create a real commit, and inspect `git diff --stat main..HEAD` before reporting completion again. "@
            + facts_text(facts)
    } else if facts.code_files == 0 {
        (if facts.files == 0 {
            "Your previous attempt only produced commentary. Execute the actual commands to make the code changes."@
        } else {
            "Verification found no code changes in this completion."@
        })
            + " Inspect `git diff --stat main..HEAD` and make an actual code change before reporting completion again. "@
            + facts_text(facts)
    } else {
        "Verification could not accept this completion: no sufficient task evidence was found. "@
            + facts_text(facts)
    }
}

fn headline_of(has_evidence: bool, facts: &BranchFacts<String>, failure_summary: &str) -> (r:
    String)
    ensures
        r@ == headline_text(has_evidence, facts.text(), failure_summary@),
{
    if has_evidence {
        copy("Verification failed because the test command did not pass. Summary: ").concat(
            failure_summary,
        ).concat(".")
    } else {
        let tail: String = facts_text_of(facts);
        if facts.commits == 0 {
            copy(
                "Verification rejected this completion because there are no commits ahead of main. Run `git add -A`, create a real commit, and inspect `git diff --stat main..HEAD` before reporting completion again. ",
            ).concat(tail.as_str())
        } else if facts.code_files == 0 {
            let prefix: String = if facts.files == 0 {
                copy(
                    "Your previous attempt only produced commentary. Execute the actual commands to make the code changes.",
                )
            } else {
                copy("Verification found no code changes in this completion.")
            };
            prefix.concat(
                " Inspect `git diff --stat main..HEAD` and make an actual code change before reporting completion again. ",
            ).concat(tail.as_str())
        } else {
            copy(
                "Verification could not accept this completion: no sufficient task evidence was found. ",
            ).concat(tail.as_str())
        }
    }
}

/// The first eight of `items`, each behind a dash.
pub open spec fn dashed(items: Seq<Seq<char>>) -> Seq<Seq<char>> {
    Seq::new(
        if items.len() < 8 {
            items.len()
        } else {
            8
        },
        |i: int| "- "@ + items[i],
    )
}

/// The first eight of `items`, one per line.
pub open spec fn dash_list(items: Seq<Seq<char>>) -> Seq<char> {
    text::join(dashed(items), "\n"@)
}

fn dash_list_of(items: &Vec<String>) -> (r: String)
    ensures
        r@ == dash_list(text::views(items@)),
{
    let ghost all = dashed(text::views(items@));
    let mut out: Vec<String> = Vec::new();
    let mut i: usize = 0;
    while i < items.len() && i < 8
        invariant
            i <= items@.len(),
            i <= 8,
            all == dashed(text::views(items@)),
            text::views(out@) == all.take(i as int),
        decreases items@.len() - i,
    {
        let ghost before = out@;
        out.push(copy("- ").concat(items[i].as_str()));
        assert(text::views(out@) == text::views(before).push(all[i as int]));
        i += 1;
        assert(all.take(i as int) == all.take(i - 1).push(all[i - 1]));
    }
    assert(all.take(i as int) == all);
    join_strings(&out, "\n")
}

/// The line that counts the attempts.
pub open spec fn attempts_text(v: VerificationView) -> Seq<char> {
    "Attempts: "@ + num(v.iteration) + "/"@ + num(v.max_iterations)
}

fn attempts_of(v: &VerificationState) -> (r: String)
    ensures
        r@ == attempts_text(v@),
{
    copy("Attempts: ").concat(num_of(v.iteration).as_str()).concat("/").concat(
        num_of(v.max_iterations).as_str(),
    )
}

/// The end of a manager's message: the latest output.
pub open spec fn output_text(output: Seq<char>) -> Seq<char> {
    "\nLatest output:\n```\\n"@ + text::trim(output) + "\\n```"@
}

fn output_of(output: &str) -> (r: String)
    ensures
        r@ == output_text(output@),
{
    copy("\nLatest output:\n```\\n").concat(trimmed_str(output).as_str()).concat("\\n```")
}

/// One line per failed test of a run.
pub open spec fn details_of(run: RunView) -> Seq<Seq<char>> {
    super::verification::failure_details(run.results.failures)
}

/// The message that tells a manager of an escalation.
pub open spec fn manager_text(
    engineer: Seq<char>,
    task: u32,
    has_evidence: bool,
    facts: BranchFacts<Seq<char>>,
    v: VerificationView,
    run: RunView,
    narration_count: u32,
) -> Seq<char> {
    if !has_evidence && facts.code_files == 0 {
        "[daemon] Engineer "@ + engineer + " hit the narration-only quality gate "@ + num(
            narration_count,
        ) + " times on task #"@ + num(task)
            + ".\nReason: completion diff is narration-only.\n"@ + attempts_text(v)
            + "\nDiff stat: "@ + diff_text(facts.diff_stat) + output_text(run.output)
    } else if has_evidence {
        "[daemon] Engineer "@ + engineer + " hit verification max iterations on task #"@ + num(task)
            + ".\nLatest phase: failed\n"@ + attempts_text(v) + "\nSummary: "@
            + run.failure_summary + "\nRecent failures:\n"@ + dash_list(
            details_of(run),
        ) + output_text(run.output)
    } else {
        "[daemon] Engineer "@ + engineer + " hit verification max iterations on task #"@ + num(task)
            + ".\nLatest phase: failed\n"@ + attempts_text(v) + "\nDiff stat: "@ + diff_text(
            facts.diff_stat,
        ) + "\nRecent failures:\n"@ + dash_list(run.failures) + output_text(
            run.output,
        )
    }
}

fn manager_text_of(
    engineer: &str,
    task: u32,
    has_evidence: bool,
    facts: &BranchFacts<String>,
    v: &VerificationState,
    run: &VerificationRun,
    narration_count: u32,
) -> (r: String)
    ensures
        r@ == manager_text(
            engineer@,
            task,
            has_evidence,
            facts.text(),
            v@,
            run@,
            narration_count,
        ),
{
    let attempts: String = attempts_of(v);
    let output: String = output_of(run.output.as_str());
    let head: String = copy("[daemon] Engineer ").concat(engineer);
    if !has_evidence && facts.code_files == 0 {
        head.concat(" hit the narration-only quality gate ").concat(
            num_of(narration_count).as_str(),
        ).concat(" times on task #").concat(num_of(task).as_str()).concat(
            ".\nReason: completion diff is narration-only.\n",
        ).concat(attempts.as_str()).concat("\nDiff stat: ").concat(
            diff_text_of(facts.diff_stat.as_str()).as_str(),
        ).concat(output.as_str())
    } else if has_evidence {
        let details: Vec<String> = structured_failure_details(&run.results);
        head.concat(" hit verification max iterations on task #").concat(
            num_of(task).as_str(),
        ).concat(".\nLatest phase: failed\n").concat(attempts.as_str()).concat(
            "\nSummary: ",
        ).concat(run.failure_summary.as_str()).concat("\nRecent failures:\n").concat(
            dash_list_of(&details).as_str(),
        ).concat(output.as_str())
    } else {
        head.concat(" hit verification max iterations on task #").concat(
            num_of(task).as_str(),
        ).concat(".\nLatest phase: failed\n").concat(attempts.as_str()).concat(
            "\nDiff stat: ",
        ).concat(diff_text_of(facts.diff_stat.as_str()).as_str()).concat(
            "\nRecent failures:\n",
        ).concat(dash_list_of(&run.failures).as_str()).concat(output.as_str())
    }
}

/// Why an escalated task is blocked.
pub open spec fn block_reason_text(
    has_evidence: bool,
    code_files: u32,
    iteration: u32,
    failure_summary: Seq<char>,
) -> Seq<char> {
    "verification escalation after "@ + num(iteration) + (if !has_evidence && code_files == 0 {
        " attempts: narration-only completion"@
    } else if has_evidence {
        " attempts: "@ + failure_summary
    } else {
        " attempts: insufficient task evidence"@
    })
}

fn block_reason_of(has_evidence: bool, code_files: u32, iteration: u32, failure_summary: &str) -> (r:
    String)
    ensures
        r@ == block_reason_text(has_evidence, code_files, iteration, failure_summary@),
{
    let tail: String = if !has_evidence && code_files == 0 {
        copy(" attempts: narration-only completion")
    } else if has_evidence {
        copy(" attempts: ").concat(failure_summary)
    } else {
        copy(" attempts: insufficient task evidence")
    };
    copy("verification escalation after ").concat(num_of(iteration).as_str()).concat(tail.as_str())
}

/// The output that stands for a run that the policy skipped.
pub open spec fn skipped_output() -> Seq<char> {
    "automatic verification skipped because workflow_policy.verification.auto_run_tests=false"@
}

/// The run that stands in where the policy skips the tests.
pub open spec fn skipped_run() -> RunView {
    RunView {
        passed: true,
        output: skipped_output(),
        results: super::verification::no_results(
            "cargo"@,
            Some("automatic verification skipped by policy"@),
        ),
        failure_summary: Seq::empty(),
        failures: Seq::empty(),
        file_paths: Seq::empty(),
    }
}

fn skipped_run_of() -> (r: VerificationRun)
    ensures
        r@ == skipped_run(),
{
    let r = VerificationRun {
        passed: true,
        output: copy(
            "automatic verification skipped because workflow_policy.verification.auto_run_tests=false",
        ),
        results: empty_test_results(
            "cargo",
            Some(copy("automatic verification skipped by policy")),
        ),
        failure_summary: String::new(),
        failures: Vec::new(),
        file_paths: Vec::new(),
    };
    assert(r@.failures =~= Seq::<Seq<char>>::empty());
    assert(r@.file_paths =~= Seq::<Seq<char>>::empty());
    r
}

/// The message for a branch without commits that was headed for review.
pub open spec fn review_blocked_text() -> Seq<char> {
    "Review blocked: your branch has no commits ahead of main, so Batty kept the task in progress instead of moving it to review.\nCommit the work first:\n```\ngit add -A\ngit commit -m \"your task description\"\n```"@
}

// ---------------------------------------------------------------------------
// Recording

/// A phase change, as it is recorded.
pub open spec fn phase_action(
    previous: VerificationPhase,
    next: VerificationPhase,
    iteration: u32,
) -> ActionView {
    CompletionAction::RecordPhaseChanged {
        previous: super::verification::phase_text(previous),
        next: super::verification::phase_text(next),
        iteration,
    }
}

/// Enters a phase and records it.
fn transition_verification_phase(
    v: &mut VerificationState,
    next: VerificationPhase,
    actions: &mut Vec<Action>,
)
    ensures
        final(v)@ == old(v)@.in_phase(next),
        action_views(final(actions)@) == action_views(old(actions)@).push(
            phase_action(old(v)@.phase, next, old(v)@.iteration),
        ),
{
    let previous: VerificationPhase = v.transition(next);
    act(
        actions,
        CompletionAction::RecordPhaseChanged {
            previous: phase_name(previous),
            next: phase_name(next),
            iteration: v.iteration,
        },
    );
}

/// A piece of evidence, as it is recorded.
pub open spec fn evidence_action(kind: EvidenceKind, detail: Seq<char>) -> ActionView {
    CompletionAction::RecordEvidence { kind: super::verification::kind_text(kind), detail }
}

/// Adds a piece of evidence and records it.
fn record_verification_evidence(
    v: &mut VerificationState,
    kind: EvidenceKind,
    detail: String,
    actions: &mut Vec<Action>,
)
    ensures
        final(v)@ == old(v)@.with_evidence(kind, detail@),
        action_views(final(actions)@) == action_views(old(actions)@).push(
            evidence_action(kind, detail@),
        ),
{
    act(actions, CompletionAction::RecordEvidence { kind: kind_name(kind), detail: detail.clone() });
    v.record_evidence(kind, detail);
}

/// The snapshot of a verification and its test run, as it is filed.
pub open spec fn snapshot_action(
    task: u32,
    engineer: Seq<char>,
    v: VerificationView,
    run: RunView,
) -> ActionView {
    CompletionAction::PersistSnapshot(
        SnapshotView {
            path: super::verification::snapshot_path_text(task, engineer, v.iteration),
            task,
            engineer,
            phase: super::verification::phase_text(v.phase),
            attempt: super::verification::snapshot_attempt(v.iteration),
            max_attempts: v.max_iterations,
            outcome: super::verification::outcome_text(v.phase),
            passed: run.passed,
            results: run.results,
            failures: run.failures,
            file_paths: run.file_paths,
            evidence: v.evidence,
            output: run.output,
        },
    )
}

/// Files the snapshot of a verification and its test run.
fn persist_verification_snapshot(
    task: u32,
    engineer: &str,
    v: &VerificationState,
    run: &VerificationRun,
    actions: &mut Vec<Action>,
)
    ensures
        action_views(final(actions)@) == action_views(old(actions)@).push(
            snapshot_action(task, engineer@, v@, run@),
        ),
{
    let snapshot: Snapshot = Snapshot {
        path: snapshot_path(task, engineer, v.iteration),
        task,
        engineer: copy(engineer),
        phase: phase_name(v.phase),
        attempt: if v.iteration == 0 {
            1
        } else {
            v.iteration
        },
        max_attempts: v.max_iterations,
        outcome: verification_outcome_label(v.phase),
        passed: run.passed,
        results: clone_results(&run.results),
        failures: clone_strings(&run.failures),
        file_paths: clone_strings(&run.file_paths),
        evidence: clone_evidence(&v.evidence),
        output: run.output.clone(),
    };
    act(actions, CompletionAction::PersistSnapshot(snapshot));
}

/// What is recorded of a test run that failed.
pub open spec fn failed_record(run: RunView) -> ActionView {
    CompletionAction::RecordTestResults(
        TestRecordView { results: run.results, flaky: Seq::empty() },
    )
}

// ---------------------------------------------------------------------------
// Turns

/// The desk with no verification on it.
pub open spec fn without_verification(desk: Desk<VerificationView>) -> Desk<VerificationView> {
    Desk { verification: None, ..desk }
}

/// A completion is taken up where a task is active in a worktree.
pub open spec fn start_turn(
    context: CompletionContext,
    desk: Desk<VerificationView>,
) -> TurnView {
    match desk.active_task {
        Some(task) => if context.uses_worktrees {
            TurnView {
                desk,
                actions: seq![CompletionAction::AskBranch],
                state: CompletionState::AwaitBranch { task },
            }
        } else {
            TurnView { desk, actions: Seq::empty(), state: CompletionState::Done }
        },
        None => TurnView { desk, actions: Seq::empty(), state: CompletionState::Done },
    }
}

fn start(context: &CompletionContext, desk: Desk<VerificationState>) -> (r: Turn)
    ensures
        r@ == start_turn(*context, desk.text()),
{
    let mut actions: Vec<Action> = Vec::new();
    assert(action_views(actions@) == Seq::<ActionView>::empty());
    match desk.active_task {
        Some(task) => {
            if context.uses_worktrees {
                act(&mut actions, CompletionAction::AskBranch);
                Turn { desk, actions, state: CompletionState::AwaitBranch { task } }
            } else {
                Turn { desk, actions, state: CompletionState::Done }
            }
        },
        None => Turn { desk, actions, state: CompletionState::Done },
    }
}

/// The verification that a completion begins with.
pub open spec fn opened_verification(
    policy: CompletionPolicy,
    kept: Option<VerificationView>,
) -> VerificationView {
    let v = match kept {
        Some(v) => v,
        None => VerificationView::fresh(policy.max_iterations),
    };
    VerificationView {
        max_iterations: super::verification::retry_budget(policy.max_iterations),
        evidence: Seq::empty(),
        ..v
    }
}

/// With the branch known, the verification begins.
pub open spec fn branch_turn(
    context: CompletionContext,
    desk: Desk<VerificationView>,
    task: u32,
    facts: BranchFacts<Seq<char>>,
) -> TurnView {
    let v = opened_verification(context.policy, desk.verification);
    TurnView {
        desk: without_verification(desk),
        actions: seq![
            phase_action(v.phase, VerificationPhase::Verifying, v.iteration),
            CompletionAction::AskScope,
        ],
        state: CompletionState::AwaitScope {
            task,
            facts,
            verification: v.in_phase(VerificationPhase::Verifying),
        },
    }
}

fn on_branch(
    context: &CompletionContext,
    desk: Desk<VerificationState>,
    task: u32,
    facts: BranchFacts<String>,
) -> (r: Turn)
    ensures
        r@ == branch_turn(*context, desk.text(), task, facts.text()),
{
    let ghost old_desk = desk.text();
    let mut desk: Desk<VerificationState> = desk;
    let mut actions: Vec<Action> = Vec::new();
    assert(action_views(actions@) == Seq::<ActionView>::empty());
    let mut v: VerificationState = match desk.verification {
        Some(v) => v,
        None => VerificationState::new(context.policy.max_iterations),
    };
    desk.verification = None;
    v.max_iterations = verification_retry_budget(context.policy.max_iterations);
    v.clear_evidence();
    assert(v@ == opened_verification(context.policy, old_desk.verification));
    transition_verification_phase(&mut v, VerificationPhase::Verifying, &mut actions);
    act(&mut actions, CompletionAction::AskScope);
    assert(desk.text() == without_verification(old_desk));
    assert(action_views(actions@) == branch_turn(*context, old_desk, task, facts.text()).actions);
    Turn { desk, actions, state: CompletionState::AwaitScope { task, facts, verification: v } }
}

/// The fence holds files that the branch should not have touched.
pub open spec fn is_violated(fence: Option<ScopeFence>) -> bool {
    fence matches Some(f) && f.out_of_scope_files@.len() > 0
}

/// The tests run outside the count of attempts: the fence is violated or was
/// never acknowledged.
pub open spec fn is_fenced(fence: Option<ScopeFence>) -> bool {
    fence matches Some(f) && (!f.ack_present || f.out_of_scope_files@.len() > 0)
}

/// What a violated fence sets off.
pub open spec fn violation_actions(
    engineer: Seq<char>,
    fence: Option<ScopeFence>,
) -> Seq<ActionView> {
    if is_violated(fence) {
        let files = text::views(fence->Some_0.out_of_scope_files@);
        let list = text::join(files, ", "@);
        seq![
            CompletionAction::RecordOrchestratorNote(
                "scope violation: "@ + engineer
                    + " modified fenced files outside declared scope: "@ + list
                    + " — reverting out-of-scope changes"@,
            ),
            CompletionAction::RevertFiles(files),
            CompletionAction::EmitScopeViolation(
                "reclaim_requested=true out_of_scope_files="@ + list,
            ),
        ]
    } else {
        Seq::empty()
    }
}

fn report_violation(engineer: &str, fence: &Option<ScopeFence>) -> (r: Vec<Action>)
    ensures
        action_views(r@) == violation_actions(engineer@, *fence),
{
    let mut actions: Vec<Action> = Vec::new();
    assert(action_views(actions@) == Seq::<ActionView>::empty());
    if let Some(f) = fence {
        if f.out_of_scope_files.len() > 0 {
            let list: String = join_strings(&f.out_of_scope_files, ", ");
            act(
                &mut actions,
                CompletionAction::RecordOrchestratorNote(
                    copy("scope violation: ").concat(engineer).concat(
                        " modified fenced files outside declared scope: ",
                    ).concat(list.as_str()).concat(" — reverting out-of-scope changes"),
                ),
            );
            act(
                &mut actions,
                CompletionAction::RevertFiles(text::clone_strings(&f.out_of_scope_files)),
            );
            act(
                &mut actions,
                CompletionAction::EmitScopeViolation(
                    copy("reclaim_requested=true out_of_scope_files=").concat(list.as_str()),
                ),
            );
        }
    }
    actions
}

/// The verification and the actions after one count was looked at.
pub open spec fn count_evidence(
    acc: (VerificationView, Seq<ActionView>),
    kind: EvidenceKind,
    count: u32,
) -> (VerificationView, Seq<ActionView>) {
    let detail = super::verification::kind_text(kind) + "="@ + num(count);
    if count > 0 {
        (acc.0.with_evidence(kind, detail), acc.1.push(evidence_action(kind, detail)))
    } else {
        acc
    }
}

fn note_count(v: &mut VerificationState, kind: EvidenceKind, count: u32, actions: &mut Vec<Action>)
    ensures
        (final(v)@, action_views(final(actions)@)) == count_evidence(
            (old(v)@, action_views(old(actions)@)),
            kind,
            count,
        ),
{
    if count > 0 {
        let detail: String = kind_name(kind).concat("=").concat(num_of(count).as_str());
        record_verification_evidence(v, kind, detail, actions);
    }
}

/// The evidence that the branch itself shows.
pub open spec fn branch_evidence(
    acc: (VerificationView, Seq<ActionView>),
    facts: BranchFacts<Seq<char>>,
) -> (VerificationView, Seq<ActionView>) {
    count_evidence(
        count_evidence(
            count_evidence(acc, EvidenceKind::CommitsAhead, facts.commits),
            EvidenceKind::FilesChanged,
            facts.files,
        ),
        EvidenceKind::CodeFilesChanged,
        facts.code_files,
    )
}

/// What follows the answer about the scope fence: the tests, or the decision at
/// once where the policy skips them.
pub open spec fn scope_turn(
    context: CompletionContext,
    desk: Desk<VerificationView>,
    task: u32,
    facts: BranchFacts<Seq<char>>,
    v: VerificationView,
    fence: Option<ScopeFence>,
) -> TurnView {
    let (v1, actions) = branch_evidence(
        (v, violation_actions(context.engineer@, fence)),
        facts,
    );
    if is_fenced(fence) {
        TurnView {
            desk,
            actions: actions.push(CompletionAction::RunTests),
            state: CompletionState::AwaitTests { task, facts, verification: v1, fenced: true },
        }
    } else if context.policy.auto_run_tests {
        TurnView {
            desk,
            actions: actions.push(CompletionAction::RunTests),
            state: CompletionState::AwaitTests {
                task,
                facts,
                verification: VerificationView { iteration: (v1.iteration + 1) as u32, ..v1 },
                fenced: false,
            },
        }
    } else {
        let detail = "automatic verification skipped by policy"@;
        gate_turn(
            context,
            desk,
            task,
            facts,
            v1.with_test(true, skipped_output()).with_evidence(EvidenceKind::TestsPassed, detail),
            skipped_run(),
            0,
            actions.push(evidence_action(EvidenceKind::TestsPassed, detail)),
        )
    }
}

/// The completion shows what the policy requires.
pub open spec fn has_required_evidence(
    policy: CompletionPolicy,
    facts: BranchFacts<Seq<char>>,
) -> bool {
    !policy.require_evidence || (facts.commits > 0 && facts.code_files > 0)
}

/// What a passed gate leads to.
pub open spec fn pass_turn(
    context: CompletionContext,
    desk: Desk<VerificationView>,
    task: u32,
    v: VerificationView,
    run: RunView,
    duration_ms: u64,
    actions: Seq<ActionView>,
) -> TurnView {
    let done = v.in_phase(VerificationPhase::Complete);
    TurnView {
        desk: Desk { narration_rejections: None, verification: None, ..desk },
        actions: actions.push(
            phase_action(v.phase, VerificationPhase::Complete, v.iteration),
        ).push(snapshot_action(task, context.engineer@, done, run)).push(
            CompletionAction::AskMergeFacts,
        ),
        state: CompletionState::AwaitMergeFacts { task, results: run.results, duration_ms },
    }
}

/// How often the task was rejected for want of code changes, this time
/// included.
pub open spec fn narration_count(
    policy: CompletionPolicy,
    facts: BranchFacts<Seq<char>>,
    desk: Desk<VerificationView>,
) -> int {
    if !has_required_evidence(policy, facts) && facts.code_files == 0 {
        (match desk.narration_rejections {
            Some(n) => n as int,
            None => 0,
        }) + 1
    } else {
        0
    }
}

/// A rejection is escalated: after the second one for want of code changes,
/// never for want of commits alone, and otherwise when the attempts are used
/// up.
pub open spec fn escalates(
    policy: CompletionPolicy,
    facts: BranchFacts<Seq<char>>,
    desk: Desk<VerificationView>,
    v: VerificationView,
) -> bool {
    if !has_required_evidence(policy, facts) && facts.code_files == 0 {
        narration_count(policy, facts, desk) >= 2
    } else if !has_required_evidence(policy, facts) && facts.commits == 0 {
        false
    } else {
        v.iteration >= v.max_iterations
    }
}

/// What a rejection leads to.
pub open spec fn reject_turn(
    context: CompletionContext,
    desk: Desk<VerificationView>,
    task: u32,
    facts: BranchFacts<Seq<char>>,
    v: VerificationView,
    run: RunView,
    actions: Seq<ActionView>,
) -> TurnView {
    let engineer = context.engineer@;
    let evidence = has_required_evidence(context.policy, facts);
    let narrated = !evidence && facts.code_files == 0;
    let count = narration_count(context.policy, facts, desk) as u32;
    let escalated = escalates(context.policy, facts, desk, v);
    let next = v.in_phase(
        if escalated {
            VerificationPhase::Failed
        } else {
            VerificationPhase::Fixing
        },
    );
    let a0 = if run.passed {
        actions
    } else {
        actions.push(failed_record(run))
    };
    let a1 = if narrated {
        a0.push(CompletionAction::RecordNarrationRejection { count })
    } else {
        a0
    };
    let a2 = a1.push(phase_action(v.phase, next.phase, v.iteration)).push(
        snapshot_action(task, engineer, next, run),
    ).push(
        CompletionAction::SendMessage {
            from: "batty"@,
            to: engineer,
            body: super::verification::fix_message_text(
                next.iteration,
                next.max_iterations,
                headline_text(evidence, facts, run.failure_summary),
                details_of(run),
                run.file_paths,
                run.output,
            ),
        },
    );
    if escalated {
        let a3 = match context.manager {
            Some(manager) => a2.push(
                CompletionAction::RecordMaxIterations {
                    iteration: next.iteration,
                    manager: manager@,
                },
            ).push(
                CompletionAction::SendMessage {
                    from: "daemon"@,
                    to: manager@,
                    body: manager_text(engineer, task, evidence, facts, next, run, count),
                },
            ),
            None => a2,
        };
        TurnView {
            desk: cleared(without_verification(desk)),
            actions: a3.push(CompletionAction::RecordEscalated("verification_failed"@)).push(
                CompletionAction::MoveTask("blocked"@),
            ).push(
                CompletionAction::BlockTask(
                    block_reason_text(
                        evidence,
                        facts.code_files,
                        next.iteration,
                        run.failure_summary,
                    ),
                ),
            ),
            state: CompletionState::Done,
        }
    } else {
        TurnView {
            desk: Desk {
                narration_rejections: if narrated {
                    Some(count)
                } else {
                    desk.narration_rejections
                },
                verification: Some(next),
                ..desk
            },
            actions: a2,
            state: CompletionState::Done,
        }
    }
}

/// What the evidence decides: the required evidence and a passing run let it
/// through; anything else rejects it.
pub open spec fn gate_turn(
    context: CompletionContext,
    desk: Desk<VerificationView>,
    task: u32,
    facts: BranchFacts<Seq<char>>,
    v: VerificationView,
    run: RunView,
    duration_ms: u64,
    actions: Seq<ActionView>,
) -> TurnView {
    if has_required_evidence(context.policy, facts) && run.passed {
        pass_turn(context, desk, task, v, run, duration_ms, actions)
    } else {
        reject_turn(context, desk, task, facts, v, run, actions)
    }
}

/// The verification can count one more attempt and the desk one more
/// rejection and one more retry.
pub open spec fn can_count(desk: Desk<VerificationView>, state: ProgressView) -> bool {
    &&& desk.retry_count matches Some(n) ==> n < u32::MAX
    &&& desk.narration_rejections matches Some(n) ==> n < u32::MAX
    &&& state matches CompletionState::AwaitScope { verification, .. } ==> verification.iteration
        < u32::MAX
}

fn reject(
    context: &CompletionContext,
    desk: Desk<VerificationState>,
    task: u32,
    facts: &BranchFacts<String>,
    v: VerificationState,
    run: &VerificationRun,
    actions: Vec<Action>,
) -> (r: Turn)
    requires
        desk.narration_rejections matches Some(n) ==> n < u32::MAX,
    ensures
        r@ == reject_turn(
            *context,
            desk.text(),
            task,
            facts.text(),
            v@,
            run@,
            action_views(actions@),
        ),
{
    let mut desk: Desk<VerificationState> = desk;
    let mut v: VerificationState = v;
    let mut actions: Vec<Action> = actions;
    let engineer: &str = context.engineer.as_str();
    let evidence: bool = !context.policy.require_evidence || (facts.commits > 0 && facts.code_files
        > 0);
    let narrated: bool = !evidence && facts.code_files == 0;
    if !run.passed {
        let record: TestRecord = TestRecord {
            results: clone_results(&run.results),
            flaky: Vec::new(),
        };
        assert(record@.flaky =~= Seq::<FailureView>::empty());
        act(&mut actions, CompletionAction::RecordTestResults(record));
    }
    let count: u32 = if narrated {
        let before: u32 = match desk.narration_rejections {
            Some(n) => n,
            None => 0,
        };
        before + 1
    } else {
        0
    };
    let escalated: bool = if narrated {
        count >= 2
    } else if !evidence && facts.commits == 0 {
        false
    } else {
        v.reached_max_iterations()
    };
    if narrated {
        act(&mut actions, CompletionAction::RecordNarrationRejection { count });
    }
    let next_phase: VerificationPhase = if escalated {
        VerificationPhase::Failed
    } else {
        VerificationPhase::Fixing
    };
    transition_verification_phase(&mut v, next_phase, &mut actions);
    persist_verification_snapshot(task, engineer, &v, run, &mut actions);
    let headline: String = headline_of(evidence, facts, run.failure_summary.as_str());
    let details: Vec<String> = structured_failure_details(&run.results);
    let body: String = verification_fix_message(
        &v,
        headline.as_str(),
        &details,
        &run.file_paths,
        run.output.as_str(),
    );
    act(
        &mut actions,
        CompletionAction::SendMessage { from: copy("batty"), to: copy(engineer), body },
    );
    if escalated {
        if let Some(manager) = &context.manager {
            act(
                &mut actions,
                CompletionAction::RecordMaxIterations {
                    iteration: v.iteration,
                    manager: manager.clone(),
                },
            );
            act(
                &mut actions,
                CompletionAction::SendMessage {
                    from: copy("daemon"),
                    to: manager.clone(),
                    body: manager_text_of(engineer, task, evidence, facts, &v, run, count),
                },
            );
        }
        let reason: String = block_reason_of(
            evidence,
            facts.code_files,
            v.iteration,
            run.failure_summary.as_str(),
        );
        act(&mut actions, CompletionAction::RecordEscalated(copy("verification_failed")));
        act(&mut actions, CompletionAction::MoveTask(copy("blocked")));
        act(&mut actions, CompletionAction::BlockTask(reason));
        desk.verification = None;
        clear_desk(&mut desk);
    } else {
        if narrated {
            desk.narration_rejections = Some(count);
        }
        desk.verification = Some(v);
    }
    Turn { desk, actions, state: CompletionState::Done }
}

fn gate(
    context: &CompletionContext,
    desk: Desk<VerificationState>,
    task: u32,
    facts: &BranchFacts<String>,
    v: VerificationState,
    run: &VerificationRun,
    duration_ms: u64,
    actions: Vec<Action>,
) -> (r: Turn)
    requires
        desk.narration_rejections matches Some(n) ==> n < u32::MAX,
    ensures
        r@ == gate_turn(
            *context,
            desk.text(),
            task,
            facts.text(),
            v@,
            run@,
            duration_ms,
            action_views(actions@),
        ),
{
    let evidence: bool = !context.policy.require_evidence || (facts.commits > 0 && facts.code_files
        > 0);
    if !evidence || !run.passed {
        return reject(context, desk, task, facts, v, run, actions);
    }
    let mut desk: Desk<VerificationState> = desk;
    let mut v: VerificationState = v;
    let mut actions: Vec<Action> = actions;
    desk.narration_rejections = None;
    desk.verification = None;
    transition_verification_phase(&mut v, VerificationPhase::Complete, &mut actions);
    persist_verification_snapshot(task, context.engineer.as_str(), &v, run, &mut actions);
    act(&mut actions, CompletionAction::AskMergeFacts);
    Turn {
        desk,
        actions,
        state: CompletionState::AwaitMergeFacts {
            task,
            results: clone_results(&run.results),
            duration_ms,
        },
    }
}

fn on_scope(
    context: &CompletionContext,
    desk: Desk<VerificationState>,
    task: u32,
    facts: BranchFacts<String>,
    v: VerificationState,
    fence: &Option<ScopeFence>,
) -> (r: Turn)
    requires
        desk.narration_rejections matches Some(n) ==> n < u32::MAX,
        v.iteration < u32::MAX,
    ensures
        r@ == scope_turn(*context, desk.text(), task, facts.text(), v@, *fence),
{
    let mut v: VerificationState = v;
    let mut actions: Vec<Action> = report_violation(context.engineer.as_str(), fence);
    note_count(&mut v, EvidenceKind::CommitsAhead, facts.commits, &mut actions);
    note_count(&mut v, EvidenceKind::FilesChanged, facts.files, &mut actions);
    note_count(&mut v, EvidenceKind::CodeFilesChanged, facts.code_files, &mut actions);
    let fenced: bool = match fence {
        Some(f) => !f.ack_present || f.out_of_scope_files.len() > 0,
        None => false,
    };
    if fenced {
        act(&mut actions, CompletionAction::RunTests);
        Turn {
            desk,
            actions,
            state: CompletionState::AwaitTests { task, facts, verification: v, fenced: true },
        }
    } else if context.policy.auto_run_tests {
        v.begin_iteration();
        act(&mut actions, CompletionAction::RunTests);
        Turn {
            desk,
            actions,
            state: CompletionState::AwaitTests { task, facts, verification: v, fenced: false },
        }
    } else {
        let run: VerificationRun = skipped_run_of();
        v.last_test_passed = true;
        v.last_test_output = Some(run.output.clone());
        record_verification_evidence(
            &mut v,
            EvidenceKind::TestsPassed,
            copy("automatic verification skipped by policy"),
            &mut actions,
        );
        gate(context, desk, task, &facts, v, &run, 0, actions)
    }
}

/// What the test run adds to the evidence.
pub open spec fn test_evidence(run: RunView) -> (EvidenceKind, Seq<char>) {
    if run.passed {
        (EvidenceKind::TestsPassed, "tests_passed"@)
    } else {
        (
            EvidenceKind::TestsFailed,
            if run.failures.len() > 0 {
                run.failures[0]
            } else {
                "tests_failed"@
            },
        )
    }
}

/// With the tests run, the evidence decides.
pub open spec fn tests_turn(
    context: CompletionContext,
    desk: Desk<VerificationView>,
    task: u32,
    facts: BranchFacts<Seq<char>>,
    v: VerificationView,
    fenced: bool,
    run: RunView,
    duration_ms: u64,
) -> TurnView {
    if fenced {
        gate_turn(context, desk, task, facts, v, run, 0, Seq::empty())
    } else {
        let (kind, detail) = test_evidence(run);
        gate_turn(
            context,
            desk,
            task,
            facts,
            v.with_test(run.passed, run.output).with_evidence(kind, detail),
            run,
            duration_ms,
            seq![evidence_action(kind, detail)],
        )
    }
}

fn on_tests(
    context: &CompletionContext,
    desk: Desk<VerificationState>,
    task: u32,
    facts: &BranchFacts<String>,
    v: VerificationState,
    fenced: bool,
    run: &VerificationRun,
    duration_ms: u64,
) -> (r: Turn)
    requires
        desk.narration_rejections matches Some(n) ==> n < u32::MAX,
    ensures
        r@ == tests_turn(*context, desk.text(), task, facts.text(), v@, fenced, run@, duration_ms),
{
    let mut v: VerificationState = v;
    let mut actions: Vec<Action> = Vec::new();
    assert(action_views(actions@) == Seq::<ActionView>::empty());
    if fenced {
        return gate(context, desk, task, facts, v, run, 0, actions);
    }
    v.last_test_passed = run.passed;
    v.last_test_output = Some(run.output.clone());
    if run.passed {
        record_verification_evidence(
            &mut v,
            EvidenceKind::TestsPassed,
            copy("tests_passed"),
            &mut actions,
        );
    } else {
        let detail: String = if run.failures.len() > 0 {
            run.failures[0].clone()
        } else {
            copy("tests_failed")
        };
        record_verification_evidence(&mut v, EvidenceKind::TestsFailed, detail, &mut actions);
    }
    gate(context, desk, task, facts, v, run, duration_ms, actions)
}

/// With the tests passed, the task is routed: an override to manual review, an
/// auto-merge decision, or the merge itself.
pub open spec fn merge_facts_turn(
    context: CompletionContext,
    desk: Desk<VerificationView>,
    task: u32,
    results: ResultsView,
    duration_ms: u64,
    facts: MergeFacts,
) -> TurnView {
    let flaky = super::verification::flaky_failures(facts.previous_results, results.failed);
    let recorded: Seq<ActionView> = seq![
        CompletionAction::RecordTestResults(
            TestRecordView { results, flaky: super::verification::failure_views(flaky) },
        ),
    ];
    let scored: Seq<ActionView> = match facts.diff {
        Some(diff) => recorded.push(CompletionAction::RecordConfidence(diff)),
        None => recorded,
    };
    let asked = match facts.diff {
        _ if facts.auto_merge_override == Some(false) => Some(DecisionKind::ForcedManual),
        Some(diff) if facts.auto_merge_override == Some(true) => Some(
            DecisionKind::ForcedAuto(diff),
        ),
        Some(diff) if context.policy.auto_merge_enabled => Some(DecisionKind::Evaluate(diff)),
        _ => None,
    };
    match asked {
        Some(kind) => TurnView {
            desk,
            actions: scored.push(CompletionAction::AskDecision(kind)),
            state: CompletionState::AwaitDecision {
                task,
                branch: facts.branch@,
                title: facts.title@,
                duration_ms,
                asked: kind,
            },
        },
        None => TurnView {
            desk,
            actions: scored.push(CompletionAction::Merge),
            state: CompletionState::AwaitMerge {
                task,
                branch: facts.branch@,
                title: facts.title@,
                duration_ms,
            },
        },
    }
}

fn on_merge_facts(
    context: &CompletionContext,
    desk: Desk<VerificationState>,
    task: u32,
    results: TestResults,
    duration_ms: u64,
    facts: &MergeFacts,
) -> (r: Turn)
    ensures
        r@ == merge_facts_turn(*context, desk.text(), task, results@, duration_ms, *facts),
{
    let mut actions: Vec<Action> = Vec::new();
    assert(action_views(actions@) == Seq::<ActionView>::empty());
    let flaky: Vec<TestFailure> = detect_flaky_failures(&facts.previous_results, &results);
    act(&mut actions, CompletionAction::RecordTestResults(TestRecord { results, flaky }));
    if let Some(diff) = facts.diff {
        act(&mut actions, CompletionAction::RecordConfidence(diff));
    }
    let asked: Option<DecisionKind> = match (facts.auto_merge_override, facts.diff) {
        (Some(false), _) => Some(DecisionKind::ForcedManual),
        (Some(true), Some(diff)) => Some(DecisionKind::ForcedAuto(diff)),
        (None, Some(diff)) => if context.policy.auto_merge_enabled {
            Some(DecisionKind::Evaluate(diff))
        } else {
            None
        },
        (_, None) => None,
    };
    match asked {
        Some(kind) => {
            act(&mut actions, CompletionAction::AskDecision(kind));
            Turn {
                desk,
                actions,
                state: CompletionState::AwaitDecision {
                    task,
                    branch: facts.branch.clone(),
                    title: facts.title.clone(),
                    duration_ms,
                    asked: kind,
                },
            }
        },
        None => {
            act(&mut actions, CompletionAction::Merge);
            Turn {
                desk,
                actions,
                state: CompletionState::AwaitMerge {
                    task,
                    branch: facts.branch.clone(),
                    title: facts.title.clone(),
                    duration_ms,
                },
            }
        },
    }
}

/// Where a decision sends the task.
pub open spec fn decided_route(asked: DecisionKind, decision: AutoMergeDecision) -> ReviewRoute<
    Seq<char>,
> {
    match asked {
        DecisionKind::ForcedManual => ReviewRoute::Override,
        DecisionKind::ForcedAuto(diff) => judged_route(diff, decision),
        DecisionKind::Evaluate(diff) => judged_route(diff, decision),
    }
}

/// Where a decision on a diff sends the task.
pub open spec fn judged_route(diff: DiffSummary, decision: AutoMergeDecision) -> ReviewRoute<
    Seq<char>,
> {
    if decision.accepted {
        ReviewRoute::AutoMerge {
            confidence_bits: decision.confidence_bits,
            files_changed: diff.files_changed,
            lines_changed: diff.lines_changed,
        }
    } else {
        ReviewRoute::Policy {
            confidence: decision.confidence@,
            reasons: text::join(text::views(decision.reasons@), "; "@),
        }
    }
}

/// A decision is recorded; before the task moves on, the commits are counted
/// again.
pub open spec fn decision_turn(
    desk: Desk<VerificationView>,
    task: u32,
    branch: Seq<char>,
    title: Seq<char>,
    duration_ms: u64,
    asked: DecisionKind,
    decision: AutoMergeDecision,
) -> TurnView {
    TurnView {
        desk,
        actions: seq![
            CompletionAction::RecordDecision {
                accepted: decision.accepted,
                confidence: decision.confidence@,
                confidence_bits: decision.confidence_bits,
                reasons: text::views(decision.reasons@),
            },
            CompletionAction::AskReviewCommits,
        ],
        state: CompletionState::AwaitReviewCommits {
            task,
            branch,
            title,
            duration_ms,
            route: decided_route(asked, decision),
        },
    }
}

fn judge(diff: &DiffSummary, decision: &AutoMergeDecision) -> (r: ReviewRoute<String>)
    ensures
        r.text() == judged_route(*diff, *decision),
{
    if decision.accepted {
        ReviewRoute::AutoMerge {
            confidence_bits: decision.confidence_bits,
            files_changed: diff.files_changed,
            lines_changed: diff.lines_changed,
        }
    } else {
        ReviewRoute::Policy {
            confidence: decision.confidence.clone(),
            reasons: join_strings(&decision.reasons, "; "),
        }
    }
}

fn on_decision(
    desk: Desk<VerificationState>,
    task: u32,
    branch: String,
    title: String,
    duration_ms: u64,
    asked: DecisionKind,
    decision: &AutoMergeDecision,
) -> (r: Turn)
    ensures
        r@ == decision_turn(desk.text(), task, branch@, title@, duration_ms, asked, *decision),
{
    let mut actions: Vec<Action> = Vec::new();
    assert(action_views(actions@) == Seq::<ActionView>::empty());
    act(
        &mut actions,
        CompletionAction::RecordDecision {
            accepted: decision.accepted,
            confidence: decision.confidence.clone(),
            confidence_bits: decision.confidence_bits,
            reasons: clone_strings(&decision.reasons),
        },
    );
    act(&mut actions, CompletionAction::AskReviewCommits);
    let route: ReviewRoute<String> = match asked {
        DecisionKind::ForcedManual => ReviewRoute::Override,
        DecisionKind::ForcedAuto(diff) => judge(&diff, decision),
        DecisionKind::Evaluate(diff) => judge(&diff, decision),
    };
    Turn {
        desk,
        actions,
        state: CompletionState::AwaitReviewCommits { task, branch, title, duration_ms, route },
    }
}

/// What a manager is told of a task that waits for review.
pub open spec fn review_text(
    engineer: Seq<char>,
    task: u32,
    title: Seq<char>,
    route: ReviewRoute<Seq<char>>,
) -> Seq<char> {
    "["@ + engineer + "] Task #"@ + num(task) + (match route {
        ReviewRoute::Policy { confidence, reasons } =>
            " passed tests but requires manual review.\nTitle: "@ + title + "\nConfidence: "@
            + confidence + "\nReasons: "@ + reasons,
        _ =>
            " passed tests. Auto-merge disabled by override — awaiting manual review.\nTitle: "@
            + title,
    })
}

fn review_text_of(engineer: &str, task: u32, title: &str, route: &ReviewRoute<String>) -> (r:
    String)
    ensures
        r@ == review_text(engineer@, task, title@, route.text()),
{
    let tail: String = match route {
        ReviewRoute::Policy { confidence, reasons } => copy(
            " passed tests but requires manual review.\nTitle: ",
        ).concat(title).concat("\nConfidence: ").concat(confidence.as_str()).concat(
            "\nReasons: ",
        ).concat(reasons.as_str()),
        _ => copy(
            " passed tests. Auto-merge disabled by override — awaiting manual review.\nTitle: ",
        ).concat(title),
    };
    copy("[").concat(engineer).concat("] Task #").concat(num_of(task).as_str()).concat(
        tail.as_str(),
    )
}

/// A branch without commits stays with the engineer; any other goes to
/// review, and from there to the merge queue or to the manager.
pub open spec fn review_turn(
    context: CompletionContext,
    desk: Desk<VerificationView>,
    task: u32,
    branch: Seq<char>,
    title: Seq<char>,
    duration_ms: u64,
    route: ReviewRoute<Seq<char>>,
    commits: u32,
) -> TurnView {
    let engineer = context.engineer@;
    let manager = paths::opt_view(context.manager);
    if commits == 0 {
        TurnView {
            desk,
            actions: seq![
                CompletionAction::SendMessage {
                    from: "batty"@,
                    to: engineer,
                    body: review_blocked_text(),
                },
            ],
            state: CompletionState::Done,
        }
    } else {
        let moved = seq![CompletionAction::MoveToReview { manager }];
        match route {
            ReviewRoute::AutoMerge { confidence_bits, files_changed, lines_changed } => TurnView {
                desk,
                actions: moved.push(
                    CompletionAction::EnqueueMerge {
                        branch,
                        duration_ms,
                        verify_after: context.policy.auto_run_tests,
                        confidence_bits,
                        files_changed,
                        lines_changed,
                    },
                ),
                state: CompletionState::Done,
            },
            _ => {
                let told = match manager {
                    Some(m) => moved.push(
                        CompletionAction::SendMessage {
                            from: engineer,
                            to: m,
                            body: review_text(engineer, task, title, route),
                        },
                    ).push(CompletionAction::MarkWorking(m)),
                    None => moved,
                };
                TurnView {
                    desk: cleared(desk),
                    actions: told.push(CompletionAction::RecordCompleted),
                    state: CompletionState::Done,
                }
            },
        }
    }
}

/// Sends a task on to review, unless its branch has no commits.
fn move_task_to_review(
    context: &CompletionContext,
    desk: Desk<VerificationState>,
    task: u32,
    branch: String,
    title: &str,
    duration_ms: u64,
    route: &ReviewRoute<String>,
    commits: u32,
) -> (r: Turn)
    ensures
        r@ == review_turn(
            *context,
            desk.text(),
            task,
            branch@,
            title@,
            duration_ms,
            route.text(),
            commits,
        ),
{
    let mut desk: Desk<VerificationState> = desk;
    let mut actions: Vec<Action> = Vec::new();
    assert(action_views(actions@) == Seq::<ActionView>::empty());
    let engineer: &str = context.engineer.as_str();
    if commits == 0 {
        act(
            &mut actions,
            CompletionAction::SendMessage {
                from: copy("batty"),
                to: copy(engineer),
                body: copy(
                    "Review blocked: your branch has no commits ahead of main, so Batty kept the task in progress instead of moving it to review.\nCommit the work first:\n```\ngit add -A\ngit commit -m \"your task description\"\n```",
                ),
            },
        );
        return Turn { desk, actions, state: CompletionState::Done };
    }
    let manager: Option<String> = match &context.manager {
        Some(m) => Some(m.clone()),
        None => None,
    };
    act(&mut actions, CompletionAction::MoveToReview { manager });
    match route {
        ReviewRoute::AutoMerge { confidence_bits, files_changed, lines_changed } => {
            act(
                &mut actions,
                CompletionAction::EnqueueMerge {
                    branch,
                    duration_ms,
                    verify_after: context.policy.auto_run_tests,
                    confidence_bits: *confidence_bits,
                    files_changed: *files_changed,
                    lines_changed: *lines_changed,
                },
            );
        },
        _ => {
            if let Some(m) = &context.manager {
                act(
                    &mut actions,
                    CompletionAction::SendMessage {
                        from: copy(engineer),
                        to: m.clone(),
                        body: review_text_of(engineer, task, title, route),
                    },
                );
                act(&mut actions, CompletionAction::MarkWorking(m.clone()));
            }
            clear_desk(&mut desk);
            act(&mut actions, CompletionAction::RecordCompleted);
        },
    }
    Turn { desk, actions, state: CompletionState::Done }
}

/// The statuses to try, in order, once the move to review was answered: none
/// where it worked, and otherwise a detour through work in progress.
pub fn review_fallback(moved: bool) -> (r: Vec<String>)
    ensures
        text::views(r@) == (if moved {
            Seq::<Seq<char>>::empty()
        } else {
            seq!["in-progress"@, "review"@]
        }),
{
    if moved {
        let v: Vec<String> = Vec::new();
        assert(text::views(v@) == Seq::<Seq<char>>::empty());
        v
    } else {
        super::git_ops::args2("in-progress", "review")
    }
}

/// Whom the board tool's failure is reported to.
pub open spec fn board_audience(context: CompletionContext) -> Seq<Seq<char>> {
    match context.manager {
        Some(m) => seq![m@, context.engineer@],
        None => seq![context.engineer@],
    }
}

fn board_audience_of(context: &CompletionContext) -> (r: Vec<String>)
    ensures
        text::views(r@) == board_audience(*context),
{
    match &context.manager {
        Some(m) => super::git_ops::args2(m.as_str(), context.engineer.as_str()),
        None => super::git_ops::args1(context.engineer.as_str()),
    }
}

/// A merge that conflicts is tried twice more by the engineer and then
/// escalated.
pub open spec fn conflict_turn(
    context: CompletionContext,
    desk: Desk<VerificationView>,
    task: u32,
    info: Seq<char>,
) -> TurnView {
    let engineer = context.engineer@;
    let attempt = ((match desk.retry_count {
        Some(n) => n as int,
        None => 0,
    }) + 1) as u32;
    if attempt <= 2 {
        TurnView {
            desk: Desk {
                retry_count: Some(attempt),
                member_state: MemberState::Working,
                ..desk
            },
            actions: seq![
                CompletionAction::SendMessage {
                    from: "batty"@,
                    to: engineer,
                    body: "Merge conflict during rebase onto main (attempt "@ + num(attempt)
                        + "/2). Fix the conflicts in your worktree and try again:\n"@ + info,
                },
            ],
            state: CompletionState::Done,
        }
    } else {
        let a0: Seq<ActionView> = match context.manager {
            Some(m) => seq![
                CompletionAction::SendMessage {
                    from: engineer,
                    to: m@,
                    body: "["@ + engineer + "] task #"@ + num(task)
                        + " has unresolvable merge conflicts after 2 retries. Escalating.\n"@
                        + info,
                },
                CompletionAction::MarkWorking(m@),
            ],
            None => Seq::empty(),
        };
        let a1 = a0.push(CompletionAction::RecordEscalated("merge_conflict"@));
        let a2 = match context.manager {
            Some(m) => a1.push(
                CompletionAction::NotifyReportsTo {
                    manager: m@,
                    body: "ESCALATION: Task #"@ + num(task) + " assigned to "@ + engineer
                        + " has unresolvable merge conflicts. Task blocked on board."@,
                },
            ),
            None => a1,
        };
        TurnView {
            desk: cleared(desk),
            actions: a2.push(
                CompletionAction::TryUpdateBoard {
                    args: seq![
                        "edit"@,
                        num(task),
                        "--block"@,
                        "merge conflicts after 2 retries"@,
                        "--dir"@,
                        context.board_dir@,
                    ],
                    note: "block task #"@ + num(task) + " after merge conflict retries"@,
                    notify: board_audience(context),
                },
            ),
            state: CompletionState::Done,
        }
    }
}

fn on_conflict(
    context: &CompletionContext,
    desk: Desk<VerificationState>,
    task: u32,
    info: &str,
) -> (r: Turn)
    requires
        desk.retry_count matches Some(n) ==> n < u32::MAX,
    ensures
        r@ == conflict_turn(*context, desk.text(), task, info@),
{
    let mut desk: Desk<VerificationState> = desk;
    let mut actions: Vec<Action> = Vec::new();
    assert(action_views(actions@) == Seq::<ActionView>::empty());
    let engineer: &str = context.engineer.as_str();
    let before: u32 = match desk.retry_count {
        Some(n) => n,
        None => 0,
    };
    let attempt: u32 = before + 1;
    if attempt <= 2 {
        desk.retry_count = Some(attempt);
        desk.member_state = MemberState::Working;
        act(
            &mut actions,
            CompletionAction::SendMessage {
                from: copy("batty"),
                to: copy(engineer),
                body: copy("Merge conflict during rebase onto main (attempt ").concat(
                    num_of(attempt).as_str(),
                ).concat("/2). Fix the conflicts in your worktree and try again:\n").concat(info),
            },
        );
        return Turn { desk, actions, state: CompletionState::Done };
    }
    if let Some(m) = &context.manager {
        act(
            &mut actions,
            CompletionAction::SendMessage {
                from: copy(engineer),
                to: m.clone(),
                body: copy("[").concat(engineer).concat("] task #").concat(
                    num_of(task).as_str(),
                ).concat(
                    " has unresolvable merge conflicts after 2 retries. Escalating.\n",
                ).concat(info),
            },
        );
        act(&mut actions, CompletionAction::MarkWorking(m.clone()));
    }
    act(&mut actions, CompletionAction::RecordEscalated(copy("merge_conflict")));
    if let Some(m) = &context.manager {
        act(
            &mut actions,
            CompletionAction::NotifyReportsTo {
                manager: m.clone(),
                body: copy("ESCALATION: Task #").concat(num_of(task).as_str()).concat(
                    " assigned to ",
                ).concat(engineer).concat(
                    " has unresolvable merge conflicts. Task blocked on board.",
                ),
            },
        );
    }
    let mut args: Vec<String> = Vec::new();
    args.push(copy("edit"));
    args.push(num_of(task));
    args.push(copy("--block"));
    args.push(copy("merge conflicts after 2 retries"));
    args.push(copy("--dir"));
    args.push(context.board_dir.clone());
    assert(text::views(args@) == seq![
        "edit"@,
        num(task),
        "--block"@,
        "merge conflicts after 2 retries"@,
        "--dir"@,
        context.board_dir@,
    ]);
    act(
        &mut actions,
        CompletionAction::TryUpdateBoard {
            args,
            note: copy("block task #").concat(num_of(task).as_str()).concat(
                " after merge conflict retries",
            ),
            notify: board_audience_of(context),
        },
    );
    clear_desk(&mut desk);
    Turn { desk, actions, state: CompletionState::Done }
}

/// A failed merge is put before the manager, and the engineer waits.
pub open spec fn merge_failure_turn(
    context: CompletionContext,
    desk: Desk<VerificationView>,
    task: u32,
    info: Seq<char>,
) -> TurnView {
    let engineer = context.engineer@;
    let notice = "Task #"@ + num(task) + " from "@ + engineer
        + " passed tests but could not be merged to main.\n"@ + info
        + "\nDecide whether to retry the isolated merge path, inspect the integration-worktree failure, or redirect the engineer."@;
    let a0: Seq<ActionView> = seq![CompletionAction::RecordMergeFailed(info)];
    let a1 = match context.manager {
        Some(m) => a0.push(
            CompletionAction::SendMessage { from: "daemon"@, to: m@, body: notice },
        ).push(CompletionAction::MarkWorking(m@)).push(
            CompletionAction::NotifyReportsTo { manager: m@, body: notice },
        ),
        None => a0,
    };
    TurnView {
        desk: cleared(desk),
        actions: a1.push(
            CompletionAction::SendMessage {
                from: "daemon"@,
                to: engineer,
                body: "Your task passed tests, but Batty could not merge it into main.\n"@ + info
                    + "\nWait for lead direction before making more changes."@,
            },
        ).push(CompletionAction::RecordEscalated("merge_failure"@)),
        state: CompletionState::Done,
    }
}

fn on_merge_failure(
    context: &CompletionContext,
    desk: Desk<VerificationState>,
    task: u32,
    info: &str,
) -> (r: Turn)
    ensures
        r@ == merge_failure_turn(*context, desk.text(), task, info@),
{
    let mut desk: Desk<VerificationState> = desk;
    let mut actions: Vec<Action> = Vec::new();
    assert(action_views(actions@) == Seq::<ActionView>::empty());
    let engineer: &str = context.engineer.as_str();
    act(&mut actions, CompletionAction::RecordMergeFailed(copy(info)));
    if let Some(m) = &context.manager {
        let notice: String = copy("Task #").concat(num_of(task).as_str()).concat(" from ").concat(
            engineer,
        ).concat(" passed tests but could not be merged to main.\n").concat(info).concat(
            "\nDecide whether to retry the isolated merge path, inspect the integration-worktree failure, or redirect the engineer.",
        );
        act(
            &mut actions,
            CompletionAction::SendMessage {
                from: copy("daemon"),
                to: m.clone(),
                body: notice.clone(),
            },
        );
        act(&mut actions, CompletionAction::MarkWorking(m.clone()));
        act(&mut actions, CompletionAction::NotifyReportsTo { manager: m.clone(), body: notice });
    }
    act(
        &mut actions,
        CompletionAction::SendMessage {
            from: copy("daemon"),
            to: copy(engineer),
            body: copy("Your task passed tests, but Batty could not merge it into main.\n").concat(
                info,
            ).concat("\nWait for lead direction before making more changes."),
        },
    );
    act(&mut actions, CompletionAction::RecordEscalated(copy("merge_failure")));
    clear_desk(&mut desk);
    Turn { desk, actions, state: CompletionState::Done }
}

/// A merge that worked is recorded, and the board is updated.
pub open spec fn merged_turn(
    context: CompletionContext,
    desk: Desk<VerificationView>,
    task: u32,
    branch: Seq<char>,
    title: Seq<char>,
    duration_ms: u64,
    mode: MergeMode,
    reason: Option<Seq<char>>,
) -> TurnView {
    let a0: Seq<ActionView> = if mode == MergeMode::IsolatedIntegration {
        seq![
            CompletionAction::RecordOrchestratorNote(
                "completion merge: isolated merge for task #"@ + num(task) + " ("@ + (match reason {
                    Some(r) => r,
                    None => "root checkout required isolation"@,
                }) + ")"@,
            ),
        ]
    } else {
        Seq::empty()
    };
    TurnView {
        desk,
        actions: a0.push(CompletionAction::RecordTiming { branch, duration_ms }).push(
            CompletionAction::RecordManualMerge(mode),
        ).push(
            CompletionAction::UpdateBoard {
                args: seq![
                    "move"@,
                    num(task),
                    "done"@,
                    "--claim"@,
                    context.engineer@,
                    "--dir"@,
                    context.board_dir@,
                ],
                note: "move task #"@ + num(task) + " to done"@,
                notify: board_audience(context),
            },
        ),
        state: CompletionState::AwaitBoard { task, title, mode, reason },
    }
}

fn on_merged(
    context: &CompletionContext,
    desk: Desk<VerificationState>,
    task: u32,
    branch: String,
    title: String,
    duration_ms: u64,
    mode: MergeMode,
    reason: Option<String>,
) -> (r: Turn)
    ensures
        r@ == merged_turn(
            *context,
            desk.text(),
            task,
            branch@,
            title@,
            duration_ms,
            mode,
            paths::opt_view(reason),
        ),
{
    let mut actions: Vec<Action> = Vec::new();
    assert(action_views(actions@) == Seq::<ActionView>::empty());
    if mode == MergeMode::IsolatedIntegration {
        let why: String = match &reason {
            Some(r) => r.clone(),
            None => copy("root checkout required isolation"),
        };
        act(
            &mut actions,
            CompletionAction::RecordOrchestratorNote(
                copy("completion merge: isolated merge for task #").concat(
                    num_of(task).as_str(),
                ).concat(" (").concat(why.as_str()).concat(")"),
            ),
        );
    }
    act(&mut actions, CompletionAction::RecordTiming { branch, duration_ms });
    act(&mut actions, CompletionAction::RecordManualMerge(mode));
    let mut args: Vec<String> = Vec::new();
    args.push(copy("move"));
    args.push(num_of(task));
    args.push(copy("done"));
    args.push(copy("--claim"));
    args.push(context.engineer.clone());
    args.push(copy("--dir"));
    args.push(context.board_dir.clone());
    assert(text::views(args@) == seq![
        "move"@,
        num(task),
        "done"@,
        "--claim"@,
        context.engineer@,
        "--dir"@,
        context.board_dir@,
    ]);
    act(
        &mut actions,
        CompletionAction::UpdateBoard {
            args,
            note: copy("move task #").concat(num_of(task).as_str()).concat(" to done"),
            notify: board_audience_of(context),
        },
    );
    Turn { desk, actions, state: CompletionState::AwaitBoard { task, title, mode, reason } }
}

/// What a manager is told of a merged task.
pub open spec fn completed_text(
    engineer: Seq<char>,
    task: u32,
    title: Seq<char>,
    mode: MergeMode,
    reason: Option<Seq<char>>,
    board_ok: bool,
) -> Seq<char> {
    "["@ + engineer + "] Task #"@ + num(task) + " completed.\nTitle: "@ + title
        + "\nTests: passed\nMerge: success"@ + (if mode == MergeMode::IsolatedIntegration {
        "\nMerge mode: isolated integration checkout"@
    } else {
        ""@
    }) + (match reason {
        Some(r) => "\nMerge reason: "@ + r,
        None => ""@,
    }) + (if board_ok {
        ""@
    } else {
        "\nBoard: update failed; decide next board action manually."@
    })
}

fn completed_text_of(
    engineer: &str,
    task: u32,
    title: &str,
    mode: MergeMode,
    reason: &Option<String>,
    board_ok: bool,
) -> (r: String)
    ensures
        r@ == completed_text(engineer@, task, title@, mode, paths::opt_view(*reason), board_ok),
{
    let mode_text: &str = if mode == MergeMode::IsolatedIntegration {
        "\nMerge mode: isolated integration checkout"
    } else {
        ""
    };
    let reason_text: String = match reason {
        Some(r) => copy("\nMerge reason: ").concat(r.as_str()),
        None => copy(""),
    };
    let board_text: &str = if board_ok {
        ""
    } else {
        "\nBoard: update failed; decide next board action manually."
    };
    copy("[").concat(engineer).concat("] Task #").concat(num_of(task).as_str()).concat(
        " completed.\nTitle: ",
    ).concat(title).concat("\nTests: passed\nMerge: success").concat(mode_text).concat(
        reason_text.as_str(),
    ).concat(board_text)
}

/// With the board updated or not, the manager is told and the desk is free.
pub open spec fn board_turn(
    context: CompletionContext,
    desk: Desk<VerificationView>,
    task: u32,
    title: Seq<char>,
    mode: MergeMode,
    reason: Option<Seq<char>>,
    board_ok: bool,
    board_title: Option<Seq<char>>,
) -> TurnView {
    let engineer = context.engineer@;
    let a0: Seq<ActionView> = match context.manager {
        Some(m) => seq![
            CompletionAction::SendMessage {
                from: engineer,
                to: m@,
                body: completed_text(engineer, task, title, mode, reason, board_ok),
            },
            CompletionAction::MarkWorking(m@),
            CompletionAction::NotifyReportsTo {
                manager: m@,
                body: "Rollup: Task #"@ + num(task) + " completed by "@ + engineer
                    + ". Tests passed, merged to main."@ + (if board_ok {
                    ""@
                } else {
                    " Board automation failed; decide manually."@
                }),
            },
        ],
        None => Seq::empty(),
    };
    let a1 = match board_title {
        Some(t) => a0.push(
            CompletionAction::AppendLearning(
                "Task #"@ + num(task) + " merged cleanly after passing verification. Title: "@ + t,
            ),
        ),
        None => a0,
    };
    TurnView {
        desk: cleared(desk),
        actions: a1.push(CompletionAction::RecordCompleted),
        state: CompletionState::Done,
    }
}

fn on_board(
    context: &CompletionContext,
    desk: Desk<VerificationState>,
    task: u32,
    title: &str,
    mode: MergeMode,
    reason: &Option<String>,
    board_ok: bool,
    board_title: &Option<String>,
) -> (r: Turn)
    ensures
        r@ == board_turn(
            *context,
            desk.text(),
            task,
            title@,
            mode,
            paths::opt_view(*reason),
            board_ok,
            paths::opt_view(*board_title),
        ),
{
    let mut desk: Desk<VerificationState> = desk;
    let mut actions: Vec<Action> = Vec::new();
    assert(action_views(actions@) == Seq::<ActionView>::empty());
    let engineer: &str = context.engineer.as_str();
    if let Some(m) = &context.manager {
        act(
            &mut actions,
            CompletionAction::SendMessage {
                from: copy(engineer),
                to: m.clone(),
                body: completed_text_of(engineer, task, title, mode, reason, board_ok),
            },
        );
        act(&mut actions, CompletionAction::MarkWorking(m.clone()));
        let tail: &str = if board_ok {
            ""
        } else {
            " Board automation failed; decide manually."
        };
        act(
            &mut actions,
            CompletionAction::NotifyReportsTo {
                manager: m.clone(),
                body: copy("Rollup: Task #").concat(num_of(task).as_str()).concat(
                    " completed by ",
                ).concat(engineer).concat(". Tests passed, merged to main.").concat(tail),
            },
        );
    }
    if let Some(t) = board_title {
        act(
            &mut actions,
            CompletionAction::AppendLearning(
                copy("Task #").concat(num_of(task).as_str()).concat(
                    " merged cleanly after passing verification. Title: ",
                ).concat(t.as_str()),
            ),
        );
    }
    act(&mut actions, CompletionAction::RecordCompleted);
    clear_desk(&mut desk);
    Turn { desk, actions, state: CompletionState::Done }
}

/// The turn that an event brings about. An event that the state does not wait
/// for changes nothing.
pub open spec fn completion_turn(
    context: CompletionContext,
    desk: Desk<VerificationView>,
    state: ProgressView,
    event: CompletionEvent,
) -> TurnView {
    match (state, event) {
        (CompletionState::Reported, CompletionEvent::Reported) => start_turn(context, desk),
        (CompletionState::AwaitBranch { task }, CompletionEvent::Branch(facts)) => branch_turn(
            context,
            desk,
            task,
            facts.text(),
        ),
        (
            CompletionState::AwaitScope { task, facts, verification },
            CompletionEvent::Scope(fence),
        ) => scope_turn(context, desk, task, facts, verification, fence),
        (
            CompletionState::AwaitTests { task, facts, verification, fenced },
            CompletionEvent::Tests(run, duration_ms),
        ) => tests_turn(context, desk, task, facts, verification, fenced, run@, duration_ms),
        (
            CompletionState::AwaitMergeFacts { task, results, duration_ms },
            CompletionEvent::MergeFacts(facts),
        ) => merge_facts_turn(context, desk, task, results, duration_ms, facts),
        (
            CompletionState::AwaitDecision { task, branch, title, duration_ms, asked },
            CompletionEvent::Decision(decision),
        ) => decision_turn(desk, task, branch, title, duration_ms, asked, decision),
        (
            CompletionState::AwaitReviewCommits { task, branch, title, duration_ms, route },
            CompletionEvent::ReviewCommits(commits),
        ) => review_turn(context, desk, task, branch, title, duration_ms, route, commits),
        (
            CompletionState::AwaitMerge { task, branch, title, duration_ms },
            CompletionEvent::Merged(outcome),
        ) => match outcome.text() {
            MergeOutcome::Success(s) => merged_turn(
                context,
                desk,
                task,
                branch,
                title,
                duration_ms,
                s.mode,
                s.reason,
            ),
            MergeOutcome::RebaseConflict(info) => conflict_turn(context, desk, task, info),
            MergeOutcome::MergeFailure(info) => merge_failure_turn(context, desk, task, info),
        },
        (
            CompletionState::AwaitBoard { task, title, mode, reason },
            CompletionEvent::Board(ok, board_title),
        ) => board_turn(
            context,
            desk,
            task,
            title,
            mode,
            reason,
            ok,
            paths::opt_view(board_title),
        ),
        _ => TurnView { desk, actions: Seq::empty(), state },
    }
}

/// Takes one turn of a completion.
///
/// A completion is rejected without the required evidence or with failing
/// tests: the engineer is sent back with a message and keeps the task, until
/// the rejection is escalated. A completion that passes is routed to manual
/// review, to the merge queue, or merged at once.
pub fn handle_engineer_completion(
    context: &CompletionContext,
    desk: Desk<VerificationState>,
    state: Progress,
    event: CompletionEvent,
) -> (r: Turn)
    requires
        can_count(desk.text(), state.text()),
    ensures
        r@ == completion_turn(*context, desk.text(), state.text(), event),
{
    match (state, event) {
        (CompletionState::Reported, CompletionEvent::Reported) => start(context, desk),
        (CompletionState::AwaitBranch { task }, CompletionEvent::Branch(facts)) => on_branch(
            context,
            desk,
            task,
            facts,
        ),
        (
            CompletionState::AwaitScope { task, facts, verification },
            CompletionEvent::Scope(fence),
        ) => on_scope(context, desk, task, facts, verification, &fence),
        (
            CompletionState::AwaitTests { task, facts, verification, fenced },
            CompletionEvent::Tests(run, duration_ms),
        ) => on_tests(context, desk, task, &facts, verification, fenced, &run, duration_ms),
        (
            CompletionState::AwaitMergeFacts { task, results, duration_ms },
            CompletionEvent::MergeFacts(facts),
        ) => on_merge_facts(context, desk, task, results, duration_ms, &facts),
        (
            CompletionState::AwaitDecision { task, branch, title, duration_ms, asked },
            CompletionEvent::Decision(decision),
        ) => on_decision(desk, task, branch, title, duration_ms, asked, &decision),
        (
            CompletionState::AwaitReviewCommits { task, branch, title, duration_ms, route },
            CompletionEvent::ReviewCommits(commits),
        ) => move_task_to_review(
            context,
            desk,
            task,
            branch,
            title.as_str(),
            duration_ms,
            &route,
            commits,
        ),
        (
            CompletionState::AwaitMerge { task, branch, title, duration_ms },
            CompletionEvent::Merged(outcome),
        ) => match outcome {
            MergeOutcome::Success(s) => on_merged(
                context,
                desk,
                task,
                branch,
                title,
                duration_ms,
                s.mode,
                s.reason,
            ),
            MergeOutcome::RebaseConflict(info) => on_conflict(context, desk, task, info.as_str()),
            MergeOutcome::MergeFailure(info) => on_merge_failure(
                context,
                desk,
                task,
                info.as_str(),
            ),
        },
        (
            CompletionState::AwaitBoard { task, title, mode, reason },
            CompletionEvent::Board(ok, board_title),
        ) => on_board(
            context,
            desk,
            task,
            title.as_str(),
            mode,
            &reason,
            ok,
            &board_title,
        ),
        (other, _) => {
            let actions: Vec<Action> = Vec::new();
            assert(action_views(actions@) == Seq::<ActionView>::empty());
            Turn { desk, actions, state: other }
        },
    }
}

// ---------------------------------------------------------------------------
// Laws

/// While a completion is not over, the engineer keeps the task and the
/// member state.
pub proof fn law_task_is_kept_until_the_end(
    context: CompletionContext,
    desk: Desk<VerificationView>,
    state: ProgressView,
    event: CompletionEvent,
)
    ensures
        !(completion_turn(context, desk, state, event).state is Done) ==> completion_turn(
            context,
            desk,
            state,
            event,
        ).desk.active_task == desk.active_task && completion_turn(
            context,
            desk,
            state,
            event,
        ).desk.member_state == desk.member_state,
{
}

/// A completion goes on to the merge only with the required evidence and with
/// tests that passed or were skipped by the policy.
pub proof fn law_merge_needs_evidence_and_tests(
    context: CompletionContext,
    desk: Desk<VerificationView>,
    state: ProgressView,
    event: CompletionEvent,
)
    requires
        !(state is AwaitMergeFacts),
        completion_turn(context, desk, state, event).state is AwaitMergeFacts,
    ensures
        state matches CompletionState::AwaitTests { facts, .. } ==> {
            &&& has_required_evidence(context.policy, facts)
            &&& event matches CompletionEvent::Tests(run, _) && run.passed
        },
        state matches CompletionState::AwaitScope { facts, .. } ==> {
            &&& has_required_evidence(context.policy, facts)
            &&& !context.policy.auto_run_tests
        },
        state is AwaitTests || state is AwaitScope,
{
}

/// A rejection that is not escalated leaves the task with the engineer and
/// keeps the verification for the next attempt.
pub proof fn law_rejection_keeps_the_assignment(
    context: CompletionContext,
    desk: Desk<VerificationView>,
    task: u32,
    facts: BranchFacts<Seq<char>>,
    v: VerificationView,
    run: RunView,
    duration_ms: u64,
    actions: Seq<ActionView>,
)
    requires
        !has_required_evidence(context.policy, facts) || !run.passed,
        !escalates(context.policy, facts, desk, v),
    ensures
        ({
            let turn = gate_turn(context, desk, task, facts, v, run, duration_ms, actions);
            &&& turn.state is Done
            &&& turn.desk.active_task == desk.active_task
            &&& turn.desk.retry_count == desk.retry_count
            &&& turn.desk.member_state == desk.member_state
            &&& turn.desk.verification == Some(v.in_phase(VerificationPhase::Fixing))
        }),
{
}

/// An escalated rejection frees the engineer and forgets the verification.
pub proof fn law_escalation_frees_the_engineer(
    context: CompletionContext,
    desk: Desk<VerificationView>,
    task: u32,
    facts: BranchFacts<Seq<char>>,
    v: VerificationView,
    run: RunView,
    duration_ms: u64,
    actions: Seq<ActionView>,
)
    requires
        !has_required_evidence(context.policy, facts) || !run.passed,
        escalates(context.policy, facts, desk, v),
    ensures
        ({
            let turn = gate_turn(context, desk, task, facts, v, run, duration_ms, actions);
            &&& turn.state is Done
            &&& turn.desk.active_task is None
            &&& turn.desk.retry_count is None
            &&& turn.desk.narration_rejections is None
            &&& turn.desk.verification is None
            &&& turn.desk.member_state == MemberState::Idle
            &&& turn.actions.contains(CompletionAction::RecordEscalated("verification_failed"@))
            &&& turn.actions.contains(CompletionAction::MoveTask("blocked"@))
        }),
{
    let turn = gate_turn(context, desk, task, facts, v, run, duration_ms, actions);
    let n = turn.actions.len();
    assert(turn.actions[n - 3] == ActionView::RecordEscalated("verification_failed"@));
    assert(turn.actions[n - 2] == ActionView::MoveTask("blocked"@));
}

/// Every rejected completion is answered with a message to the engineer.
pub proof fn law_rejection_tells_the_engineer(
    context: CompletionContext,
    desk: Desk<VerificationView>,
    task: u32,
    facts: BranchFacts<Seq<char>>,
    v: VerificationView,
    run: RunView,
    duration_ms: u64,
    actions: Seq<ActionView>,
)
    requires
        !has_required_evidence(context.policy, facts) || !run.passed,
    ensures
        ({
            let turn = gate_turn(context, desk, task, facts, v, run, duration_ms, actions);
            exists|i: int|
                0 <= i < turn.actions.len() && (#[trigger] turn.actions[i]
                    matches CompletionAction::SendMessage { from, to, .. } && from == "batty"@ && to
                    == context.engineer@)
        }),
{
    let turn = gate_turn(context, desk, task, facts, v, run, duration_ms, actions);
    let narrated = !has_required_evidence(context.policy, facts) && facts.code_files == 0;
    let at = actions.len() + (if run.passed {
        0int
    } else {
        1
    }) + (if narrated {
        1int
    } else {
        0
    }) + 2;
    assert(turn.actions[at] matches CompletionAction::SendMessage { from, to, .. } && from
        == "batty"@ && to == context.engineer@);
}

/// The first rejection for want of code changes is never escalated, the
/// second always is.
pub proof fn law_narration_is_escalated_at_the_second_rejection(
    policy: CompletionPolicy,
    facts: BranchFacts<Seq<char>>,
    desk: Desk<VerificationView>,
    v: VerificationView,
)
    requires
        policy.require_evidence,
        facts.code_files == 0,
    ensures
        desk.narration_rejections is None ==> !escalates(policy, facts, desk, v),
        (desk.narration_rejections matches Some(n) && n >= 1) ==> escalates(policy, facts, desk, v),
{
}

/// With the evidence in place, failing tests are escalated exactly when the
/// attempts that the policy grants are used up: after one to three of them.
pub proof fn law_failing_tests_are_escalated_at_the_budget(
    policy: CompletionPolicy,
    facts: BranchFacts<Seq<char>>,
    desk: Desk<VerificationView>,
    v: VerificationView,
)
    requires
        has_required_evidence(policy, facts),
        v.max_iterations == super::verification::retry_budget(policy.max_iterations),
    ensures
        escalates(policy, facts, desk, v) <==> v.iteration >= v.max_iterations,
        1 <= v.max_iterations <= 3,
{
}

/// A task whose override forbids auto-merge is neither merged nor queued:
/// it waits for a review.
pub proof fn law_override_prevents_the_merge(
    context: CompletionContext,
    desk: Desk<VerificationView>,
    task: u32,
    results: ResultsView,
    duration_ms: u64,
    facts: MergeFacts,
    decision: AutoMergeDecision,
    commits: u32,
)
    requires
        facts.auto_merge_override == Some(false),
    ensures
        ({
            let asked = merge_facts_turn(context, desk, task, results, duration_ms, facts);
            let decided = decision_turn(
                desk,
                task,
                facts.branch@,
                facts.title@,
                duration_ms,
                DecisionKind::ForcedManual,
                decision,
            );
            let reviewed = review_turn(
                context,
                desk,
                task,
                facts.branch@,
                facts.title@,
                duration_ms,
                ReviewRoute::Override,
                commits,
            );
            &&& asked.state == (ProgressView::AwaitDecision {
                task,
                branch: facts.branch@,
                title: facts.title@,
                duration_ms,
                asked: DecisionKind::ForcedManual,
            })
            &&& decided.state matches CompletionState::AwaitReviewCommits { route, .. } && route
                is Override
            &&& reviewed.state is Done
            &&& forall|i: int|
                0 <= i < asked.actions.len() ==> !(#[trigger] asked.actions[i] is Merge) && !(
                asked.actions[i] is EnqueueMerge)
            &&& forall|i: int|
                0 <= i < decided.actions.len() ==> !(#[trigger] decided.actions[i] is Merge) && !(
                decided.actions[i] is EnqueueMerge)
            &&& forall|i: int|
                0 <= i < reviewed.actions.len() ==> !(#[trigger] reviewed.actions[i] is Merge) && !(
                reviewed.actions[i] is EnqueueMerge)
        }),
{
}

/// A task that the decision accepts is queued with the confidence of the
/// decision and the size of the diff that was judged, once its branch has
/// commits, and the engineer keeps it until it is merged.
pub proof fn law_queued_merge_carries_the_decision(
    context: CompletionContext,
    desk: Desk<VerificationView>,
    task: u32,
    branch: Seq<char>,
    title: Seq<char>,
    duration_ms: u64,
    diff: DiffSummary,
    asked: DecisionKind,
    decision: AutoMergeDecision,
    commits: u32,
)
    requires
        asked == DecisionKind::ForcedAuto(diff) || asked == DecisionKind::Evaluate(diff),
        decision.accepted,
        commits > 0,
    ensures
        ({
            let route = decided_route(asked, decision);
            let turn = review_turn(
                context,
                desk,
                task,
                branch,
                title,
                duration_ms,
                route,
                commits,
            );
            &&& decision_turn(desk, task, branch, title, duration_ms, asked, decision).state == (
            ProgressView::AwaitReviewCommits { task, branch, title, duration_ms, route })
            &&& turn.desk == desk
            &&& turn.actions.last() == (ActionView::EnqueueMerge {
                branch,
                duration_ms,
                verify_after: context.policy.auto_run_tests,
                confidence_bits: decision.confidence_bits,
                files_changed: diff.files_changed,
                lines_changed: diff.lines_changed,
            })
        }),
{
}

/// A branch without commits is never moved to review: the desk stays as it
/// is, and the only thing that happens is a message to the engineer.
pub proof fn law_review_needs_commits(
    context: CompletionContext,
    desk: Desk<VerificationView>,
    task: u32,
    branch: Seq<char>,
    title: Seq<char>,
    duration_ms: u64,
    route: ReviewRoute<Seq<char>>,
)
    ensures
        ({
            let turn = review_turn(context, desk, task, branch, title, duration_ms, route, 0);
            &&& turn.desk == desk
            &&& turn.actions.len() == 1
            &&& turn.actions[0] matches CompletionAction::SendMessage { to, .. } && to
                == context.engineer@
        }),
{
}

/// Two conflicting merges send the engineer back with the task; the third
/// takes the task away.
pub proof fn law_third_conflict_escalates(
    context: CompletionContext,
    desk: Desk<VerificationView>,
    task: u32,
    info: Seq<char>,
)
    requires
        desk.retry_count matches Some(n) ==> n < u32::MAX,
    ensures
        ({
            let turn = conflict_turn(context, desk, task, info);
            let before = match desk.retry_count {
                Some(n) => n,
                None => 0u32,
            };
            &&& before < 2 ==> turn.desk.active_task == desk.active_task && turn.desk.retry_count
                == Some((before + 1) as u32) && turn.desk.member_state == MemberState::Working
            &&& before >= 2 ==> turn.desk.active_task is None && turn.desk.retry_count is None
                && turn.desk.member_state == MemberState::Idle
        }),
{
}

} // verus!
