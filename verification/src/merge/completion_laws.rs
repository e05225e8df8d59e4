//! What a completion does to the board, the engineer and the manager.
//!
//! The laws speak of whole turns, for whatever is reported, and of what they
//! leave behind: the status of the task on the board, who is told what, and
//! whether the engineer keeps the task.

use vstd::prelude::*;

use super::completion;
use super::completion::{
    ActionView, AutoMergeDecision, BranchFacts, CompletionAction, CompletionContext,
    CompletionEvent, CompletionState, DecisionKind, Desk, MemberState, MergeFacts, ProgressView,
    ReviewRoute, ScopeFence, TurnView, VerificationRun,
};
use super::lock::{MergeMode, MergeOutcome};
use super::verification::{EvidenceKind, ResultsView, VerificationPhase, VerificationView};
use crate::paths;
use crate::text;

verus! {

// ---------------------------------------------------------------------------
// The board

/// The status that a run of the board tool gives the task, where it was
/// `status` before: `move <task> <status> ..` moves it, and
/// `edit <task> --block ..` blocks it.
pub open spec fn status_by_tool(task: u32, status: Seq<char>, args: Seq<Seq<char>>) -> Seq<char> {
    if args.len() < 3 || args[1] != text::decimal(task as nat) {
        status
    } else if args[0] == "move"@ {
        args[2]
    } else if args[0] == "edit"@ && args[2] == "--block"@ {
        "blocked"@
    } else {
        status
    }
}

/// The status of the task after an action, where it was `status` before.
pub open spec fn status_after(task: u32, status: Seq<char>, action: ActionView) -> Seq<char> {
    match action {
        CompletionAction::UpdateBoard { args, .. } => status_by_tool(task, status, args),
        CompletionAction::TryUpdateBoard { args, .. } => status_by_tool(task, status, args),
        CompletionAction::MoveTask(to) => to,
        CompletionAction::BlockTask(_) => "blocked"@,
        CompletionAction::MoveToReview { .. } => "review"@,
        _ => status,
    }
}

/// The status of the task after all actions, in order.
pub open spec fn status_of(task: u32, status: Seq<char>, actions: Seq<ActionView>) -> Seq<char>
    decreases actions.len(),
{
    if actions.len() == 0 {
        status
    } else {
        status_after(task, status_of(task, status, actions.drop_last()), actions.last())
    }
}

/// The action changes the board.
pub open spec fn is_board_action(action: ActionView) -> bool {
    action is UpdateBoard || action is TryUpdateBoard || action is MoveTask || action is BlockTask
        || action is MoveToReview
}

/// The number of actions that change the board.
pub open spec fn board_actions(actions: Seq<ActionView>) -> nat
    decreases actions.len(),
{
    if actions.len() == 0 {
        0
    } else {
        board_actions(actions.drop_last()) + (if is_board_action(actions.last()) {
            1nat
        } else {
            0
        })
    }
}

proof fn lemma_push(task: u32, status: Seq<char>, actions: Seq<ActionView>, action: ActionView)
    ensures
        status_of(task, status, actions.push(action)) == status_after(
            task,
            status_of(task, status, actions),
            action,
        ),
        board_actions(actions.push(action)) == board_actions(actions) + (if is_board_action(action) {
            1nat
        } else {
            0
        }),
{
    assert(actions.push(action).drop_last() =~= actions);
}

proof fn lemma_quiet(task: u32, status: Seq<char>, actions: Seq<ActionView>)
    requires
        forall|i: int| 0 <= i < actions.len() ==> !is_board_action(#[trigger] actions[i]),
    ensures
        status_of(task, status, actions) == status,
        board_actions(actions) == 0,
    decreases actions.len(),
{
    if actions.len() > 0 {
        let front = actions.drop_last();
        assert forall|i: int| 0 <= i < front.len() implies !is_board_action(#[trigger] front[i]) by {
            assert(front[i] == actions[i]);
        }
        lemma_quiet(task, status, front);
        assert(!is_board_action(actions[actions.len() - 1]));
    }
}

/// A successful merge moves exactly that task to done, once, in the name of
/// the engineer and on the team's board, and changes nothing else on it. The
/// engineer keeps the task until the board has answered.
pub proof fn law_merged_task_is_moved_to_done(
    context: CompletionContext,
    desk: Desk<VerificationView>,
    task: u32,
    branch: Seq<char>,
    title: Seq<char>,
    duration_ms: u64,
    outcome: MergeOutcome<String>,
    status: Seq<char>,
)
    requires
        outcome is Success,
    ensures
        ({
            let turn = completion::completion_turn(
                context,
                desk,
                CompletionState::AwaitMerge { task, branch, title, duration_ms },
                CompletionEvent::Merged(outcome),
            );
            &&& status_of(task, status, turn.actions) == "done"@
            &&& board_actions(turn.actions) == 1
            &&& turn.actions.last() matches CompletionAction::UpdateBoard { args, .. } && args
                == seq![
                "move"@,
                text::decimal(task as nat),
                "done"@,
                "--claim"@,
                context.engineer@,
                "--dir"@,
                context.board_dir@,
            ]
            &&& turn.actions.contains(CompletionAction::RecordTiming { branch, duration_ms })
            &&& turn.desk == desk
            &&& turn.state matches CompletionState::AwaitBoard { task: t, title: n, .. } && t == task
                && n == title
        }),
{
    let turn = completion::completion_turn(
        context,
        desk,
        CompletionState::AwaitMerge { task, branch, title, duration_ms },
        CompletionEvent::Merged(outcome),
    );
    let n = turn.actions.len() as int;
    let front = turn.actions.drop_last();
    assert forall|i: int| 0 <= i < front.len() implies !is_board_action(#[trigger] front[i]) by {
        assert(front[i] == turn.actions[i]);
    }
    lemma_quiet(task, status, front);
    assert(turn.actions[n - 3] == (ActionView::RecordTiming { branch, duration_ms }));
}

/// What may change the board, in any turn: only a successful merge runs a
/// board update that has to work, only the third conflict in a row blocks the
/// task through the tool, only an escalated rejection moves it, and then to
/// blocked, and only a branch with commits goes to review.
pub open spec fn is_allowed(
    context: CompletionContext,
    state: ProgressView,
    event: CompletionEvent,
    turn: TurnView,
    action: ActionView,
) -> bool {
    match action {
        CompletionAction::UpdateBoard { .. } => {
            &&& state is AwaitMerge
            &&& event matches CompletionEvent::Merged(outcome) && outcome is Success
        },
        CompletionAction::TryUpdateBoard { args, .. } => {
            &&& event matches CompletionEvent::Merged(outcome) && outcome is RebaseConflict
            &&& turn.desk.active_task is None
            &&& state matches CompletionState::AwaitMerge { task, .. } && args == seq![
                "edit"@,
                text::decimal(task as nat),
                "--block"@,
                "merge conflicts after 2 retries"@,
                "--dir"@,
                context.board_dir@,
            ]
        },
        CompletionAction::MoveTask(to) => {
            &&& to == "blocked"@
            &&& turn.desk.active_task is None
            &&& turn.state is Done
            &&& state is AwaitTests || state is AwaitScope
        },
        CompletionAction::BlockTask(_) => {
            &&& turn.desk.active_task is None
            &&& turn.state is Done
            &&& state is AwaitTests || state is AwaitScope
        },
        CompletionAction::MoveToReview { manager } => {
            &&& state is AwaitReviewCommits
            &&& event matches CompletionEvent::ReviewCommits(commits) && commits > 0
            &&& manager == paths::opt_view(context.manager)
        },
        CompletionAction::Merge => turn.state is AwaitMerge,
        CompletionAction::EnqueueMerge { .. } => state matches CompletionState::AwaitReviewCommits {
            route,
            ..
        } && route is AutoMerge,
        CompletionAction::SendMessage { to, .. } => to == context.engineer@ || Some(to)
            == paths::opt_view(context.manager),
        CompletionAction::MarkWorking(to) => Some(to) == paths::opt_view(context.manager),
        CompletionAction::NotifyReportsTo { manager, .. } => Some(manager) == paths::opt_view(
            context.manager,
        ),
        _ => true,
    }
}

/// Everything that a turn does is allowed there.
pub open spec fn does_only_allowed(
    context: CompletionContext,
    desk: Desk<VerificationView>,
    state: ProgressView,
    event: CompletionEvent,
) -> bool {
    let turn = completion::completion_turn(context, desk, state, event);
    forall|i: int|
        0 <= i < turn.actions.len() ==> is_allowed(
            context,
            state,
            event,
            turn,
            #[trigger] turn.actions[i],
        )
}

proof fn lemma_allowed_early(
    context: CompletionContext,
    desk: Desk<VerificationView>,
    state: ProgressView,
    event: CompletionEvent,
)
    requires
        state is Reported || state is AwaitBranch || state is Done || state is AwaitMergeFacts || state
            is AwaitDecision,
    ensures
        does_only_allowed(context, desk, state, event),
{
}

proof fn lemma_allowed_in_scope(
    context: CompletionContext,
    desk: Desk<VerificationView>,
    state: ProgressView,
    event: CompletionEvent,
)
    requires
        state is AwaitScope,
    ensures
        does_only_allowed(context, desk, state, event),
{
}

proof fn lemma_allowed_in_tests(
    context: CompletionContext,
    desk: Desk<VerificationView>,
    state: ProgressView,
    event: CompletionEvent,
)
    requires
        state is AwaitTests,
    ensures
        does_only_allowed(context, desk, state, event),
{
}

proof fn lemma_allowed_in_review(
    context: CompletionContext,
    desk: Desk<VerificationView>,
    state: ProgressView,
    event: CompletionEvent,
)
    requires
        state is AwaitReviewCommits,
    ensures
        does_only_allowed(context, desk, state, event),
{
}

proof fn lemma_allowed_in_merge(
    context: CompletionContext,
    desk: Desk<VerificationView>,
    state: ProgressView,
    event: CompletionEvent,
)
    requires
        state is AwaitMerge,
    ensures
        does_only_allowed(context, desk, state, event),
{
}

proof fn lemma_allowed_at_the_board(
    context: CompletionContext,
    desk: Desk<VerificationView>,
    state: ProgressView,
    event: CompletionEvent,
)
    requires
        state is AwaitBoard,
    ensures
        does_only_allowed(context, desk, state, event),
{
}

/// Whatever is reported in whatever state, nothing happens to the board and
/// nobody is told anything but what is allowed there.
pub proof fn law_every_turn_does_only_what_is_allowed(
    context: CompletionContext,
    desk: Desk<VerificationView>,
    state: ProgressView,
    event: CompletionEvent,
)
    ensures
        does_only_allowed(context, desk, state, event),
{
    match state {
        CompletionState::AwaitScope { .. } => lemma_allowed_in_scope(context, desk, state, event),
        CompletionState::AwaitTests { .. } => lemma_allowed_in_tests(context, desk, state, event),
        CompletionState::AwaitReviewCommits { .. } => lemma_allowed_in_review(
            context,
            desk,
            state,
            event,
        ),
        CompletionState::AwaitMerge { .. } => lemma_allowed_in_merge(context, desk, state, event),
        CompletionState::AwaitBoard { .. } => lemma_allowed_at_the_board(
            context,
            desk,
            state,
            event,
        ),
        _ => lemma_allowed_early(context, desk, state, event),
    }
}

/// No turn but the one after a successful merge makes a task done.
pub proof fn law_only_a_merged_task_is_done(
    context: CompletionContext,
    desk: Desk<VerificationView>,
    state: ProgressView,
    event: CompletionEvent,
    task: u32,
    status: Seq<char>,
)
    requires
        status != "done"@,
        !(state is AwaitMerge && (event matches CompletionEvent::Merged(outcome) && outcome
            is Success)),
    ensures
        status_of(
            task,
            status,
            completion::completion_turn(context, desk, state, event).actions,
        ) != "done"@,
{
    let turn = completion::completion_turn(context, desk, state, event);
    law_every_turn_does_only_what_is_allowed(context, desk, state, event);
    lemma_not_done(context, state, event, turn, task, status, turn.actions.len() as int);
    assert(turn.actions.take(turn.actions.len() as int) =~= turn.actions);
}

proof fn lemma_not_done(
    context: CompletionContext,
    state: ProgressView,
    event: CompletionEvent,
    turn: TurnView,
    task: u32,
    status: Seq<char>,
    k: int,
)
    requires
        status != "done"@,
        !(state is AwaitMerge && (event matches CompletionEvent::Merged(outcome) && outcome
            is Success)),
        forall|i: int|
            0 <= i < turn.actions.len() ==> is_allowed(
                context,
                state,
                event,
                turn,
                #[trigger] turn.actions[i],
            ),
        0 <= k <= turn.actions.len(),
    ensures
        status_of(task, status, turn.actions.take(k)) != "done"@,
    decreases k,
{
    reveal_strlit("done");
    reveal_strlit("blocked");
    reveal_strlit("review");
    reveal_strlit("edit");
    reveal_strlit("move");
    if k > 0 {
        lemma_not_done(context, state, event, turn, task, status, k - 1);
        assert(turn.actions.take(k).drop_last() =~= turn.actions.take(k - 1));
        assert(is_allowed(context, state, event, turn, turn.actions[k - 1]));
        assert("done"@.len() == 4 && "blocked"@.len() == 7 && "review"@.len() == 6);
        assert("edit"@[0] == 'e' && "move"@[0] == 'm');
    }
}

// ---------------------------------------------------------------------------
// Accepting and rejecting

/// The completion shows what the policy asks for.
pub open spec fn is_shown(context: CompletionContext, commits: u32, code_files: u32) -> bool {
    context.policy.require_evidence ==> commits > 0 && code_files > 0
}

/// A tested completion is accepted exactly where its tests passed and, if the
/// policy asks for evidence, the branch has commits and code changes. What is
/// accepted carries its test results on; what is not ends here.
pub proof fn law_accepted_means_tested_and_shown(
    context: CompletionContext,
    desk: Desk<VerificationView>,
    task: u32,
    facts: BranchFacts<Seq<char>>,
    verification: VerificationView,
    fenced: bool,
    run: VerificationRun,
    duration_ms: u64,
)
    ensures
        ({
            let turn = completion::completion_turn(
                context,
                desk,
                CompletionState::AwaitTests { task, facts, verification, fenced },
                CompletionEvent::Tests(run, duration_ms),
            );
            let accepted = run.passed && is_shown(context, facts.commits, facts.code_files);
            &&& accepted ==> {
                &&& turn.state == (ProgressView::AwaitMergeFacts {
                    task,
                    results: run.results@,
                    duration_ms: if fenced {
                        0
                    } else {
                        duration_ms
                    },
                })
                &&& turn.actions.last() is AskMergeFacts
                &&& turn.desk == (Desk { narration_rejections: None, verification: None, ..desk })
            }
            &&& !accepted ==> turn.state is Done && !turn.actions.contains(
                ActionView::AskMergeFacts,
            )
        }),
{
    let state = ProgressView::AwaitTests { task, facts, verification, fenced };
    let event = CompletionEvent::Tests(run, duration_ms);
    let turn = completion::completion_turn(context, desk, state, event);
    if !(run.passed && is_shown(context, facts.commits, facts.code_files)) {
        assert forall|i: int| 0 <= i < turn.actions.len() implies !(
        #[trigger] turn.actions[i] is AskMergeFacts) by {}
    }
}

/// The verification after the answer about the scope is that of the branch
/// with one attempt more, unless the fence was touched or never acknowledged:
/// then the tests are run outside the count. Without tests the completion is
/// judged by its evidence alone, and never escalated for failing ones.
pub proof fn law_attempts_are_counted(
    context: CompletionContext,
    desk: Desk<VerificationView>,
    task: u32,
    facts: BranchFacts<Seq<char>>,
    verification: VerificationView,
    fence: Option<ScopeFence>,
)
    requires
        verification.iteration < u32::MAX,
    ensures
        ({
            let turn = completion::completion_turn(
                context,
                desk,
                CompletionState::AwaitScope { task, facts, verification },
                CompletionEvent::Scope(fence),
            );
            let outside = fence matches Some(f) && (!f.ack_present || f.out_of_scope_files@.len()
                > 0);
            &&& outside ==> (turn.state matches CompletionState::AwaitTests {
                task: t,
                facts: b,
                verification: v,
                fenced,
            } && t == task && b == facts && fenced && v.iteration == verification.iteration)
            &&& !outside && context.policy.auto_run_tests ==> (turn.state
                matches CompletionState::AwaitTests { task: t, facts: b, verification: v, fenced }
                && t == task && b == facts && !fenced && v.iteration == verification.iteration + 1)
            &&& outside || context.policy.auto_run_tests ==> turn.actions.last() is RunTests
                && turn.desk == desk
            &&& !outside && !context.policy.auto_run_tests ==> (turn.state is AwaitMergeFacts
                <==> is_shown(context, facts.commits, facts.code_files))
        }),
{
}

/// Files outside the declared scope are reverted, all of them and no others,
/// before anything is tested.
pub proof fn law_files_out_of_scope_are_reverted(
    context: CompletionContext,
    desk: Desk<VerificationView>,
    task: u32,
    facts: BranchFacts<Seq<char>>,
    verification: VerificationView,
    fence: ScopeFence,
)
    ensures
        ({
            let turn = completion::completion_turn(
                context,
                desk,
                CompletionState::AwaitScope { task, facts, verification },
                CompletionEvent::Scope(Some(fence)),
            );
            &&& fence.out_of_scope_files@.len() > 0 ==> turn.actions.contains(
                CompletionAction::RevertFiles(text::views(fence.out_of_scope_files@)),
            )
            &&& forall|i: int|
                0 <= i < turn.actions.len() && (#[trigger] turn.actions[i] is RevertFiles)
                    ==> fence.out_of_scope_files@.len() > 0 && turn.actions[i]
                    == ActionView::RevertFiles(text::views(fence.out_of_scope_files@))
        }),
{
    let turn = completion::completion_turn(
        context,
        desk,
        CompletionState::AwaitScope { task, facts, verification },
        CompletionEvent::Scope(Some(fence)),
    );
    if fence.out_of_scope_files@.len() > 0 {
        assert(turn.actions[1] == ActionView::RevertFiles(text::views(fence.out_of_scope_files@)));
    }
}

/// A completion begins with as many attempts as the policy grants, but at
/// least one and at most three, and goes on counting where the attempt before
/// it stopped.
pub proof fn law_verification_goes_on_counting(
    context: CompletionContext,
    desk: Desk<VerificationView>,
    task: u32,
    facts: BranchFacts<String>,
)
    ensures
        ({
            let turn = completion::completion_turn(
                context,
                desk,
                CompletionState::AwaitBranch { task },
                CompletionEvent::Branch(facts),
            );
            let granted = context.policy.max_iterations;
            &&& turn.state matches CompletionState::AwaitScope { task: t, facts: b, verification: v }
                && t == task && b == facts.text() && v.phase == VerificationPhase::Verifying
                && v.evidence.len() == 0 && v.iteration == (match desk.verification {
                Some(kept) => kept.iteration,
                None => 0,
            }) && 1 <= v.max_iterations <= 3 && (1 <= granted <= 3 ==> v.max_iterations == granted)
                && (granted < 1 ==> v.max_iterations == 1) && (granted > 3 ==> v.max_iterations
                == 3)
            &&& turn.desk.active_task == desk.active_task
        }),
{
}

/// A rejection is escalated exactly where the branch has no code although
/// evidence is asked for and it was rejected for that before, or else where it
/// has commits or shows enough and the attempts are used up. Escalated, the
/// engineer is freed; otherwise the task stays with the engineer, the attempt
/// is remembered, and so is one more rejection for want of code.
pub proof fn law_rejection_is_escalated_in_time(
    context: CompletionContext,
    desk: Desk<VerificationView>,
    task: u32,
    facts: BranchFacts<Seq<char>>,
    verification: VerificationView,
    fenced: bool,
    run: VerificationRun,
    duration_ms: u64,
)
    requires
        !(run.passed && is_shown(context, facts.commits, facts.code_files)),
        desk.narration_rejections matches Some(n) ==> n < u32::MAX,
    ensures
        ({
            let turn = completion::completion_turn(
                context,
                desk,
                CompletionState::AwaitTests { task, facts, verification, fenced },
                CompletionEvent::Tests(run, duration_ms),
            );
            let shown = is_shown(context, facts.commits, facts.code_files);
            let earlier = match desk.narration_rejections {
                Some(n) => n as int,
                None => 0,
            };
            let narrated = !shown && facts.code_files == 0;
            let escalated = if narrated {
                earlier >= 1
            } else {
                (shown || facts.commits > 0) && verification.iteration
                    >= verification.max_iterations
            };
            &&& escalated ==> turn.desk == (Desk::<VerificationView> {
                active_task: None,
                member_state: MemberState::Idle,
                retry_count: None,
                narration_rejections: None,
                verification: None,
            })
            &&& !escalated ==> {
                &&& turn.desk.active_task == desk.active_task
                &&& turn.desk.member_state == desk.member_state
                &&& turn.desk.retry_count == desk.retry_count
                &&& turn.desk.narration_rejections == (if narrated {
                    Some((earlier + 1) as u32)
                } else {
                    desk.narration_rejections
                })
                &&& turn.desk.verification matches Some(v) && v.phase == VerificationPhase::Fixing
                    && v.iteration == verification.iteration && v.max_iterations
                    == verification.max_iterations
            }
        }),
{
}

/// What was found is filed once, whatever is decided: under the engineer and
/// the task, with the results, the failures and the output of the run, and
/// with an outcome that says whether the work passed, is to be fixed or was
/// escalated.
pub proof fn law_verification_is_filed(
    context: CompletionContext,
    desk: Desk<VerificationView>,
    task: u32,
    facts: BranchFacts<Seq<char>>,
    verification: VerificationView,
    fenced: bool,
    run: VerificationRun,
    duration_ms: u64,
)
    ensures
        ({
            let turn = completion::completion_turn(
                context,
                desk,
                CompletionState::AwaitTests { task, facts, verification, fenced },
                CompletionEvent::Tests(run, duration_ms),
            );
            &&& exists|i: int|
                0 <= i < turn.actions.len() && #[trigger] turn.actions[i] is PersistSnapshot
            &&& forall|i: int|
                0 <= i < turn.actions.len() ==> (#[trigger] turn.actions[i]
                    matches CompletionAction::PersistSnapshot(s) ==> {
                    &&& s.task == task
                    &&& s.engineer == context.engineer@
                    &&& s.passed == run.passed
                    &&& s.results == run.results@
                    &&& s.failures == text::views(run.failures@)
                    &&& s.file_paths == text::views(run.file_paths@)
                    &&& s.output == run.output@
                    &&& s.max_attempts == verification.max_iterations
                    &&& verification.iteration > 0 ==> s.attempt == verification.iteration
                    &&& verification.iteration == 0 ==> s.attempt == 1
                    &&& turn.state is AwaitMergeFacts ==> s.phase == "complete"@ && s.outcome
                        == "verification_passed"@
                    &&& turn.state is Done && turn.desk.verification is None ==> s.phase
                        == "failed"@ && s.outcome == "verification_escalated"@
                    &&& turn.state is Done && turn.desk.verification is Some ==> s.phase
                        == "fixing"@ && s.outcome == "verification_retry_required"@
                })
        }),
{
    let turn = completion::completion_turn(
        context,
        desk,
        CompletionState::AwaitTests { task, facts, verification, fenced },
        CompletionEvent::Tests(run, duration_ms),
    );
    let shown = is_shown(context, facts.commits, facts.code_files);
    let noted = if fenced {
        0int
    } else {
        1
    };
    let at = if shown && run.passed {
        noted + 1
    } else {
        noted + (if run.passed {
            0int
        } else {
            1
        }) + (if !shown && facts.code_files == 0 {
            1int
        } else {
            0
        }) + 1
    };
    assert(turn.actions[at] is PersistSnapshot);
}

// ---------------------------------------------------------------------------
// Who is told

/// Somebody is sent a message that holds `what`.
pub open spec fn is_told(actions: Seq<ActionView>, to: Seq<char>, what: Seq<char>) -> bool {
    exists|i: int|
        0 <= i < actions.len() && (#[trigger] actions[i] matches CompletionAction::SendMessage {
            to: t,
            body,
            ..
        } && t == to && text::contains(body, what))
}

proof fn lemma_holds(before: Seq<char>, what: Seq<char>, after: Seq<char>)
    ensures
        text::contains(before + what + after, what),
{
    let s = before + what + after;
    assert(s.subrange(before.len() as int, (before.len() + what.len()) as int) =~= what);
    assert(text::matches_at(s, what, before.len() as int));
}

/// A conflict goes back to the engineer with what git said, twice; the third
/// time the manager is told, the task is blocked on the board and the engineer
/// is freed.
pub proof fn law_conflicts_are_told(
    context: CompletionContext,
    desk: Desk<VerificationView>,
    task: u32,
    branch: Seq<char>,
    title: Seq<char>,
    duration_ms: u64,
    info: String,
    status: Seq<char>,
)
    requires
        desk.retry_count matches Some(n) ==> n < u32::MAX,
    ensures
        ({
            let turn = completion::completion_turn(
                context,
                desk,
                CompletionState::AwaitMerge { task, branch, title, duration_ms },
                CompletionEvent::Merged(MergeOutcome::RebaseConflict(info)),
            );
            let earlier = match desk.retry_count {
                Some(n) => n as int,
                None => 0,
            };
            &&& turn.state is Done
            &&& earlier < 2 ==> {
                &&& is_told(turn.actions, context.engineer@, info@)
                &&& turn.desk == (Desk {
                    retry_count: Some((earlier + 1) as u32),
                    member_state: MemberState::Working,
                    ..desk
                })
                &&& status_of(task, status, turn.actions) == status
            }
            &&& earlier >= 2 ==> {
                &&& context.manager matches Some(m) ==> is_told(turn.actions, m@, info@)
                &&& status_of(task, status, turn.actions) == "blocked"@
                &&& turn.desk.active_task is None
                &&& turn.desk.member_state == MemberState::Idle
                &&& turn.desk.retry_count is None
                &&& turn.actions.contains(CompletionAction::RecordEscalated("merge_conflict"@))
            }
        }),
{
    let turn = completion::completion_turn(
        context,
        desk,
        CompletionState::AwaitMerge { task, branch, title, duration_ms },
        CompletionEvent::Merged(MergeOutcome::RebaseConflict(info)),
    );
    let earlier = match desk.retry_count {
        Some(n) => n as int,
        None => 0,
    };
    reveal_strlit("edit");
    reveal_strlit("move");
    assert("edit"@[0] == 'e' && "move"@[0] == 'm');
    if earlier < 2 {
        let body = turn.actions[0]->SendMessage_body;
        let head = body.subrange(0, body.len() - info@.len());
        assert(body =~= head + info@ + Seq::<char>::empty());
        lemma_holds(head, info@, Seq::empty());
        lemma_quiet(task, status, turn.actions);
    } else {
        let n = turn.actions.len() as int;
        let front = turn.actions.drop_last();
        assert forall|i: int| 0 <= i < front.len() implies !is_board_action(#[trigger] front[i]) by {
            assert(front[i] == turn.actions[i]);
        }
        lemma_quiet(task, status, front);
        if context.manager is Some {
            let body = turn.actions[0]->SendMessage_body;
            let head = body.subrange(0, body.len() - info@.len());
            assert(body =~= head + info@ + Seq::<char>::empty());
            lemma_holds(head, info@, Seq::empty());
            assert(turn.actions[2] == ActionView::RecordEscalated("merge_conflict"@));
        } else {
            assert(turn.actions[0] == ActionView::RecordEscalated("merge_conflict"@));
        }
    }
}

/// A merge that failed is told to the engineer and to the manager, with what
/// went wrong; the engineer is freed and the board stays as it is.
pub proof fn law_merge_failures_are_told(
    context: CompletionContext,
    desk: Desk<VerificationView>,
    task: u32,
    branch: Seq<char>,
    title: Seq<char>,
    duration_ms: u64,
    info: String,
    status: Seq<char>,
)
    ensures
        ({
            let turn = completion::completion_turn(
                context,
                desk,
                CompletionState::AwaitMerge { task, branch, title, duration_ms },
                CompletionEvent::Merged(MergeOutcome::MergeFailure(info)),
            );
            &&& turn.state is Done
            &&& is_told(turn.actions, context.engineer@, info@)
            &&& context.manager matches Some(m) ==> is_told(turn.actions, m@, info@)
            &&& turn.actions.contains(CompletionAction::RecordMergeFailed(info@))
            &&& turn.actions.contains(CompletionAction::RecordEscalated("merge_failure"@))
            &&& status_of(task, status, turn.actions) == status
            &&& turn.desk.active_task is None
            &&& turn.desk.member_state == MemberState::Idle
            &&& turn.desk.retry_count is None
        }),
{
    let turn = completion::completion_turn(
        context,
        desk,
        CompletionState::AwaitMerge { task, branch, title, duration_ms },
        CompletionEvent::Merged(MergeOutcome::MergeFailure(info)),
    );
    lemma_quiet(task, status, turn.actions);
    let n = turn.actions.len() as int;
    assert(turn.actions[0] == ActionView::RecordMergeFailed(info@));
    assert(turn.actions[n - 1] == ActionView::RecordEscalated("merge_failure"@));
    let own = turn.actions[n - 2]->SendMessage_body;
    lemma_holds(
        "Your task passed tests, but Batty could not merge it into main.\n"@,
        info@,
        "\nWait for lead direction before making more changes."@,
    );
    assert(turn.actions[n - 2] is SendMessage);
    if context.manager is Some {
        lemma_holds(
            "Task #"@ + text::decimal(task as nat) + " from "@ + context.engineer@
                + " passed tests but could not be merged to main.\n"@,
            info@,
            "\nDecide whether to retry the isolated merge path, inspect the integration-worktree failure, or redirect the engineer."@,
        );
        assert(turn.actions[1] is SendMessage);
    }
}

/// Once the board has answered, the task is completed whatever it answered:
/// the manager is told the task and its title, the completion is recorded and
/// the engineer is freed, and nothing more is done to the board.
pub proof fn law_completed_task_leaves_the_desk(
    context: CompletionContext,
    desk: Desk<VerificationView>,
    task: u32,
    title: Seq<char>,
    mode: MergeMode,
    reason: Option<Seq<char>>,
    board_ok: bool,
    board_title: Option<String>,
    status: Seq<char>,
)
    ensures
        ({
            let turn = completion::completion_turn(
                context,
                desk,
                CompletionState::AwaitBoard { task, title, mode, reason },
                CompletionEvent::Board(board_ok, board_title),
            );
            &&& turn.state is Done
            &&& turn.actions.last() is RecordCompleted
            &&& turn.desk.active_task is None
            &&& turn.desk.member_state == MemberState::Idle
            &&& turn.desk.retry_count is None
            &&& turn.desk.narration_rejections is None
            &&& status_of(task, status, turn.actions) == status
            &&& context.manager matches Some(m) ==> {
                &&& is_told(turn.actions, m@, title)
                &&& is_told(turn.actions, m@, "] Task #"@ + text::decimal(task as nat)
                    + " completed."@)
                &&& turn.actions.contains(CompletionAction::MarkWorking(m@))
            }
        }),
{
    let turn = completion::completion_turn(
        context,
        desk,
        CompletionState::AwaitBoard { task, title, mode, reason },
        CompletionEvent::Board(board_ok, board_title),
    );
    lemma_quiet(task, status, turn.actions);
    if let Some(m) = context.manager {
        let body = turn.actions[0]->SendMessage_body;
        let number = text::decimal(task as nat);
        reveal_strlit("] Task #");
        reveal_strlit(" completed.\nTitle: ");
        reveal_strlit(" completed.");
        let a = "["@ + context.engineer@ + "] Task #"@ + number + " completed.\nTitle: "@;
        let rest = body.skip((a.len() + title.len()) as int);
        assert(body =~= a + title + rest);
        lemma_holds(a, title, rest);
        let said = "] Task #"@ + number + " completed."@;
        let b = "["@ + context.engineer@;
        let tail = body.skip((b.len() + said.len()) as int);
        assert(" completed.\nTitle: "@.subrange(0, 11) =~= " completed."@);
        assert(a.subrange(b.len() as int, (b.len() + said.len()) as int) =~= said) by {
            let t = "] Task #"@ + number;
            assert(a =~= b + (t + " completed.\nTitle: "@));
            assert((t + " completed.\nTitle: "@).subrange(0, said.len() as int) =~= said);
        }
        assert(body =~= b + said + tail);
        lemma_holds(b, said, tail);
        assert(turn.actions[0] is SendMessage);
        assert(turn.actions[1] == ActionView::MarkWorking(m@));
    }
}

// ---------------------------------------------------------------------------
// Routing

/// An accepted task goes to manual review where its override says so, to a
/// decision on its diff where the override or the policy wants auto-merge and
/// the diff is known, and is merged at once otherwise.
pub proof fn law_accepted_task_is_routed(
    context: CompletionContext,
    desk: Desk<VerificationView>,
    task: u32,
    results: ResultsView,
    duration_ms: u64,
    facts: MergeFacts,
)
    ensures
        ({
            let turn = completion::completion_turn(
                context,
                desk,
                CompletionState::AwaitMergeFacts { task, results, duration_ms },
                CompletionEvent::MergeFacts(facts),
            );
            let asks = |kind: DecisionKind|
                turn.state == (ProgressView::AwaitDecision {
                    task,
                    branch: facts.branch@,
                    title: facts.title@,
                    duration_ms,
                    asked: kind,
                }) && turn.actions.last() == ActionView::AskDecision(kind);
            let merges = turn.state == (ProgressView::AwaitMerge {
                task,
                branch: facts.branch@,
                title: facts.title@,
                duration_ms,
            }) && turn.actions.last() is Merge;
            &&& turn.desk == desk
            &&& match (facts.auto_merge_override, facts.diff) {
                (Some(false), _) => asks(DecisionKind::ForcedManual),
                (Some(true), Some(diff)) => asks(DecisionKind::ForcedAuto(diff)),
                (None, Some(diff)) => if context.policy.auto_merge_enabled {
                    asks(DecisionKind::Evaluate(diff))
                } else {
                    merges
                },
                (_, None) => merges,
            }
            &&& turn.actions[0] matches CompletionAction::RecordTestResults(record)
                && record.results == results && (record.flaky.len() > 0 ==> results.failed == 0 && (
            facts.previous_results matches Some(p) && p.failed != 0))
        }),
{
}

/// A decision leads to review: a forced one by the override, an accepted one
/// to the merge queue and a refused one with its confidence and its reasons.
pub proof fn law_decision_is_followed(
    context: CompletionContext,
    desk: Desk<VerificationView>,
    task: u32,
    branch: Seq<char>,
    title: Seq<char>,
    duration_ms: u64,
    asked: DecisionKind,
    decision: AutoMergeDecision,
)
    ensures
        ({
            let turn = completion::completion_turn(
                context,
                desk,
                CompletionState::AwaitDecision { task, branch, title, duration_ms, asked },
                CompletionEvent::Decision(decision),
            );
            &&& turn.desk == desk
            &&& turn.actions.last() is AskReviewCommits
            &&& turn.state matches CompletionState::AwaitReviewCommits {
                task: t,
                branch: b,
                title: n,
                duration_ms: d,
                route,
            } && t == task && b == branch && n == title && d == duration_ms && match asked {
                DecisionKind::ForcedManual => route is Override,
                _ => if decision.accepted {
                    route is AutoMerge
                } else {
                    route matches ReviewRoute::Policy { confidence, reasons } && confidence
                        == decision.confidence@ && forall|i: int|
                        0 <= i < decision.reasons@.len() ==> text::contains(
                            reasons,
                            (#[trigger] decision.reasons@[i])@,
                        )
                },
            }
        }),
{
    let joined = text::join(text::views(decision.reasons@), "; "@);
    assert forall|i: int| 0 <= i < decision.reasons@.len() implies text::contains(
        joined,
        (#[trigger] decision.reasons@[i])@,
    ) by {
        lemma_joined_holds(text::views(decision.reasons@), "; "@, i);
    }
}

proof fn lemma_joined_holds(parts: Seq<Seq<char>>, sep: Seq<char>, i: int)
    requires
        0 <= i < parts.len(),
    ensures
        text::contains(text::join(parts, sep), parts[i]),
    decreases parts.len(),
{
    let whole = text::join(parts, sep);
    if i == parts.len() - 1 {
        let head = whole.subrange(0, whole.len() - parts[i].len());
        assert(whole =~= head + parts[i] + Seq::<char>::empty());
        lemma_holds(head, parts[i], Seq::empty());
    } else {
        let front = parts.drop_last();
        lemma_joined_holds(front, sep, i);
        let at = choose|at: int| text::matches_at(text::join(front, sep), front[i], at);
        assert(whole.subrange(at, at + parts[i].len()) =~= text::join(front, sep).subrange(
            at,
            at + parts[i].len(),
        ));
        assert(text::matches_at(whole, parts[i], at));
    }
}

/// A branch with commits is moved to review: queued for the merge, the
/// engineer keeps the task; sent to the manager, who is told its title, the
/// engineer is freed and the completion recorded. A branch without commits
/// stays where it is, and the engineer is told.
pub proof fn law_review_takes_the_task(
    context: CompletionContext,
    desk: Desk<VerificationView>,
    task: u32,
    branch: Seq<char>,
    title: Seq<char>,
    duration_ms: u64,
    route: ReviewRoute<Seq<char>>,
    commits: u32,
    status: Seq<char>,
)
    ensures
        ({
            let turn = completion::completion_turn(
                context,
                desk,
                CompletionState::AwaitReviewCommits { task, branch, title, duration_ms, route },
                CompletionEvent::ReviewCommits(commits),
            );
            &&& turn.state is Done
            &&& commits == 0 ==> {
                &&& turn.desk == desk
                &&& status_of(task, status, turn.actions) == status
                &&& is_told(turn.actions, context.engineer@, "no commits ahead of main"@)
            }
            &&& commits > 0 ==> status_of(task, status, turn.actions) == "review"@
            &&& commits > 0 && route is AutoMerge ==> turn.desk == desk
                && turn.actions.last() is EnqueueMerge
            &&& commits > 0 && !(route is AutoMerge) ==> {
                &&& turn.desk.active_task is None
                &&& turn.desk.member_state == MemberState::Idle
                &&& turn.actions.last() is RecordCompleted
                &&& context.manager matches Some(m) ==> is_told(turn.actions, m@, title)
            }
        }),
{
    let turn = completion::completion_turn(
        context,
        desk,
        CompletionState::AwaitReviewCommits { task, branch, title, duration_ms, route },
        CompletionEvent::ReviewCommits(commits),
    );
    if commits == 0 {
        lemma_quiet(task, status, turn.actions);
        let body = turn.actions[0]->SendMessage_body;
        reveal_strlit(
            "Review blocked: your branch has no commits ahead of main, so Batty kept the task in progress instead of moving it to review.\nCommit the work first:\n```\ngit add -A\ngit commit -m \"your task description\"\n```",
        );
        reveal_strlit("no commits ahead of main");
        assert(body.subrange(32, 56) =~= "no commits ahead of main"@);
        assert(text::matches_at(body, "no commits ahead of main"@, 32));
    } else {
        let first = turn.actions.take(1);
        assert(first =~= Seq::<ActionView>::empty().push(turn.actions[0]));
        lemma_push(task, status, Seq::empty(), turn.actions[0]);
        lemma_rest_is_quiet(task, status, turn.actions, turn.actions.len() as int);
        assert(turn.actions.take(turn.actions.len() as int) =~= turn.actions);
        if !(route is AutoMerge) && context.manager is Some {
            let body = turn.actions[1]->SendMessage_body;
            let number = text::decimal(task as nat);
            match route {
                ReviewRoute::Policy { confidence, reasons } => {
                    let head = "["@ + context.engineer@ + "] Task #"@ + number
                        + " passed tests but requires manual review.\nTitle: "@;
                    let rest = body.skip((head.len() + title.len()) as int);
                    assert(body =~= head + title + rest);
                    lemma_holds(head, title, rest);
                },
                _ => {
                    let head = body.subrange(0, body.len() - title.len());
                    assert(body =~= head + title + Seq::<char>::empty());
                    lemma_holds(head, title, Seq::empty());
                },
            }
            assert(turn.actions[1] is SendMessage);
        }
    }
}

proof fn lemma_rest_is_quiet(task: u32, status: Seq<char>, actions: Seq<ActionView>, k: int)
    requires
        1 <= k <= actions.len(),
        forall|i: int| 1 <= i < actions.len() ==> !is_board_action(#[trigger] actions[i]),
    ensures
        status_of(task, status, actions.take(k)) == status_of(task, status, actions.take(1)),
    decreases k,
{
    if k > 1 {
        lemma_rest_is_quiet(task, status, actions, k - 1);
        assert(actions.take(k).drop_last() =~= actions.take(k - 1));
    }
}

/// The evidence that is recorded of a branch says what git counted, and only
/// of counts that are not zero.
pub proof fn law_evidence_says_what_was_counted(
    context: CompletionContext,
    desk: Desk<VerificationView>,
    task: u32,
    facts: BranchFacts<Seq<char>>,
    verification: VerificationView,
    fence: Option<ScopeFence>,
)
    requires
        verification.evidence.len() == 0,
        context.policy.auto_run_tests,
    ensures
        ({
            let turn = completion::completion_turn(
                context,
                desk,
                CompletionState::AwaitScope { task, facts, verification },
                CompletionEvent::Scope(fence),
            );
            turn.state matches CompletionState::AwaitTests { verification: v, .. } && {
                let shows = |kind: EvidenceKind, detail: Seq<char>|
                    exists|i: int|
                        0 <= i < v.evidence.len() && (#[trigger] v.evidence[i]).kind == kind
                            && v.evidence[i].detail == detail;
                &&& facts.commits > 0 ==> shows(
                    EvidenceKind::CommitsAhead,
                    "commits_ahead="@ + text::decimal(facts.commits as nat),
                )
                &&& facts.files > 0 ==> shows(
                    EvidenceKind::FilesChanged,
                    "files_changed="@ + text::decimal(facts.files as nat),
                )
                &&& facts.code_files > 0 ==> shows(
                    EvidenceKind::CodeFilesChanged,
                    "code_files_changed="@ + text::decimal(facts.code_files as nat),
                )
                &&& forall|i: int|
                    0 <= i < v.evidence.len() ==> match (#[trigger] v.evidence[i]).kind {
                        EvidenceKind::CommitsAhead => facts.commits > 0,
                        EvidenceKind::FilesChanged => facts.files > 0,
                        EvidenceKind::CodeFilesChanged => facts.code_files > 0,
                        _ => false,
                    }
            }
        }),
{
    let turn = completion::completion_turn(
        context,
        desk,
        CompletionState::AwaitScope { task, facts, verification },
        CompletionEvent::Scope(fence),
    );
    reveal_strlit("commits_ahead");
    reveal_strlit("files_changed");
    reveal_strlit("code_files_changed");
    reveal_strlit("=");
    reveal_strlit("commits_ahead=");
    reveal_strlit("files_changed=");
    reveal_strlit("code_files_changed=");
    assert("commits_ahead"@ + "="@ =~= "commits_ahead="@);
    assert("files_changed"@ + "="@ =~= "files_changed="@);
    assert("code_files_changed"@ + "="@ =~= "code_files_changed="@);
    let v = turn.state->AwaitTests_verification;
    let c = if facts.commits > 0 {
        1int
    } else {
        0
    };
    let f = if facts.files > 0 {
        1int
    } else {
        0
    };
    if facts.commits > 0 {
        assert(v.evidence[0].kind == EvidenceKind::CommitsAhead);
    }
    if facts.files > 0 {
        assert(v.evidence[c].kind == EvidenceKind::FilesChanged);
    }
    if facts.code_files > 0 {
        assert(v.evidence[c + f].kind == EvidenceKind::CodeFilesChanged);
    }
}

} // verus!
