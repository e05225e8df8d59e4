//! The merge lock's waiting rule and the outcome of a merge attempt.

use vstd::prelude::*;
use vstd::string::*;

use crate::paths::joined;
use crate::text::copy;

verus! {

/// How a merge reached `main`.
#[derive(Clone, Copy, Debug, PartialEq, Eq, Structural)]
pub enum MergeMode {
    /// In the project's own checkout.
    DirectRoot,
    /// In a separate integration checkout.
    IsolatedIntegration,
}

/// What is known of a merge that succeeded.
#[derive(Clone, Debug)]
pub struct MergeSuccess<T> {
    pub mode: MergeMode,
    pub reason: Option<T>,
}

/// The three results of a merge attempt.
#[derive(Clone, Debug)]
pub enum MergeOutcome<T> {
    Success(MergeSuccess<T>),
    RebaseConflict(T),
    MergeFailure(T),
}

impl MergeOutcome<String> {
    /// The outcome with the texts that its strings hold.
    pub open spec fn text(self) -> MergeOutcome<Seq<char>> {
        match self {
            MergeOutcome::Success(s) => MergeOutcome::Success(
                (MergeSuccess { mode: s.mode, reason: crate::paths::opt_view(s.reason) }),
            ),
            MergeOutcome::RebaseConflict(s) => MergeOutcome::RebaseConflict(s@),
            MergeOutcome::MergeFailure(s) => MergeOutcome::MergeFailure(s@),
        }
    }
}

/// A merge in the project's own checkout with nothing to remark.
pub open spec fn plain_success() -> MergeOutcome<Seq<char>> {
    MergeOutcome::Success((MergeSuccess { mode: MergeMode::DirectRoot, reason: None }))
}

/// `<root>/.batty/merge.lock`.
pub open spec fn merge_lock_text(project_root: Seq<char>) -> Seq<char> {
    crate::paths::join_path(crate::paths::batty_dir(project_root), "merge.lock"@)
}

/// `<root>/.batty/merge.lock`.
pub fn merge_lock_path(project_root: &str) -> (r: String)
    ensures
        r@ == merge_lock_text(project_root@),
{
    joined(joined(project_root, ".batty").as_str(), "merge.lock")
}

/// The answer to one attempt to create the lock file.
#[derive(Clone, Debug)]
pub enum LockAttempt<T> {
    /// The file is new: the lock is ours.
    Created,
    /// Another merge holds the lock.
    Exists,
    /// The file could not be created for another reason.
    Failed(T),
}

/// What to do after an attempt.
#[derive(Clone, Debug)]
pub enum LockStep<T> {
    Acquired,
    RetryAfterMillis(u64),
    Failed(T),
}

impl LockAttempt<String> {
    /// The attempt with the texts that its strings hold.
    pub open spec fn text(self) -> LockAttempt<Seq<char>> {
        match self {
            LockAttempt::Created => LockAttempt::Created,
            LockAttempt::Exists => LockAttempt::Exists,
            LockAttempt::Failed(e) => LockAttempt::Failed(e@),
        }
    }
}

impl LockStep<String> {
    /// The step with the texts that its strings hold.
    pub open spec fn text(self) -> LockStep<Seq<char>> {
        match self {
            LockStep::Acquired => LockStep::Acquired,
            LockStep::RetryAfterMillis(ms) => LockStep::RetryAfterMillis(ms),
            LockStep::Failed(e) => LockStep::Failed(e@),
        }
    }
}

/// Sixty seconds in nanoseconds.
pub const LOCK_TIMEOUT_NANOS: u128 = 60_000_000_000;

/// Pause between two attempts, in milliseconds.
pub const LOCK_RETRY_MILLIS: u64 = 500;

/// The waiting rule: a held lock is tried again every half second until more
/// than sixty seconds have passed.
pub open spec fn lock_step_spec(
    path: Seq<char>,
    attempt: LockAttempt<Seq<char>>,
    elapsed_nanos: u128,
) -> LockStep<Seq<char>> {
    match attempt {
        LockAttempt::Created => LockStep::Acquired,
        LockAttempt::Exists => if elapsed_nanos > LOCK_TIMEOUT_NANOS {
            LockStep::Failed("merge lock timeout after 60s: "@ + path)
        } else {
            LockStep::RetryAfterMillis(LOCK_RETRY_MILLIS)
        },
        LockAttempt::Failed(e) => LockStep::Failed("failed to acquire merge lock: "@ + e),
    }
}

/// Decides what follows one attempt to create the lock file at `path`.
pub fn acquire(path: &str, attempt: &LockAttempt<String>, elapsed_nanos: u128) -> (r: LockStep<
    String,
>)
    ensures
        r.text() == lock_step_spec(path@, attempt.text(), elapsed_nanos),
{
    match attempt {
        LockAttempt::Created => LockStep::Acquired,
        LockAttempt::Exists => {
            if elapsed_nanos > LOCK_TIMEOUT_NANOS {
                LockStep::Failed(copy("merge lock timeout after 60s: ").concat(path))
            } else {
                LockStep::RetryAfterMillis(LOCK_RETRY_MILLIS)
            }
        },
        LockAttempt::Failed(e) => LockStep::Failed(
            copy("failed to acquire merge lock: ").concat(e.as_str()),
        ),
    }
}

// ---------------------------------------------------------------------------
// Laws

/// The lock file, and those who were told that the lock is theirs and have
/// not released it.
#[verifier::ext_equal]
pub struct LockState {
    pub file: bool,
    pub holders: Set<int>,
}

/// Something that happens to a lock.
pub enum LockEvent {
    /// Somebody tried to create the lock file, with this answer.
    Try { who: int, attempt: LockAttempt<Seq<char>>, elapsed_nanos: u128 },
    /// Somebody releases the lock, which removes the lock file.
    Release { who: int },
}

/// What can happen: creating the lock file succeeds only where there is none
/// and finds one only where there is one, and only a holder releases.
pub open spec fn can_happen(state: LockState, event: LockEvent) -> bool {
    match event {
        LockEvent::Try { attempt, .. } => {
            &&& attempt is Created ==> !state.file
            &&& attempt is Exists ==> state.file
        },
        LockEvent::Release { who } => state.holders.contains(who),
    }
}

/// The lock after an event, where whoever tries goes by `acquire`.
pub open spec fn after_event(path: Seq<char>, state: LockState, event: LockEvent) -> LockState {
    match event {
        LockEvent::Try { who, attempt, elapsed_nanos } => LockState {
            file: state.file || attempt is Created,
            holders: if lock_step_spec(path, attempt, elapsed_nanos) is Acquired {
                state.holders.insert(who)
            } else {
                state.holders
            },
        },
        LockEvent::Release { who } => LockState {
            file: false,
            holders: state.holders.remove(who),
        },
    }
}

/// The event is an attempt after which somebody holds the lock.
pub open spec fn acquires(path: Seq<char>, event: LockEvent) -> bool {
    event matches LockEvent::Try { who, attempt, elapsed_nanos } && lock_step_spec(
        path,
        attempt,
        elapsed_nanos,
    ) is Acquired
}

/// The lock after the first `k` events; nobody holds it at first, and the
/// file may be left from before.
pub open spec fn lock_after(
    path: Seq<char>,
    left_over: bool,
    events: Seq<LockEvent>,
    k: int,
) -> LockState
    decreases k,
{
    if k <= 0 {
        LockState { file: left_over, holders: Set::empty() }
    } else {
        after_event(path, lock_after(path, left_over, events, k - 1), events[k - 1])
    }
}

/// Never do two hold the lock, and while one holds it the lock file is there
/// and nobody acquires it, whatever was tried and released before.
pub proof fn law_lock_has_one_holder(
    path: Seq<char>,
    left_over: bool,
    events: Seq<LockEvent>,
    k: int,
)
    requires
        0 <= k <= events.len(),
        forall|i: int|
            0 <= i < k ==> can_happen(
                lock_after(path, left_over, events, i),
                #[trigger] events[i],
            ),
    ensures
        ({
            let state = lock_after(path, left_over, events, k);
            &&& forall|a: int, b: int|
                state.holders.contains(a) && state.holders.contains(b) ==> a == b
            &&& forall|a: int| #[trigger] state.holders.contains(a) ==> state.file
            &&& forall|a: int, event: LockEvent|
                #![trigger state.holders.contains(a), can_happen(state, event)]
                state.holders.contains(a) && can_happen(state, event) ==> !acquires(path, event)
        }),
    decreases k,
{
    if k > 0 {
        law_lock_has_one_holder(path, left_over, events, k - 1);
        assert(can_happen(lock_after(path, left_over, events, k - 1), events[k - 1]));
    }
}

/// A release removes the lock file and leaves nobody with the lock, and
/// whoever then can create the file acquires it, however long they waited.
pub proof fn law_release_lets_another_acquire(
    path: Seq<char>,
    left_over: bool,
    events: Seq<LockEvent>,
    k: int,
    who: int,
    next: int,
    elapsed_nanos: u128,
)
    requires
        0 <= k <= events.len(),
        forall|i: int|
            0 <= i < k ==> can_happen(
                lock_after(path, left_over, events, i),
                #[trigger] events[i],
            ),
        lock_after(path, left_over, events, k).holders.contains(who),
    ensures
        ({
            let free = after_event(
                path,
                lock_after(path, left_over, events, k),
                LockEvent::Release { who },
            );
            let attempt = (LockEvent::Try { who: next, attempt: LockAttempt::Created, elapsed_nanos });
            &&& free == (LockState { file: false, holders: Set::empty() })
            &&& can_happen(free, attempt)
            &&& after_event(path, free, attempt) == (LockState {
                file: true,
                holders: Set::empty().insert(next),
            })
        }),
{
    law_lock_has_one_holder(path, left_over, events, k);
    let state = lock_after(path, left_over, events, k);
    assert(state.holders.remove(who) =~= Set::empty());
}

/// Only a freshly created lock file gives the lock.
pub proof fn law_lock_is_exclusive(
    path: Seq<char>,
    attempt: LockAttempt<Seq<char>>,
    elapsed_nanos: u128,
)
    ensures
        lock_step_spec(path, attempt, elapsed_nanos) is Acquired <==> attempt is Created,
{
}

} // verus!
