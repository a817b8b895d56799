//! The decisions of the exclusive critical-section guard: which step comes
//! next while a computation is run under an advisory lock on a file. The
//! caller works on the file and hands back what happened.

use vstd::prelude::*;

verus! {

/// Why the guard failed.
#[derive(Clone, Copy, Debug, PartialEq, Eq)]
pub enum LockError {
    /// The file could not be created or opened, or the lock was refused.
    /// The computation did not run.
    LockAcquisitionFailure,
    /// The lock could not be released. The computation has run.
    LockReleaseFailure,
}

/// Where the guard stands.
#[derive(Clone, Copy, Debug, PartialEq, Eq)]
pub enum LockState {
    Idle,
    Opening,
    Acquiring,
    Running,
    Releasing,
    Finished,
}

/// What happened to the last action.
#[derive(Clone, Copy, Debug, PartialEq, Eq)]
pub enum LockEvent {
    Start,
    Opened,
    OpenFailed,
    Acquired,
    AcquireFailed,
    ComputationReturned,
    Released,
    ReleaseFailed,
}

/// What the caller does next.
#[derive(Clone, Copy, Debug, PartialEq, Eq)]
pub enum LockAction {
    /// Create the file, or open it where it exists.
    OpenFile,
    /// Take the exclusive lock, waiting for it as long as it takes.
    Acquire,
    /// Run the computation, once.
    Run,
    /// Release the lock, whether the computation succeeded or failed.
    Release,
    /// Return what the computation returned, its value or its error.
    ReturnResult,
    /// Return this error.
    Fail(LockError),
}

/// The step that follows an event, or `None` where the event cannot come in
/// this state.
pub open spec fn next_step(state: LockState, event: LockEvent) -> Option<(LockState, LockAction)> {
    match (state, event) {
        (LockState::Idle, LockEvent::Start) => Some((LockState::Opening, LockAction::OpenFile)),
        (LockState::Opening, LockEvent::Opened) => Some(
            (LockState::Acquiring, LockAction::Acquire),
        ),
        (LockState::Opening, LockEvent::OpenFailed) => Some(
            (LockState::Finished, LockAction::Fail(LockError::LockAcquisitionFailure)),
        ),
        (LockState::Acquiring, LockEvent::Acquired) => Some((LockState::Running, LockAction::Run)),
        (LockState::Acquiring, LockEvent::AcquireFailed) => Some(
            (LockState::Finished, LockAction::Fail(LockError::LockAcquisitionFailure)),
        ),
        (LockState::Running, LockEvent::ComputationReturned) => Some(
            (LockState::Releasing, LockAction::Release),
        ),
        (LockState::Releasing, LockEvent::Released) => Some(
            (LockState::Finished, LockAction::ReturnResult),
        ),
        (LockState::Releasing, LockEvent::ReleaseFailed) => Some(
            (LockState::Finished, LockAction::Fail(LockError::LockReleaseFailure)),
        ),
        _ => None,
    }
}

/// How far a state is from the start.
pub open spec fn rank(state: LockState) -> nat {
    match state {
        LockState::Idle => 0,
        LockState::Opening => 1,
        LockState::Acquiring => 2,
        LockState::Running => 3,
        LockState::Releasing => 4,
        LockState::Finished => 5,
    }
}

/// The state and the actions after a run of events from a state, or `None`
/// where one of the events could not come.
pub open spec fn run_from(state: LockState, events: Seq<LockEvent>) -> Option<
    (LockState, Seq<LockAction>),
>
    decreases events.len(),
{
    if events.len() == 0 {
        Some((state, Seq::empty()))
    } else {
        match run_from(state, events.drop_last()) {
            Some((s, actions)) => match next_step(s, events.last()) {
                Some((t, a)) => Some((t, actions.push(a))),
                None => None,
            },
            None => None,
        }
    }
}

/// How often an action occurs.
pub open spec fn count_of(actions: Seq<LockAction>, a: LockAction) -> nat
    decreases actions.len(),
{
    if actions.len() == 0 {
        0
    } else {
        count_of(actions.drop_last(), a) + if actions.last() == a {
            1nat
        } else {
            0nat
        }
    }
}

/// Every step leads on: no state comes twice.
pub proof fn lemma_step_advances(state: LockState, event: LockEvent)
    ensures
        next_step(state, event) matches Some((t, a)) ==> rank(t) > rank(state),
{
}

/// The computation runs only once the lock is held, and the lock is released
/// whatever the computation returned.
pub proof fn lemma_step_discipline(state: LockState, event: LockEvent)
    ensures
        next_step(state, event) matches Some((t, a)) ==> {
            &&& a == LockAction::Run <==> state == LockState::Acquiring && event
                == LockEvent::Acquired
            &&& state == LockState::Running ==> a == LockAction::Release
            &&& a == LockAction::ReturnResult ==> state == LockState::Releasing
            &&& a == LockAction::Fail(LockError::LockAcquisitionFailure) ==> rank(state) < rank(
                LockState::Running,
            )
            &&& a == LockAction::Fail(LockError::LockReleaseFailure) ==> state
                == LockState::Releasing
        },
{
}

/// In every run from the start the computation runs at most once, the lock
/// is released as often as the computation ran once the guard has finished
/// behind it, and a run that returns the computation's result has run it.
pub proof fn lemma_run_once(events: Seq<LockEvent>)
    ensures
        run_from(LockState::Idle, events) matches Some((s, actions)) ==> {
            &&& count_of(actions, LockAction::Run) == if rank(s) >= rank(LockState::Running)
                && !ended_before_run(actions) {
                1nat
            } else {
                0nat
            }
            &&& count_of(actions, LockAction::Release) == if rank(s) >= rank(
                LockState::Releasing,
            ) && !ended_before_run(actions) {
                1nat
            } else {
                0nat
            }
            &&& ended_before_run(actions) ==> s == LockState::Finished
            &&& count_of(actions, LockAction::ReturnResult) > 0 ==> count_of(
                actions,
                LockAction::Run,
            ) == 1
        },
    decreases events.len(),
{
    if events.len() > 0 {
        lemma_run_once(events.drop_last());
        match run_from(LockState::Idle, events.drop_last()) {
            Some((s, actions)) => {
                match next_step(s, events.last()) {
                    Some((t, a)) => {
                        let all = actions.push(a);
                        assert(all.drop_last() =~= actions);
                        assert(all.last() == a);
                    },
                    None => {},
                }
            },
            None => {},
        }
    }
}

/// The guard gave up before it held the lock.
pub open spec fn ended_before_run(actions: Seq<LockAction>) -> bool {
    count_of(actions, LockAction::Fail(LockError::LockAcquisitionFailure)) > 0
}

/// The first state of the guard.
pub fn lock_start() -> (r: LockState)
    ensures
        r == LockState::Idle,
{
    LockState::Idle
}

/// Decides the next step of the guard.
pub fn lock_step(state: LockState, event: LockEvent) -> (r: Option<(LockState, LockAction)>)
    ensures
        r == next_step(state, event),
{
    match (state, event) {
        (LockState::Idle, LockEvent::Start) => Some((LockState::Opening, LockAction::OpenFile)),
        (LockState::Opening, LockEvent::Opened) => Some(
            (LockState::Acquiring, LockAction::Acquire),
        ),
        (LockState::Opening, LockEvent::OpenFailed) => Some(
            (LockState::Finished, LockAction::Fail(LockError::LockAcquisitionFailure)),
        ),
        (LockState::Acquiring, LockEvent::Acquired) => Some((LockState::Running, LockAction::Run)),
        (LockState::Acquiring, LockEvent::AcquireFailed) => Some(
            (LockState::Finished, LockAction::Fail(LockError::LockAcquisitionFailure)),
        ),
        (LockState::Running, LockEvent::ComputationReturned) => Some(
            (LockState::Releasing, LockAction::Release),
        ),
        (LockState::Releasing, LockEvent::Released) => Some(
            (LockState::Finished, LockAction::ReturnResult),
        ),
        (LockState::Releasing, LockEvent::ReleaseFailed) => Some(
            (LockState::Finished, LockAction::Fail(LockError::LockReleaseFailure)),
        ),
        _ => None,
    }
}

} // verus!
