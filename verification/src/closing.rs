//! The end of a sandbox, or of all of them: what was granted is taken back only once no process
//! runs in it any more.
use vstd::prelude::*;

use crate::daemon::{drain_step, drained, DrainStep, DRAIN_ATTEMPTS};
use crate::error::SandboxError;
use crate::protocol::ServerMessage;

verus! {

/// How far the end of sandboxes has come.
#[derive(Debug)]
pub enum ClosingStage {
    /// The daemon looks, for this time, whether the executions have ended.
    Looking(u32),
    /// It waits after the look.
    Waiting(u32),
    /// No execution is left; the sandbox at this place is undone.
    CleaningUp(usize),
    /// It is over: whether the executions ended, and how undoing went.
    Closed { idle: bool, cleanup: Result<(), SandboxError> },
}

/// What is to be done next.
#[derive(Debug, Clone, Copy, PartialEq, Eq, Structural)]
pub enum ClosingAction {
    Look,
    Wait,
    CleanUp(usize),
    Finish,
}

/// What an action brought.
#[derive(Debug)]
pub enum ClosingOutcome {
    /// Whether the executions had ended.
    Looked(bool),
    Waited,
    CleanedUp(Result<(), SandboxError>),
}

impl ClosingStage {
    pub open spec fn first() -> Self {
        ClosingStage::Looking(0)
    }

    pub open spec fn wf(self, sandboxes: nat) -> bool {
        match self {
            ClosingStage::Looking(attempt) => attempt <= DRAIN_ATTEMPTS,
            ClosingStage::Waiting(attempt) => attempt < DRAIN_ATTEMPTS,
            ClosingStage::CleaningUp(i) => i < sandboxes,
            ClosingStage::Closed { .. } => true,
        }
    }

    pub open spec fn next_action(self) -> ClosingAction {
        match self {
            ClosingStage::Looking(_) => ClosingAction::Look,
            ClosingStage::Waiting(_) => ClosingAction::Wait,
            ClosingStage::CleaningUp(i) => ClosingAction::CleanUp(i),
            ClosingStage::Closed { .. } => ClosingAction::Finish,
        }
    }

    /// The stage in which sandboxes are undone, from one on.
    pub open spec fn cleaning_from(i: int, sandboxes: nat) -> Self {
        if i < sandboxes {
            ClosingStage::CleaningUp(i as usize)
        } else {
            ClosingStage::Closed { idle: true, cleanup: Ok(()) }
        }
    }

    /// The stage after the action brought this. Where the whole daemon ends, a sandbox that cannot
    /// be undone does not keep the others from it, and a look after the last wait counts. What the
    /// action cannot have brought is passed over.
    pub open spec fn after(self, outcome: ClosingOutcome, sandboxes: nat, whole: bool) -> Self {
        match (self, outcome) {
            (ClosingStage::Looking(attempt), ClosingOutcome::Looked(idle)) => match drained(
                attempt,
                idle,
                whole,
            ) {
                DrainStep::Idle => Self::cleaning_from(0, sandboxes),
                DrainStep::Wait => ClosingStage::Waiting(attempt),
                DrainStep::GiveUp => ClosingStage::Closed { idle: false, cleanup: Ok(()) },
            },
            (ClosingStage::Waiting(attempt), ClosingOutcome::Waited) => ClosingStage::Looking(
                (attempt + 1) as u32,
            ),
            (ClosingStage::CleaningUp(i), ClosingOutcome::CleanedUp(result)) => match result {
                Err(error) if !whole => ClosingStage::Closed { idle: true, cleanup: Err(error) },
                _ => Self::cleaning_from(i + 1, sandboxes),
            },
            _ => self,
        }
    }

    /// Where the end of sandboxes begins.
    pub fn start() -> (r: Self)
        ensures
            r == Self::first(),
    {
        ClosingStage::Looking(0)
    }

    /// What is to be done next.
    pub fn action(&self) -> (r: ClosingAction)
        ensures
            r == self.next_action(),
    {
        match self {
            ClosingStage::Looking(_) => ClosingAction::Look,
            ClosingStage::Waiting(_) => ClosingAction::Wait,
            ClosingStage::CleaningUp(i) => ClosingAction::CleanUp(*i),
            ClosingStage::Closed { .. } => ClosingAction::Finish,
        }
    }

    fn clean_from(i: usize, sandboxes: usize) -> (r: Self)
        ensures
            r == Self::cleaning_from(i as int, sandboxes as nat),
    {
        if i < sandboxes {
            ClosingStage::CleaningUp(i)
        } else {
            ClosingStage::Closed { idle: true, cleanup: Ok(()) }
        }
    }

    /// Takes note of what the action brought. `whole` says whether the whole daemon ends.
    pub fn advance(self, outcome: ClosingOutcome, sandboxes: usize, whole: bool) -> (r: Self)
        requires
            self.wf(sandboxes as nat),
        ensures
            r == self.after(outcome, sandboxes as nat, whole),
            r.wf(sandboxes as nat),
    {
        match (self, outcome) {
            (ClosingStage::Looking(attempt), ClosingOutcome::Looked(idle)) => match drain_step(
                attempt,
                idle,
                whole,
            ) {
                DrainStep::Idle => Self::clean_from(0, sandboxes),
                DrainStep::Wait => ClosingStage::Waiting(attempt),
                DrainStep::GiveUp => ClosingStage::Closed { idle: false, cleanup: Ok(()) },
            },
            (ClosingStage::Waiting(attempt), ClosingOutcome::Waited) => ClosingStage::Looking(
                attempt + 1,
            ),
            (ClosingStage::CleaningUp(i), ClosingOutcome::CleanedUp(result)) => match result {
                Err(error) => if whole {
                    Self::clean_from(i + 1, sandboxes)
                } else {
                    ClosingStage::Closed { idle: true, cleanup: Err(error) }
                },
                Ok(()) => Self::clean_from(i + 1, sandboxes),
            },
            (stage, _) => stage,
        }
    }
}

/// What the client is told once the daemon has shut down: that its request for it was served.
pub fn shutdown_outcome(request_id: Option<String>) -> (r: Option<ServerMessage>)
    ensures
        match request_id {
            Some(request) => r == Some(ServerMessage::ShutdownAck { request_id: request }),
            None => r is None,
        },
{
    match request_id {
        Some(request_id) => Some(ServerMessage::ShutdownAck { request_id }),
        None => None,
    }
}

/// The stage after a number of actions brought these.
pub open spec fn closing_after(
    outcomes: Seq<ClosingOutcome>,
    sandboxes: nat,
    whole: bool,
) -> ClosingStage
    decreases outcomes.len(),
{
    if outcomes.len() == 0 {
        ClosingStage::first()
    } else {
        closing_after(outcomes.drop_last(), sandboxes, whole).after(
            outcomes.last(),
            sandboxes,
            whole,
        )
    }
}

/// The sandboxes that were undone, in order, after a number of actions.
pub open spec fn undone(outcomes: Seq<ClosingOutcome>, sandboxes: nat, whole: bool) -> Seq<int>
    decreases outcomes.len(),
{
    if outcomes.len() == 0 {
        Seq::empty()
    } else {
        let before = undone(outcomes.drop_last(), sandboxes, whole);
        match (
            closing_after(outcomes.drop_last(), sandboxes, whole).next_action(),
            outcomes.last(),
        ) {
            (ClosingAction::CleanUp(i), ClosingOutcome::CleanedUp(_)) => before.push(i as int),
            _ => before,
        }
    }
}

/// Whether the latest look found that no execution is left.
pub open spec fn found_idle(outcomes: Seq<ClosingOutcome>, sandboxes: nat, whole: bool) -> bool
    decreases outcomes.len(),
{
    if outcomes.len() == 0 {
        false
    } else {
        match (
            closing_after(outcomes.drop_last(), sandboxes, whole).next_action(),
            outcomes.last(),
        ) {
            (ClosingAction::Look, ClosingOutcome::Looked(idle)) => idle,
            _ => found_idle(outcomes.drop_last(), sandboxes, whole),
        }
    }
}

/// However long executions take, and whatever fails: nothing is undone before a look has found
/// that no execution is left. Until then, and where the daemon gives up waiting, no sandbox was
/// undone; after it, every one of them is, in order, up to the first that cannot be, or all where
/// the whole daemon ends.
pub proof fn law_cleanup_comes_after_the_last_execution(
    outcomes: Seq<ClosingOutcome>,
    sandboxes: nat,
    whole: bool,
)
    requires
        sandboxes <= usize::MAX,
    ensures
        ({
            let stage = closing_after(outcomes, sandboxes, whole);
            let done = undone(outcomes, sandboxes, whole);
            &&& stage.wf(sandboxes)
            &&& forall|k: int| 0 <= k < done.len() ==> #[trigger] done[k] == k
            &&& match stage {
                ClosingStage::Looking(_) => done.len() == 0,
                ClosingStage::Waiting(_) => done.len() == 0,
                ClosingStage::CleaningUp(i) => found_idle(outcomes, sandboxes, whole) && done.len()
                    == i,
                ClosingStage::Closed { idle, cleanup } => if !idle {
                    done.len() == 0 && cleanup is Ok
                } else {
                    &&& found_idle(outcomes, sandboxes, whole)
                    &&& done.len() <= sandboxes
                    &&& cleanup is Ok ==> done.len() == sandboxes
                    &&& cleanup is Err ==> !whole && done.len() > 0
                },
            }
        }),
    decreases outcomes.len(),
{
    if outcomes.len() > 0 {
        law_cleanup_comes_after_the_last_execution(outcomes.drop_last(), sandboxes, whole);
    }
}

/// The daemon looks a hundred times, and waits after each look that finds an execution; where the
/// whole daemon ends it looks once more. The first look that finds none lets the sandboxes be
/// undone, from the first on; a look that comes too late, or finds one at the end, ends it without.
pub proof fn law_daemon_looks_and_waits(attempt: u32, idle: bool, sandboxes: nat, whole: bool)
    ensures
        ({
            let next = ClosingStage::Looking(attempt).after(
                ClosingOutcome::Looked(idle),
                sandboxes,
                whole,
            );
            &&& idle && (attempt < 100 || whole) && sandboxes > 0 ==> next
                == ClosingStage::CleaningUp(0)
            &&& idle && (attempt < 100 || whole) && sandboxes == 0 ==> next
                == (ClosingStage::Closed { idle: true, cleanup: Ok(()) })
            &&& !idle && attempt < 100 ==> next == ClosingStage::Waiting(attempt)
            &&& attempt >= 100 && !(idle && whole) ==> next == (ClosingStage::Closed {
                idle: false,
                cleanup: Ok(()),
            })
        }),
        attempt < 100 ==> ClosingStage::Waiting(attempt).after(
            ClosingOutcome::Waited,
            sandboxes,
            whole,
        ) == ClosingStage::Looking((attempt + 1) as u32),
        ClosingStage::Looking(attempt).next_action() == ClosingAction::Look,
        ClosingStage::Waiting(attempt).next_action() == ClosingAction::Wait,
{
}

/// A sandbox that cannot be undone ends the closing of a single one with its error; where the whole
/// daemon ends, the next one is undone all the same.
pub proof fn law_sandboxes_are_undone_in_turn(
    i: usize,
    result: Result<(), SandboxError>,
    sandboxes: nat,
    whole: bool,
)
    requires
        i < sandboxes <= usize::MAX,
    ensures
        ({
            let next = ClosingStage::CleaningUp(i).after(
                ClosingOutcome::CleanedUp(result),
                sandboxes,
                whole,
            );
            &&& result is Err && !whole ==> next == (ClosingStage::Closed {
                idle: true,
                cleanup: result,
            })
            &&& (result is Ok || whole) && i + 1 < sandboxes ==> next == ClosingStage::CleaningUp(
                (i + 1) as usize,
            )
            &&& (result is Ok || whole) && i + 1 == sandboxes ==> next == (ClosingStage::Closed {
                idle: true,
                cleanup: Ok(()),
            })
        }),
        ClosingStage::CleaningUp(i).next_action() == ClosingAction::CleanUp(i),
{
}

} // verus!
