//! The course of an execution: when the client is told of its start, its output and its end.
use vstd::prelude::*;

use crate::daemon::{
    ends, exits, is_idle_sandbox, starts, CancelReason, Daemon, Ending, ExecutionOutcome,
};
use crate::digest::base64_decoded;
use crate::error::SandboxError;
use crate::output::{counted, is_output_event, OutputProgress, OutputStep};
use crate::protocol::{EnforcementStatus, OutputStream, ServerMessage, StdinMode};

verus! {

/// How far an execution has come.
#[derive(Debug, Clone, PartialEq, Eq)]
pub enum RunStage {
    /// The process is being started.
    Starting,
    /// The process runs.
    Running,
    /// The process has ended or was told to; the rest of its output is sent on.
    Draining { code: Option<i32>, signal: Option<String> },
    /// The execution is over.
    Over,
}

/// An execution on its course.
#[derive(Debug)]
pub struct Run {
    pub execution_id: String,
    pub stdin: StdinMode,
    pub status: EnforcementStatus,
    pub output_limit: u64,
    pub stage: RunStage,
    pub progress: OutputProgress,
    /// Whether output is still sent on.
    pub output_open: bool,
}

/// What happens in the course of an execution.
#[derive(Debug)]
pub enum RunInput {
    /// The process was started, with an input to write to or without, or it was not.
    Spawned(Result<bool, SandboxError>),
    /// The process has put out a piece.
    Output { stream: OutputStream, chunk: Vec<u8> },
    /// The last piece could not be sent on.
    Undelivered,
    /// There is no more output to send on.
    OutputEnded,
    /// The process has ended, or is to be stopped.
    Outcome(ExecutionOutcome),
}

/// What is to be done about it.
#[derive(Debug)]
pub struct RunStep {
    /// What the client is told.
    pub event: Option<ServerMessage>,
    /// Whether the processes are to be stopped now.
    pub terminate: bool,
    /// Why the execution is to be stopped, where it is.
    pub cancel: Option<CancelReason>,
}

impl Run {
    /// Whether output is sent on.
    pub open spec fn forwards(self) -> bool {
        self.output_open && (self.stage is Running || self.stage is Draining)
    }

    pub open spec fn is_first(self) -> bool {
        &&& self.stage == RunStage::Starting
        &&& self.progress.bytes == 0
        &&& self.progress.sequence == 1
        &&& self.output_open
    }

    /// The output that is reported when the execution is over.
    pub open spec fn output_total(self) -> u64 {
        if self.progress.bytes <= self.output_limit {
            self.progress.bytes
        } else {
            self.output_limit
        }
    }

    /// An execution whose process is about to be started.
    pub fn start(
        execution_id: String,
        stdin: StdinMode,
        status: EnforcementStatus,
        output_limit: u64,
    ) -> (r: Self)
        ensures
            r.is_first(),
            r.execution_id == execution_id,
            r.stdin == stdin,
            r.status == status,
            r.output_limit == output_limit,
    {
        Run {
            execution_id,
            stdin,
            status,
            output_limit,
            stage: RunStage::Starting,
            progress: OutputProgress::start(),
            output_open: true,
        }
    }
}

/// Whether two executions differ at most in their stage and in what became of their output.
pub open spec fn is_same_run(before: Run, after: Run) -> bool {
    &&& after.execution_id == before.execution_id
    &&& after.stdin == before.stdin
    &&& after.status == before.status
    &&& after.output_limit == before.output_limit
}

/// Whether nothing is to be done.
pub open spec fn does_nothing(step: RunStep) -> bool {
    step.event is None && !step.terminate && step.cancel is None
}

/// Whether a piece of output is counted, and sent on where it is within the limit; where it is
/// not, no output is sent on any more, and the execution is stopped for it.
pub open spec fn sends_on(
    before: Run,
    stream: OutputStream,
    chunk: Seq<u8>,
    step: RunStep,
    after: Run,
) -> bool {
    let bytes = counted(before.progress.bytes as int, chunk.len() as int);
    &&& !step.terminate
    &&& after.stage == before.stage
    &&& after.progress.bytes == bytes
    &&& if bytes <= before.output_limit {
        &&& after.output_open
        &&& step.cancel is None
        &&& step.event matches Some(event) && is_output_event(
            event,
            before.execution_id,
            stream,
            before.progress.sequence,
            chunk,
        )
        &&& after.progress.sequence == if before.progress.sequence == u64::MAX {
            0
        } else {
            before.progress.sequence + 1
        }
    } else {
        &&& !after.output_open
        &&& step.event is None
        &&& step.cancel == Some(CancelReason::OutputLimit)
        &&& after.progress.sequence == before.progress.sequence
    }
}

/// Whether an execution, with the daemon in some state, goes on in this way after what happened.
/// What does not belong to its stage is passed over.
pub open spec fn is_run_step(
    before: Run,
    daemon: Daemon,
    input: RunInput,
    step: RunStep,
    after: Run,
    daemon_after: Daemon,
) -> bool {
    &&& is_same_run(before, after)
    &&& match (before.stage, input) {
        (RunStage::Starting, RunInput::Spawned(stdin)) => {
            &&& step.event matches Some(event) && starts(
                daemon,
                before.execution_id,
                before.stdin,
                before.status,
                stdin,
                event,
                daemon_after,
            )
            &&& !step.terminate
            &&& step.cancel is None
            &&& after.progress == before.progress
            &&& after.output_open == before.output_open
            &&& after.stage == if stdin is Ok {
                RunStage::Running
            } else {
                RunStage::Over
            }
        },
        (RunStage::Running, RunInput::Outcome(outcome)) => exists|ending: Ending| #[trigger]
            ends(daemon, before.execution_id, outcome, ending, daemon_after) && {
                &&& step.event == ending.event
                &&& step.terminate == ending.terminate
                &&& step.cancel is None
                &&& after.progress == before.progress
                &&& after.output_open == before.output_open
                &&& after.stage == (RunStage::Draining {
                    code: ending.code,
                    signal: ending.signal,
                })
            },
        (RunStage::Draining { code, signal }, RunInput::OutputEnded) => {
            &&& step.event matches Some(event) && exits(
                daemon,
                before.execution_id,
                code,
                signal,
                before.output_total(),
                event,
                daemon_after,
            )
            &&& !step.terminate
            &&& step.cancel is None
            &&& after.progress == before.progress
            &&& after.stage == RunStage::Over
        },
        (RunStage::Running, RunInput::OutputEnded) => {
            &&& daemon_after == daemon
            &&& does_nothing(step)
            &&& after.stage == before.stage
            &&& after.progress == before.progress
            &&& !after.output_open
        },
        (_, RunInput::Output { stream, chunk }) if before.forwards() => {
            &&& daemon_after == daemon
            &&& sends_on(before, stream, chunk@, step, after)
        },
        (_, RunInput::Undelivered) if before.forwards() => {
            &&& daemon_after == daemon
            &&& step.event is None
            &&& !step.terminate
            &&& step.cancel == Some(CancelReason::ClientClosed)
            &&& after.stage == before.stage
            &&& after.progress == before.progress
            &&& !after.output_open
        },
        _ => daemon_after == daemon && does_nothing(step) && after == before,
    }
}

fn nothing() -> (r: RunStep)
    ensures
        does_nothing(r),
{
    RunStep { event: None, terminate: false, cancel: None }
}

impl Run {
    /// Counts a piece of output and sends it on where it is within the limit.
    fn send_on(&mut self, stream: OutputStream, chunk: &Vec<u8>) -> (r: RunStep)
        requires
            old(self).forwards(),
        ensures
            is_same_run(*old(self), *final(self)),
            sends_on(*old(self), stream, chunk@, r, *final(self)),
    {
        match self.progress.accept(&self.execution_id, self.output_limit, stream, chunk) {
            OutputStep::Forward(event) => {
                self.progress.delivered();
                RunStep { event: Some(event), terminate: false, cancel: None }
            },
            OutputStep::LimitExceeded => {
                self.output_open = false;
                RunStep { event: None, terminate: false, cancel: Some(CancelReason::OutputLimit) }
            },
        }
    }

    /// Takes note of what happened in the course of the execution.
    pub fn advance(&mut self, daemon: &mut Daemon, input: RunInput) -> (r: RunStep)
        ensures
            is_run_step(*old(self), *old(daemon), input, r, *final(self), *final(daemon)),
            old(daemon).wf() ==> final(daemon).wf(),
    {
        match input {
            RunInput::Spawned(stdin) => match &self.stage {
                RunStage::Starting => {
                    self.stage = if stdin.is_ok() {
                        RunStage::Running
                    } else {
                        RunStage::Over
                    };
                    let event = daemon.execution_started(
                        self.execution_id.clone(),
                        self.stdin,
                        self.status,
                        stdin,
                    );
                    RunStep { event: Some(event), terminate: false, cancel: None }
                },
                _ => nothing(),
            },
            RunInput::Output { stream, chunk } => match &self.stage {
                RunStage::Running | RunStage::Draining { .. } => if self.output_open {
                    self.send_on(stream, &chunk)
                } else {
                    nothing()
                },
                _ => nothing(),
            },
            RunInput::Undelivered => match &self.stage {
                RunStage::Running | RunStage::Draining { .. } => if self.output_open {
                    self.output_open = false;
                    RunStep {
                        event: None,
                        terminate: false,
                        cancel: Some(CancelReason::ClientClosed),
                    }
                } else {
                    nothing()
                },
                _ => nothing(),
            },
            RunInput::OutputEnded => {
                let bytes: u64 = self.progress.total(self.output_limit);
                match &self.stage {
                    RunStage::Running => {
                        self.output_open = false;
                        nothing()
                    },
                    RunStage::Draining { code, signal } => {
                        let event = daemon.execution_exited(
                            self.execution_id.clone(),
                            *code,
                            signal.clone(),
                            bytes,
                        );
                        self.output_open = false;
                        self.stage = RunStage::Over;
                        RunStep { event: Some(event), terminate: false, cancel: None }
                    },
                    _ => nothing(),
                }
            },
            RunInput::Outcome(outcome) => match &self.stage {
                RunStage::Running => {
                    let ending = daemon.execution_ended(&self.execution_id, outcome);
                    assert(ends(*old(daemon), self.execution_id, outcome, ending, *daemon));
                    let Ending { event, terminate, code, signal } = ending;
                    self.stage = RunStage::Draining { code, signal };
                    RunStep { event, terminate, cancel: None }
                },
                _ => nothing(),
            },
        }
    }
}

/// One turn in the course of an execution.
pub ghost struct RunTurn {
    pub before: Run,
    pub daemon: Daemon,
    pub input: RunInput,
    pub step: RunStep,
    pub after: Run,
    pub daemon_after: Daemon,
}

/// Whether these are the turns of an execution from its beginning. Between two turns the daemon
/// goes on with other things.
pub open spec fn is_course(turns: Seq<RunTurn>) -> bool {
    &&& turns.len() > 0 ==> turns[0].before.is_first()
    &&& forall|i: int|
        0 <= i < turns.len() ==> {
            let turn = #[trigger] turns[i];
            is_run_step(
                turn.before,
                turn.daemon,
                turn.input,
                turn.step,
                turn.after,
                turn.daemon_after,
            )
        }
    &&& forall|i: int, j: int|
        0 <= i && j == i + 1 && j < turns.len() ==> (#[trigger] turns[i]).after == (
        #[trigger] turns[j]).before
}

/// What the client is told in the course of an execution.
pub open spec fn told(turns: Seq<RunTurn>) -> Seq<ServerMessage>
    decreases turns.len(),
{
    if turns.len() == 0 {
        Seq::empty()
    } else {
        match turns.last().step.event {
            Some(event) => told(turns.drop_last()).push(event),
            None => told(turns.drop_last()),
        }
    }
}

/// Whether the events so far are those of an execution at a stage.
pub open spec fn is_told_in_order(events: Seq<ServerMessage>, stage: RunStage) -> bool {
    match stage {
        RunStage::Starting => events.len() == 0,
        RunStage::Over => {
            ||| events.len() == 1 && events[0] is Error
            ||| {
                &&& events.len() > 1
                &&& events[0] is Started
                &&& events.last() is Exit
                &&& forall|i: int|
                    0 < i < events.len() - 1 ==> #[trigger] events[i] is Output || events[i]
                        is Error
            }
        },
        _ => {
            &&& events.len() > 0
            &&& events[0] is Started
            &&& forall|i: int|
                0 < i < events.len() ==> #[trigger] events[i] is Output || events[i] is Error
        },
    }
}

/// Whatever happens in the course of an execution, the client is told of it in order: first that
/// it has started, then its output, and last, once, that it is over. Of one that does not start it
/// is told nothing but that.
pub proof fn law_execution_is_told_in_order(turns: Seq<RunTurn>)
    requires
        is_course(turns),
        turns.len() > 0,
    ensures
        is_told_in_order(told(turns), turns.last().after.stage),
    decreases turns.len(),
{
    let last = turns.last();
    let earlier = turns.drop_last();
    assert(turns[turns.len() - 1] == last);
    if earlier.len() > 0 {
        assert(is_course(earlier)) by {
            assert(earlier[0] == turns[0]);
            assert forall|i: int, j: int|
                0 <= i && j == i + 1 && j < earlier.len() implies (#[trigger] earlier[i]).after == (
            #[trigger] earlier[j]).before by {
                assert(turns[i].after == turns[j].before);
            }
        }
        law_execution_is_told_in_order(earlier);
        assert(earlier.last() == turns[turns.len() - 2]);
        assert(turns[turns.len() - 2].after == turns[turns.len() - 1].before);
    } else {
        assert(told(earlier).len() == 0);
    }
    let before = told(earlier);
    let after = told(turns);
    assert(is_told_in_order(before, last.before.stage));
    match last.step.event {
        Some(event) => {
            assert(after == before.push(event));
            assert forall|i: int| 0 <= i < before.len() implies after[i] == before[i] by {}
        },
        None => {},
    }
}

/// The course of one execution never brings another one about: a sandbox of which no execution is
/// left stays so.
pub proof fn law_execution_revives_no_sandbox(
    before: Run,
    daemon: Daemon,
    input: RunInput,
    step: RunStep,
    after: Run,
    daemon_after: Daemon,
    sandbox_id: Seq<char>,
)
    requires
        is_run_step(before, daemon, input, step, after, daemon_after),
        is_idle_sandbox(daemon, sandbox_id),
    ensures
        is_idle_sandbox(daemon_after, sandbox_id),
        daemon_after.sandboxes == daemon.sandboxes,
{
    assert forall|id: Seq<char>| #[trigger] daemon_after.executions@.contains_key(id) implies
        daemon_after.executions@[id].sandbox_id@ != sandbox_id by {
        assert(daemon.executions@.contains_key(id));
    }
}

/// What the client is told of why an execution was stopped.
pub open spec fn reason_text(reason: CancelReason) -> Seq<char> {
    match reason {
        CancelReason::Terminate => "terminate"@,
        CancelReason::Kill => "kill"@,
        CancelReason::Timeout => "timeout"@,
        CancelReason::OutputLimit => "output-limit"@,
        CancelReason::SandboxClosed => "sandbox-closed"@,
        CancelReason::ClientClosed => "client-closed"@,
    }
}

/// An execution leaves the running stage only with an outcome. Whatever the reason for which it is
/// stopped, its process tree is terminated in that very step; and where it ended by itself nothing
/// is left to stop.
pub proof fn law_stopped_execution_is_terminated(turns: Seq<RunTurn>, i: int)
    requires
        is_course(turns),
        0 <= i < turns.len(),
        turns[i].before.stage is Running,
        !(turns[i].after.stage is Running),
    ensures
        turns[i].input is Outcome,
        turns[i].input matches RunInput::Outcome(ExecutionOutcome::Cancelled(_))
            ==> turns[i].step.terminate && turns[i].step.event is None,
        turns[i].input matches RunInput::Outcome(ExecutionOutcome::Status(status))
            ==> !turns[i].step.terminate && (turns[i].step.event is Some <==> status is Err),
        turns[i].after.stage is Draining,
{
}

/// Where the rest of the output is sent on, the process had an outcome before; and what is kept of
/// it for the exit is what it was.
proof fn lemma_draining_has_a_cause(turns: Seq<RunTurn>, n: int)
    requires
        is_course(turns),
        0 <= n < turns.len(),
        turns[n].before.stage is Draining,
    ensures
        exists|i: int|
            0 <= i < n && (#[trigger] turns[i]).before.stage is Running && turns[i].after.stage
                == turns[n].before.stage,
    decreases n,
{
    if n > 0 {
        assert(turns[n - 1].after == turns[n].before);
        if turns[n - 1].before.stage is Draining {
            lemma_draining_has_a_cause(turns, n - 1);
            let i = choose|i: int|
                0 <= i < n - 1 && (#[trigger] turns[i]).before.stage is Running
                    && turns[i].after.stage == turns[n - 1].before.stage;
            assert(turns[i].after.stage == turns[n].before.stage);
        } else {
            assert(turns[n - 1].before.stage is Running);
        }
    }
}

/// The client is told of an exit only after the process had an outcome, and what it is told is that
/// outcome: the status with which the process ended, or else the reason for which it was stopped.
/// Before the exit of an execution that was stopped its process tree was terminated.
pub proof fn law_exit_tells_the_outcome(turns: Seq<RunTurn>, n: int)
    requires
        is_course(turns),
        0 <= n < turns.len(),
        turns[n].step.event matches Some(ServerMessage::Exit { .. }),
    ensures
        exists|i: int|
            {
                &&& 0 <= i < n
                &&& (#[trigger] turns[i]).before.stage is Running
                &&& match turns[i].input {
                    RunInput::Outcome(ExecutionOutcome::Cancelled(reason)) => {
                        &&& turns[i].step.terminate
                        &&& turns[n].step.event->0->Exit_code is None
                        &&& turns[n].step.event->0->Exit_signal matches Some(text) && text@
                            == reason_text(reason)
                    },
                    RunInput::Outcome(ExecutionOutcome::Status(Ok(code))) => {
                        &&& turns[n].step.event->0->Exit_code == Some(code)
                        &&& turns[n].step.event->0->Exit_signal is None
                    },
                    RunInput::Outcome(ExecutionOutcome::Status(Err(_))) => {
                        &&& turns[n].step.event->0->Exit_code is None
                        &&& turns[n].step.event->0->Exit_signal matches Some(text) && text@
                            == "wait-failed"@
                    },
                    _ => false,
                }
            },
        turns[n].step.event->0->Exit_execution_id == turns[n].before.execution_id,
        turns[n].step.event->0->Exit_usage@.contains_key("outputBytes"@),
        turns[n].step.event->0->Exit_usage@["outputBytes"@] <= turns[n].before.output_limit,
        turns[n].before.progress.bytes <= turns[n].before.output_limit
            ==> turns[n].step.event->0->Exit_usage@["outputBytes"@]
            == turns[n].before.progress.bytes,
        !turns[n].daemon_after.executions@.contains_key(turns[n].before.execution_id@),
{
    let event = turns[n].step.event->0;
    if turns[n].before.stage is Running {
        assert(turns[n].input matches RunInput::Output { .. } || turns[n].input is Outcome);
    }
    assert(turns[n].before.stage is Draining);
    lemma_draining_has_a_cause(turns, n);
    let i = choose|i: int|
        0 <= i < n && (#[trigger] turns[i]).before.stage is Running && turns[i].after.stage
            == turns[n].before.stage;
    assert(turns[i].input is Outcome);
}

/// A piece of output within the limit is sent on as it is, under the number that follows the last
/// one, and counted; where it goes beyond the limit it is not sent on, nor is anything after it, and
/// the execution is stopped for it.
pub proof fn law_output_is_sent_on(turn: RunTurn)
    requires
        is_run_step(
            turn.before,
            turn.daemon,
            turn.input,
            turn.step,
            turn.after,
            turn.daemon_after,
        ),
        turn.before.stage is Running || turn.before.stage is Draining,
        turn.before.output_open,
        turn.input is Output,
        turn.before.progress.bytes + turn.input->chunk@.len() <= u64::MAX,
        turn.before.progress.sequence < u64::MAX,
    ensures
        turn.after.progress.bytes == turn.before.progress.bytes + turn.input->chunk@.len(),
        turn.after.progress.bytes <= turn.before.output_limit ==> {
            &&& turn.after.output_open && turn.step.cancel is None
            &&& turn.step.event matches Some(ServerMessage::Output {
                execution_id,
                stream,
                sequence,
                base64,
            }) && execution_id == turn.before.execution_id && stream == turn.input->stream
                && sequence == turn.before.progress.sequence && base64_decoded(base64@) == Some(
                turn.input->chunk@,
            )
            &&& turn.after.progress.sequence == turn.before.progress.sequence + 1
        },
        turn.after.progress.bytes > turn.before.output_limit ==> {
            &&& !turn.after.output_open
            &&& turn.step.event is None
            &&& turn.step.cancel == Some(CancelReason::OutputLimit)
        },
        !turn.step.terminate,
        turn.after.stage == turn.before.stage,
{
}

/// The client is told that an execution started, with what is enforced, or why it did not, and then
/// nothing of it is left.
pub proof fn law_start_is_told(turn: RunTurn)
    requires
        is_run_step(
            turn.before,
            turn.daemon,
            turn.input,
            turn.step,
            turn.after,
            turn.daemon_after,
        ),
        turn.before.stage is Starting,
        turn.input is Spawned,
    ensures
        turn.input->Spawned_0 is Ok ==> {
            &&& turn.after.stage is Running
            &&& turn.step.event == Some(
                ServerMessage::Started {
                    execution_id: turn.before.execution_id,
                    status: turn.before.status,
                },
            )
            &&& turn.daemon_after.executions@.dom() == turn.daemon.executions@.dom()
        },
        turn.input->Spawned_0 matches Err(error) ==> {
            &&& turn.after.stage is Over
            &&& turn.step.event matches Some(ServerMessage::Error { execution_id, error: told, .. })
                && execution_id == Some(turn.before.execution_id) && told.code@ == error@.code()
            &&& !turn.daemon_after.executions@.contains_key(turn.before.execution_id@)
        },
{
    assert(turn.daemon_after.executions@.dom() =~= turn.daemon.executions@.dom()
        || turn.input->Spawned_0 is Err);
}

/// An execution stays the one that it is, with the same input, limits and status, whatever comes;
/// what has been counted of its output changes only with a piece of it that is sent on. Where the
/// client cannot be told any more, the execution is stopped for it, and no output is sent on.
pub proof fn law_run_stays_itself(turn: RunTurn)
    requires
        is_run_step(
            turn.before,
            turn.daemon,
            turn.input,
            turn.step,
            turn.after,
            turn.daemon_after,
        ),
    ensures
        turn.after.execution_id == turn.before.execution_id,
        turn.after.stdin == turn.before.stdin,
        turn.after.status == turn.before.status,
        turn.after.output_limit == turn.before.output_limit,
        !(turn.input is Output) || !turn.before.output_open ==> turn.after.progress
            == turn.before.progress,
        turn.step.terminate ==> turn.before.stage is Running && turn.input is Outcome,
        turn.step.cancel is Some ==> turn.daemon_after == turn.daemon && turn.step.event is None,
        turn.input is Undelivered && turn.before.output_open && (turn.before.stage is Running
            || turn.before.stage is Draining) ==> turn.step.cancel == Some(
            CancelReason::ClientClosed,
        ) && !turn.after.output_open && turn.after.stage == turn.before.stage,
        turn.input is OutputEnded && turn.before.stage is Running ==> !turn.after.output_open
            && turn.after.stage == turn.before.stage && turn.step.event is None,
        turn.before.stage is Over ==> turn.after == turn.before && turn.step.event is None
            && turn.daemon_after == turn.daemon,
{
}

} // verus!
