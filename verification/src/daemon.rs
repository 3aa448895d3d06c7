//! The daemon: the sandboxes and executions that it knows, and what each request does to them.
use vstd::prelude::*;
use vstd::string::*;
use vstd::utf8::*;

use crate::authorization::AuthorizationSpec;
use crate::digest::{base64_decoded, decode_base64, fingerprint_of, fingerprint_of_texts};
use crate::error::{
    failure, first_fault, lemma_all_passed, lemma_first_fault_at, lemma_no_fault, reports, Fault,
    SandboxError,
};
use crate::environment::{is_allowed_value, is_sensitive};
use crate::identifier::{identifier_fault, is_identifier, validate_identifier};
use crate::native::{
    is_unavailable_report, profile_fault, NativeBackend, PreparedSandbox, ProfileSpec,
};
use crate::path::Platform;
use crate::limits::{limits_in_range, no_wider, requested_limits};
use crate::policy::{
    covers, law_execution_keeps_the_policy_limits, law_no_sensitive_variable_reaches_an_execution,
    policy_fault, validates, HostFacts, ValidatedExecution, ValidatedMount, ValidatedPolicy,
};
use crate::protocol::{
    same_report, CapabilityReport, ClientMessage, CommandSpec, EnforcementStatus, ExecutionLimits,
    LogicalPath, SandboxPolicy, ServerMessage, SignalKind, StdinMode,
};
use crate::string_map::{
    ascending, lemma_pair_in_map, lemma_walk, lemma_walk_end, lemma_walk_start, map_of, position,
    StringMap,
};
use crate::text::{concat, decimal, decimal_text, same_text, texts};
use crate::windows_backend;

verus! {

/// The greatest piece of input that is taken at once.
pub const MAX_STDIN_CHUNK_BYTES: usize = 64 * 1024;

/// How often the daemon looks whether executions have ended before it gives up.
pub const DRAIN_ATTEMPTS: u32 = 100;

/// How long it waits between two looks, in milliseconds.
pub const DRAIN_INTERVAL_MS: u64 = 50;

/// Why an execution is stopped.
#[derive(Debug, Clone, Copy, PartialEq, Eq, Structural)]
pub enum CancelReason {
    Terminate,
    Kill,
    Timeout,
    OutputLimit,
    SandboxClosed,
    ClientClosed,
}

impl CancelReason {
    pub open spec fn name(self) -> Seq<char> {
        match self {
            CancelReason::Terminate => "terminate"@,
            CancelReason::Kill => "kill"@,
            CancelReason::Timeout => "timeout"@,
            CancelReason::OutputLimit => "output-limit"@,
            CancelReason::SandboxClosed => "sandbox-closed"@,
            CancelReason::ClientClosed => "client-closed"@,
        }
    }

    /// The name under which the client is told of it.
    pub fn signal(self) -> (r: &'static str)
        ensures
            r@ == self.name(),
    {
        match self {
            CancelReason::Terminate => "terminate",
            CancelReason::Kill => "kill",
            CancelReason::Timeout => "timeout",
            CancelReason::OutputLimit => "output-limit",
            CancelReason::SandboxClosed => "sandbox-closed",
            CancelReason::ClientClosed => "client-closed",
        }
    }
}

/// What the daemon knows of an execution.
#[derive(Debug, Clone, PartialEq, Eq)]
pub struct ExecutionControl {
    pub sandbox_id: String,
    pub stdin_open: bool,
    pub next_stdin_sequence: u64,
    pub cancel: Option<CancelReason>,
}

/// What the daemon knows.
#[derive(Debug)]
pub struct Daemon {
    pub backend: Option<NativeBackend>,
    pub report: CapabilityReport,
    pub sandboxes: StringMap<PreparedSandbox>,
    pub executions: StringMap<ExecutionControl>,
}

/// How an execution came to its end.
#[derive(Debug)]
pub enum ExecutionOutcome {
    Status(Result<i32, SandboxError>),
    Cancelled(CancelReason),
}

/// What is to be done about the end of an execution.
#[derive(Debug)]
pub struct Ending {
    /// What the client is told at once.
    pub event: Option<ServerMessage>,
    /// Whether the processes are still to be stopped.
    pub terminate: bool,
    pub code: Option<i32>,
    pub signal: Option<String>,
}

/// A sandbox that is being closed, and the executions that were told to stop.
#[derive(Debug)]
pub struct Closing {
    pub record: PreparedSandbox,
    pub cancelled: Vec<String>,
}

/// What a daemon that shuts down leaves behind, and the executions that were told to stop.
#[derive(Debug)]
pub struct Closedown {
    pub records: Vec<(String, PreparedSandbox)>,
    pub cancelled: Vec<String>,
}

/// What a look at executions that were told to stop leads to.
#[derive(Debug, Clone, Copy, PartialEq, Eq, Structural)]
pub enum DrainStep {
    Idle,
    Wait,
    GiveUp,
}

/// Whether an event tells the client of a failure.
pub open spec fn is_error_event(
    event: ServerMessage,
    request_id: Option<String>,
    execution_id: Option<String>,
    fault: Fault,
) -> bool {
    &&& event matches ServerMessage::Error { request_id: request, execution_id: execution, error }
    &&& request == request_id
    &&& execution == execution_id
    &&& reports(error, fault)
}

/// The event that tells the client of a failure.
pub fn error_event(
    request_id: Option<String>,
    execution_id: Option<String>,
    error: &SandboxError,
) -> (r: ServerMessage)
    ensures
        is_error_event(r, request_id, execution_id, error@),
{
    ServerMessage::Error { request_id, execution_id, error: error.protocol_error() }
}

/// A control with the same contents.
fn copy_control(control: &ExecutionControl) -> (r: ExecutionControl)
    ensures
        r == *control,
{
    ExecutionControl {
        sandbox_id: control.sandbox_id.clone(),
        stdin_open: control.stdin_open,
        next_stdin_sequence: control.next_stdin_sequence,
        cancel: control.cancel,
    }
}

/// A control that was told to stop, where it belongs to the sandbox; to any where none is given.
pub open spec fn stopped(
    control: ExecutionControl,
    sandbox: Option<Seq<char>>,
    reason: CancelReason,
) -> ExecutionControl {
    if sandbox is None || sandbox == Some(control.sandbox_id@) {
        ExecutionControl { cancel: Some(reason), ..control }
    } else {
        control
    }
}

/// Why the client's stdin is not taken, given the piece of input that its text stands for.
pub open spec fn stdin_fault(
    executions: Map<Seq<char>, ExecutionControl>,
    execution_id: Seq<char>,
    sequence: u64,
    chunk: Option<Seq<u8>>,
) -> Option<Fault> {
    if !executions.contains_key(execution_id) {
        Some(Fault::Protocol("unknown execution ID"@))
    } else if !(chunk matches Some(bytes) && bytes.len() <= MAX_STDIN_CHUNK_BYTES) {
        Some(Fault::Protocol("invalid or oversized stdin chunk"@))
    } else if sequence != executions[execution_id].next_stdin_sequence {
        Some(
            Fault::Protocol(
                "stdin sequence mismatch: expected "@ + decimal(
                    executions[execution_id].next_stdin_sequence as nat,
                ),
            ),
        )
    } else if !executions[execution_id].stdin_open {
        Some(Fault::Protocol("execution stdin is closed"@))
    } else {
        None
    }
}

/// Whether only executions have changed.
pub open spec fn only_executions_changed(before: Daemon, after: Daemon) -> bool {
    &&& after.sandboxes == before.sandboxes
    &&& after.backend == before.backend
    &&& after.report == before.report
}

/// Whether the client is told in this way of the start of an execution that went so; one that did
/// not start is forgotten.
pub open spec fn starts(
    before: Daemon,
    execution_id: String,
    stdin_mode: StdinMode,
    status: EnforcementStatus,
    stdin: Result<bool, SandboxError>,
    event: ServerMessage,
    after: Daemon,
) -> bool {
    &&& only_executions_changed(before, after)
    &&& match stdin {
        Err(error) => {
            &&& after.executions@ == before.executions@.remove(execution_id@)
            &&& is_error_event(event, None, Some(execution_id), error@)
        },
        Ok(present) => {
            &&& after.executions@ == if before.executions@.contains_key(execution_id@) && stdin_mode
                == StdinMode::Pipe {
                before.executions@.insert(
                    execution_id@,
                    ExecutionControl {
                        stdin_open: present,
                        ..before.executions@[execution_id@]
                    },
                )
            } else {
                before.executions@
            }
            &&& event == (ServerMessage::Started { execution_id, status })
        },
    }
}

/// Whether this is how the end of an execution is reported, and what is still to be done about it.
/// Its input is closed.
pub open spec fn ends(
    before: Daemon,
    execution_id: String,
    outcome: ExecutionOutcome,
    ending: Ending,
    after: Daemon,
) -> bool {
    &&& only_executions_changed(before, after)
    &&& after.executions@ == if before.executions@.contains_key(execution_id@) {
        before.executions@.insert(
            execution_id@,
            ExecutionControl { stdin_open: false, ..before.executions@[execution_id@] },
        )
    } else {
        before.executions@
    }
    &&& match outcome {
        ExecutionOutcome::Status(Ok(code)) => ending.event is None && !ending.terminate
            && ending.code == Some(code) && ending.signal is None,
        ExecutionOutcome::Status(Err(error)) => {
            &&& ending.event matches Some(event) && is_error_event(
                event,
                None,
                Some(execution_id),
                Fault::Process("failed while waiting for process: "@ + error@.message()),
            )
            &&& !ending.terminate
            &&& ending.code is None
            &&& ending.signal matches Some(signal) && signal@ == "wait-failed"@
        },
        ExecutionOutcome::Cancelled(reason) => {
            &&& ending.event is None
            &&& ending.terminate
            &&& ending.code is None
            &&& ending.signal matches Some(signal) && signal@ == reason.name()
        },
    }
}

/// Whether the client is told in this way of an execution that is over. It is forgotten.
pub open spec fn exits(
    before: Daemon,
    execution_id: String,
    code: Option<i32>,
    signal: Option<String>,
    output_bytes: u64,
    event: ServerMessage,
    after: Daemon,
) -> bool {
    &&& only_executions_changed(before, after)
    &&& after.executions@ == before.executions@.remove(execution_id@)
    &&& event matches ServerMessage::Exit { execution_id: id, code: exit, signal: name, usage }
        && id == execution_id && exit == code && name == signal && usage@ == Map::<
        Seq<char>,
        u64,
    >::empty().insert("outputBytes"@, output_bytes)
}

/// Whether this is what a daemon that shuts down leaves behind: every sandbox is taken out, and
/// every execution is told to stop.
pub open spec fn shuts_down(
    before: Daemon,
    reason: CancelReason,
    closedown: Closedown,
    after: Daemon,
) -> bool {
    &&& after.backend == before.backend
    &&& after.report == before.report
    &&& after.sandboxes@ == Map::<Seq<char>, PreparedSandbox>::empty()
    &&& after.executions@ == before.executions@.map_values(
        |control: ExecutionControl| stopped(control, None, reason),
    )
    &&& closedown.records@.map_values(|e: (String, PreparedSandbox)| (e.0@, e.1))
        == before.sandboxes.pairs()
    &&& forall|id: Seq<char>| #[trigger]
        texts(closedown.cancelled@).contains(id) <==> before.executions@.contains_key(id)
}

/// The number behind a number; behind the greatest comes zero.
pub open spec fn next_number(n: u64) -> u64 {
    if n == u64::MAX {
        0
    } else {
        (n + 1) as u64
    }
}

impl Daemon {
    /// What holds of a daemon at every moment: without a backend there are no sandboxes, and the
    /// policy of every sandbox is well formed.
    pub open spec fn wf(self) -> bool {
        &&& self.backend is None ==> self.sandboxes@ == Map::<Seq<char>, PreparedSandbox>::empty()
        &&& forall|id: Seq<char>| #[trigger]
            self.sandboxes@.contains_key(id) ==> self.sandboxes@[id].policy.wf()
        &&& forall|id: Seq<char>| #[trigger]
            self.executions@.contains_key(id) ==> is_identifier(id)
    }

    /// A daemon for what was found on the host.
    pub fn new(discovered: Result<NativeBackend, SandboxError>, os: &str) -> (r: Self)
        ensures
            match discovered {
                Ok(backend) => r.backend == Some(backend) && match backend.platform {
                    Platform::Windows => windows_backend::is_report(r.report),
                    Platform::Unix => is_unavailable_report(
                        r.report,
                        backend.os@,
                        crate::native::not_implemented(backend.os@),
                    ),
                },
                Err(error) => r.backend is None && is_unavailable_report(
                    r.report,
                    os@,
                    error@.message(),
                ),
            },
            r.sandboxes@ == Map::<Seq<char>, PreparedSandbox>::empty(),
            r.executions@ == Map::<Seq<char>, ExecutionControl>::empty(),
            r.wf(),
    {
        match discovered {
            Ok(backend) => {
                let report = backend.report();
                Daemon {
                    backend: Some(backend),
                    report,
                    sandboxes: StringMap::new(),
                    executions: StringMap::new(),
                }
            },
            Err(error) => Daemon {
                backend: None,
                report: NativeBackend::unavailable_report(os, &error.message()),
                sandboxes: StringMap::new(),
                executions: StringMap::new(),
            },
        }
    }

    /// What the daemon says where it has no backend: the first reason of its report.
    pub open spec fn no_backend(self) -> Fault {
        Fault::BackendUnavailable(
            if self.report.reasons@.len() > 0 {
                self.report.reasons@[0]@
            } else {
                "isolation backend is unavailable"@
            },
        )
    }

    /// Why a request in the name of a tenant is refused.
    pub open spec fn admission_fault(self, tenant: Seq<char>, authorization: Seq<char>) -> Option<
        Fault,
    > {
        first_fault(
            seq![
                identifier_fault("tenantId"@, tenant),
                identifier_fault("authorizationId"@, authorization),
                if self.backend is None {
                    Some(self.no_backend())
                } else {
                    None
                },
            ],
        )
    }

    /// Whether a request in the name of a tenant can be served at all.
    pub fn check_admission(&self, tenant_id: &str, authorization_id: &str) -> (r: Result<
        (),
        SandboxError,
    >)
        ensures
            failure(r) == self.admission_fault(tenant_id@, authorization_id@),
            r is Ok ==> self.backend is Some,
    {
        let ghost faults = seq![
            identifier_fault("tenantId"@, tenant_id@),
            identifier_fault("authorizationId"@, authorization_id@),
            if self.backend is None {
                Some(self.no_backend())
            } else {
                None
            },
        ];
        match validate_identifier("tenantId", tenant_id) {
            Ok(()) => {},
            Err(error) => {
                proof {
                    lemma_first_fault_at(faults, 0);
                }
                return Err(error);
            },
        }
        match validate_identifier("authorizationId", authorization_id) {
            Ok(()) => {},
            Err(error) => {
                proof {
                    lemma_first_fault_at(faults, 1);
                }
                return Err(error);
            },
        }
        match &self.backend {
            Some(_) => {
                proof {
                    lemma_no_fault(faults);
                }
                Ok(())
            },
            None => {
                proof {
                    lemma_first_fault_at(faults, 2);
                }
                if self.report.reasons.len() > 0 {
                    Err(SandboxError::BackendUnavailable(self.report.reasons[0].clone()))
                } else {
                    Err(SandboxError::backend_unavailable("isolation backend is unavailable"))
                }
            },
        }
    }

    /// Why a sandbox is not created, before the host prepares anything.
    pub open spec fn creation_fault(
        self,
        tenant: Seq<char>,
        profile: Seq<char>,
        authorization: Seq<char>,
        policy: SandboxPolicy,
        host: HostFacts,
    ) -> Option<Fault> {
        let admission = self.admission_fault(tenant, authorization);
        if admission is Some {
            admission
        } else if policy_fault(policy, host) is Some {
            policy_fault(policy, host)
        } else {
            profile_fault(profile)
        }
    }

    /// Validates a request for a sandbox. The host then prepares it.
    pub fn begin_sandbox(
        &self,
        tenant_id: &str,
        profile_id: &str,
        authorization_id: &str,
        policy: SandboxPolicy,
        host: &HostFacts,
    ) -> (r: Result<(ValidatedPolicy, ProfileSpec), SandboxError>)
        requires
            covers(policy, *host),
        ensures
            failure(r) == self.creation_fault(
                tenant_id@,
                profile_id@,
                authorization_id@,
                policy,
                *host,
            ),
            r matches Ok((validated, profile)) ==> validates(validated, policy, *host)
                && validated.wf() && profile.id@ == profile_id@,
    {
        match self.check_admission(tenant_id, authorization_id) {
            Ok(()) => {},
            Err(error) => {
                return Err(error);
            },
        }
        let validated = match ValidatedPolicy::new(policy, host) {
            Ok(validated) => validated,
            Err(error) => {
                return Err(error);
            },
        };
        match ProfileSpec::trusted(profile_id) {
            Ok(profile) => Ok((validated, profile)),
            Err(error) => Err(error),
        }
    }

    /// The fingerprint of a sandbox: of what it may do, and in whose name.
    pub open spec fn sandbox_fingerprint(
        prepared: PreparedSandbox,
        tenant: Seq<char>,
        authorization: Seq<char>,
    ) -> Seq<char> {
        fingerprint_of(
            encode_utf8(prepared.fingerprint@) + encode_utf8(tenant) + encode_utf8(authorization),
        )
    }

    /// Takes a prepared sandbox in, and tells the client.
    pub fn create_sandbox(
        &mut self,
        request_id: String,
        sandbox_id: String,
        tenant_id: &str,
        authorization_id: &str,
        prepared: PreparedSandbox,
    ) -> (r: ServerMessage)
        ensures
            final(self).sandboxes@.dom() == old(self).sandboxes@.dom().insert(sandbox_id@),
            forall|id: Seq<char>|
                old(self).sandboxes@.contains_key(id) && id != sandbox_id@
                    ==> #[trigger] final(self).sandboxes@[id] == old(self).sandboxes@[id],
            final(self).sandboxes@[sandbox_id@] == (PreparedSandbox {
                fingerprint: final(self).sandboxes@[sandbox_id@].fingerprint,
                ..prepared
            }),
            final(self).sandboxes@[sandbox_id@].fingerprint@ == Self::sandbox_fingerprint(
                prepared,
                tenant_id@,
                authorization_id@,
            ),
            final(self).executions == old(self).executions,
            final(self).backend == old(self).backend,
            final(self).report == old(self).report,
            old(self).wf() && old(self).backend is Some && prepared.policy.wf()
                ==> final(self).wf(),
            r matches ServerMessage::SandboxCreated {
                request_id: request,
                sandbox_id: id,
                status,
                mounts,
                policy_fingerprint,
                capabilities,
            } && request == request_id && id == sandbox_id && status == prepared.report.status
                && mounts@ == prepared.policy.mounts@.map_values(
                |mount: ValidatedMount| mount.destination,
            ) && policy_fingerprint@ == Self::sandbox_fingerprint(
                prepared,
                tenant_id@,
                authorization_id@,
            ) && same_report(capabilities, prepared.report),
    {
        let mut prepared = prepared;
        let fingerprint = fingerprint_of_texts(&prepared.fingerprint, tenant_id, authorization_id);
        prepared.fingerprint = fingerprint.clone();
        let mounts = prepared.policy.logical_mounts();
        let status = prepared.report.status;
        let capabilities = prepared.report.duplicate();
        let ghost before = self.sandboxes@;
        self.sandboxes.insert(sandbox_id.clone(), prepared);
        proof {
            assert(self.sandboxes@.dom() =~= before.dom().insert(sandbox_id@));
        }
        ServerMessage::SandboxCreated {
            request_id,
            sandbox_id,
            status,
            mounts,
            policy_fingerprint: fingerprint,
            capabilities,
        }
    }

    /// Why an execution is refused.
    pub open spec fn spawn_fault(
        self,
        sandbox_id: Seq<char>,
        execution_id: Seq<char>,
        command: CommandSpec,
        cwd: LogicalPath,
        env: StringMap<String>,
        limits: ExecutionLimits,
    ) -> Option<Fault> {
        if identifier_fault("executionId"@, execution_id) is Some {
            identifier_fault("executionId"@, execution_id)
        } else if self.backend is None {
            Some(Fault::BackendUnavailable("isolation backend is unavailable"@))
        } else if !self.sandboxes@.contains_key(sandbox_id) {
            Some(Fault::Protocol("unknown or closed sandbox ID"@))
        } else {
            let policy = self.sandboxes@[sandbox_id].policy;
            if policy.execution_fault(command, cwd, env, limits) is Some {
                policy.execution_fault(command, cwd, env, limits)
            } else if self.executions@.contains_key(execution_id) {
                Some(Fault::Protocol("duplicate execution ID"@))
            } else {
                None
            }
        }
    }

    /// Checks a request for an execution against its sandbox.
    fn check_spawn(
        &self,
        sandbox_id: &str,
        execution_id: &str,
        command: CommandSpec,
        cwd: LogicalPath,
        env: StringMap<String>,
        limits: ExecutionLimits,
    ) -> (r: Result<ValidatedExecution, SandboxError>)
        ensures
            failure(r) == self.spawn_fault(
                sandbox_id@,
                execution_id@,
                command,
                cwd,
                env,
                limits,
            ),
            r matches Ok(execution) ==> self.sandboxes@[sandbox_id@].policy.grants(
                execution,
                command,
                cwd,
                env,
                limits,
            ),
    {
        match validate_identifier("executionId", execution_id) {
            Ok(()) => {},
            Err(error) => {
                return Err(error);
            },
        }
        match &self.backend {
            Some(_) => {},
            None => {
                return Err(SandboxError::backend_unavailable("isolation backend is unavailable"));
            },
        }
        let prepared = match self.sandboxes.get(sandbox_id) {
            Some(prepared) => prepared,
            None => {
                return Err(SandboxError::protocol("unknown or closed sandbox ID"));
            },
        };
        let execution = match prepared.policy.validate_execution(command, cwd, env, limits) {
            Ok(execution) => execution,
            Err(error) => {
                return Err(error);
            },
        };
        if self.executions.contains_key(execution_id) {
            return Err(SandboxError::protocol("duplicate execution ID"));
        }
        Ok(execution)
    }

    /// Queues an execution, or tells the client why not. On success the first part is what the
    /// client is told.
    pub fn spawn_execution(
        &mut self,
        request_id: String,
        sandbox_id: String,
        execution_id: String,
        command: CommandSpec,
        cwd: LogicalPath,
        env: StringMap<String>,
        limits: ExecutionLimits,
    ) -> (r: Result<(ServerMessage, ValidatedExecution), ServerMessage>)
        ensures
            match old(self).spawn_fault(
                sandbox_id@,
                execution_id@,
                command,
                cwd,
                env,
                limits,
            ) {
                Some(fault) => {
                    &&& *final(self) == *old(self)
                    &&& r matches Err(event) && is_error_event(
                        event,
                        Some(request_id),
                        Some(execution_id),
                        fault,
                    )
                },
                None => {
                    &&& final(self).executions@ == old(self).executions@.insert(
                        execution_id@,
                        ExecutionControl {
                            sandbox_id,
                            stdin_open: false,
                            next_stdin_sequence: 1,
                            cancel: None,
                        },
                    )
                    &&& final(self).sandboxes == old(self).sandboxes
                    &&& final(self).backend == old(self).backend
                    &&& final(self).report == old(self).report
                    &&& r matches Ok((event, execution)) && event == (ServerMessage::Queued {
                        request_id,
                        execution_id,
                        position: 0,
                    }) && old(self).sandboxes@[sandbox_id@].policy.grants(
                        execution,
                        command,
                        cwd,
                        env,
                        limits,
                    )
                },
            },
            old(self).wf() ==> final(self).wf(),
    {
        match self.check_spawn(&sandbox_id, &execution_id, command, cwd, env, limits) {
            Err(error) => Err(error_event(Some(request_id), Some(execution_id), &error)),
            Ok(execution) => {
                let control = ExecutionControl {
                    sandbox_id,
                    stdin_open: false,
                    next_stdin_sequence: 1,
                    cancel: None,
                };
                self.executions.insert(execution_id.clone(), control);
                Ok((ServerMessage::Queued { request_id, execution_id, position: 0 }, execution))
            },
        }
    }

    /// Takes note of how the start of an execution went, and tells the client. `stdin` says
    /// whether the process has an input to write to.
    pub fn execution_started(
        &mut self,
        execution_id: String,
        stdin_mode: StdinMode,
        status: EnforcementStatus,
        stdin: Result<bool, SandboxError>,
    ) -> (r: ServerMessage)
        ensures
            starts(*old(self), execution_id, stdin_mode, status, stdin, r, *final(self)),
            old(self).wf() ==> final(self).wf(),
    {
        match stdin {
            Err(error) => {
                let _ = self.executions.remove(&execution_id);
                error_event(None, Some(execution_id), &error)
            },
            Ok(present) => {
                if stdin_mode == StdinMode::Pipe {
                    self.set_stdin(&execution_id, present);
                }
                ServerMessage::Started { execution_id, status }
            },
        }
    }

    /// Opens or closes the input of an execution.
    fn set_stdin(&mut self, execution_id: &str, open: bool) -> (r: bool)
        ensures
            r == (old(self).executions@.contains_key(execution_id@)
                && old(self).executions@[execution_id@].stdin_open),
            final(self).executions@ == if old(self).executions@.contains_key(execution_id@) {
                old(self).executions@.insert(
                    execution_id@,
                    ExecutionControl {
                        stdin_open: open,
                        ..old(self).executions@[execution_id@]
                    },
                )
            } else {
                old(self).executions@
            },
            final(self).sandboxes == old(self).sandboxes,
            final(self).backend == old(self).backend,
            final(self).report == old(self).report,
    {
        let updated = match self.executions.get(execution_id) {
            Some(control) => {
                let mut updated = copy_control(control);
                let was_open = updated.stdin_open;
                updated.stdin_open = open;
                (updated, was_open)
            },
            None => {
                return false;
            },
        };
        self.executions.insert(execution_id.to_owned(), updated.0);
        updated.1
    }

    /// What the end of an execution amounts to: how it is reported, and what is still to be done.
    pub fn execution_ended(&mut self, execution_id: &String, outcome: ExecutionOutcome) -> (r:
        Ending)
        ensures
            ends(*old(self), *execution_id, outcome, r, *final(self)),
            old(self).wf() ==> final(self).wf(),
    {
        let _ = self.set_stdin(execution_id, false);
        match outcome {
            ExecutionOutcome::Status(Ok(code)) => Ending {
                event: None,
                terminate: false,
                code: Some(code),
                signal: None,
            },
            ExecutionOutcome::Status(Err(error)) => {
                let failure = SandboxError::Process(
                    concat("failed while waiting for process: ", &error.message()),
                );
                Ending {
                    event: Some(error_event(None, Some(execution_id.clone()), &failure)),
                    terminate: false,
                    code: None,
                    signal: Some("wait-failed".to_owned()),
                }
            },
            ExecutionOutcome::Cancelled(reason) => Ending {
                event: None,
                terminate: true,
                code: None,
                signal: Some(reason.signal().to_owned()),
            },
        }
    }

    /// Forgets an execution whose output has been sent, and tells the client.
    pub fn execution_exited(
        &mut self,
        execution_id: String,
        code: Option<i32>,
        signal: Option<String>,
        output_bytes: u64,
    ) -> (r: ServerMessage)
        ensures
            exits(*old(self), execution_id, code, signal, output_bytes, r, *final(self)),
            old(self).wf() ==> final(self).wf(),
    {
        let mut usage: StringMap<u64> = StringMap::new();
        usage.insert("outputBytes".to_owned(), output_bytes);
        let _ = self.executions.remove(&execution_id);
        ServerMessage::Exit { execution_id, code, signal, usage }
    }

    /// Whether a piece of input is taken, given what its text stands for.
    pub fn check_stdin(&self, execution_id: &str, sequence: u64, chunk: Option<Vec<u8>>) -> (r:
        Result<Vec<u8>, SandboxError>)
        ensures
            failure(r) == stdin_fault(
                self.executions@,
                execution_id@,
                sequence,
                match chunk {
                    Some(bytes) => Some(bytes@),
                    None => None,
                },
            ),
            r matches Ok(taken) ==> chunk == Some(taken),
    {
        let control = match self.executions.get(execution_id) {
            Some(control) => control,
            None => {
                return Err(SandboxError::protocol("unknown execution ID"));
            },
        };
        let bytes = match chunk {
            Some(bytes) => bytes,
            None => {
                return Err(SandboxError::protocol("invalid or oversized stdin chunk"));
            },
        };
        if bytes.len() > MAX_STDIN_CHUNK_BYTES {
            return Err(SandboxError::protocol("invalid or oversized stdin chunk"));
        }
        if sequence != control.next_stdin_sequence {
            return Err(
                SandboxError::Protocol(
                    concat(
                        "stdin sequence mismatch: expected ",
                        &decimal_text(control.next_stdin_sequence),
                    ),
                ),
            );
        }
        if !control.stdin_open {
            return Err(SandboxError::protocol("execution stdin is closed"));
        }
        Ok(bytes)
    }

    /// The bytes to write to an execution, or what the client is told instead.
    pub fn write_stdin(&self, execution_id: &String, sequence: u64, encoded: &str) -> (r: Result<
        Vec<u8>,
        ServerMessage,
    >)
        ensures
            match stdin_fault(
                self.executions@,
                execution_id@,
                sequence,
                base64_decoded(encoded@),
            ) {
                Some(fault) => r matches Err(event) && is_error_event(
                    event,
                    None,
                    Some(*execution_id),
                    fault,
                ),
                None => r matches Ok(bytes) && base64_decoded(encoded@) == Some(bytes@),
            },
    {
        match self.check_stdin(execution_id, sequence, decode_base64(encoded)) {
            Ok(bytes) => Ok(bytes),
            Err(error) => Err(error_event(None, Some(execution_id.clone()), &error)),
        }
    }

    /// Takes note of how writing went. A piece that was written is not taken a second time.
    pub fn stdin_written(&mut self, execution_id: &String, written: Result<(), String>) -> (r:
        Option<ServerMessage>)
        ensures
            match written {
                Ok(()) => r is None && final(self).executions@
                    == if old(self).executions@.contains_key(execution_id@) {
                    old(self).executions@.insert(
                        execution_id@,
                        ExecutionControl {
                            next_stdin_sequence: next_number(
                                old(self).executions@[execution_id@].next_stdin_sequence,
                            ),
                            ..old(self).executions@[execution_id@]
                        },
                    )
                } else {
                    old(self).executions@
                },
                Err(reason) => final(self).executions@ == old(self).executions@ && (
                r matches Some(event) && is_error_event(
                    event,
                    None,
                    Some(*execution_id),
                    Fault::Process("failed to write stdin: "@ + reason@),
                )),
            },
            final(self).sandboxes == old(self).sandboxes,
            final(self).backend == old(self).backend,
            final(self).report == old(self).report,
            old(self).wf() ==> final(self).wf(),
    {
        match written {
            Err(reason) => {
                let error = SandboxError::Process(concat("failed to write stdin: ", &reason));
                Some(error_event(None, Some(execution_id.clone()), &error))
            },
            Ok(()) => {
                let updated = match self.executions.get(execution_id) {
                    Some(control) => {
                        let mut updated = copy_control(control);
                        updated.next_stdin_sequence = updated.next_stdin_sequence.wrapping_add(1);
                        updated
                    },
                    None => {
                        return None;
                    },
                };
                self.executions.insert(execution_id.clone(), updated);
                None
            },
        }
    }

    /// Closes the input of an execution. Returns whether there was one to close.
    pub fn close_stdin(&mut self, execution_id: &str) -> (r: bool)
        ensures
            r == (old(self).executions@.contains_key(execution_id@)
                && old(self).executions@[execution_id@].stdin_open),
            final(self).executions@ == if old(self).executions@.contains_key(execution_id@) {
                old(self).executions@.insert(
                    execution_id@,
                    ExecutionControl {
                        stdin_open: false,
                        ..old(self).executions@[execution_id@]
                    },
                )
            } else {
                old(self).executions@
            },
            final(self).sandboxes == old(self).sandboxes,
            final(self).backend == old(self).backend,
            final(self).report == old(self).report,
            old(self).wf() ==> final(self).wf(),
    {
        self.set_stdin(execution_id, false)
    }

    /// Tells an execution to stop. Returns the reason that it is given, if there is such an
    /// execution.
    pub fn signal(&mut self, execution_id: &str, signal: SignalKind) -> (r: Option<CancelReason>)
        ensures
            r == if old(self).executions@.contains_key(execution_id@) {
                Some(
                    match signal {
                        SignalKind::Terminate => CancelReason::Terminate,
                        SignalKind::Kill => CancelReason::Kill,
                    },
                )
            } else {
                None
            },
            final(self).executions@ == if old(self).executions@.contains_key(execution_id@) {
                old(self).executions@.insert(
                    execution_id@,
                    ExecutionControl { cancel: r, ..old(self).executions@[execution_id@] },
                )
            } else {
                old(self).executions@
            },
            final(self).sandboxes == old(self).sandboxes,
            final(self).backend == old(self).backend,
            final(self).report == old(self).report,
            old(self).wf() ==> final(self).wf(),
    {
        let reason = match signal {
            SignalKind::Terminate => CancelReason::Terminate,
            SignalKind::Kill => CancelReason::Kill,
        };
        let updated = match self.executions.get(execution_id) {
            Some(control) => {
                let mut updated = copy_control(control);
                updated.cancel = Some(reason);
                updated
            },
            None => {
                return None;
            },
        };
        self.executions.insert(execution_id.to_owned(), updated);
        Some(reason)
    }

    /// Tells the executions of a sandbox, or all executions, to stop. Returns their identifiers.
    fn cancel_all(&mut self, sandbox: Option<&str>, reason: CancelReason) -> (r: Vec<String>)
        ensures
            final(self).executions@ == old(self).executions@.map_values(
                |control: ExecutionControl|
                    stopped(
                        control,
                        match sandbox {
                            Some(id) => Some(id@),
                            None => None,
                        },
                        reason,
                    ),
            ),
            forall|id: Seq<char>| #[trigger]
                texts(r@).contains(id) <==> old(self).executions@.contains_key(id)
                    && match sandbox {
                    Some(wanted) => old(self).executions@[id].sandbox_id@ == wanted@,
                    None => true,
                },
            final(self).sandboxes == old(self).sandboxes,
            final(self).backend == old(self).backend,
            final(self).report == old(self).report,
    {
        let ghost wanted = match sandbox {
            Some(id) => Some(id@),
            None => None,
        };
        let ghost change = |control: ExecutionControl| stopped(control, wanted, reason);
        let ghost pairs = self.executions.pairs();
        let count: usize = self.executions.len();
        let mut updated: StringMap<ExecutionControl> = StringMap::new();
        let mut cancelled: Vec<String> = Vec::new();
        let mut i: usize = 0;
        proof {
            lemma_walk_start(pairs);
            assert(updated@ =~= map_of(pairs.take(0)).map_values(change));
            assert(texts(cancelled@) =~= Seq::<Seq<char>>::empty());
        }
        while i < count
            invariant
                i <= count == pairs.len(),
                pairs == self.executions.pairs(),
                ascending(pairs),
                self.executions == old(self).executions,
                self.sandboxes == old(self).sandboxes,
                self.backend == old(self).backend,
                self.report == old(self).report,
                wanted == match sandbox {
                    Some(id) => Some(id@),
                    None => None,
                },
                change == |control: ExecutionControl| stopped(control, wanted, reason),
                updated@ == map_of(pairs.take(i as int)).map_values(change),
                forall|id: Seq<char>| #[trigger]
                    texts(cancelled@).contains(id) <==> map_of(
                        pairs.take(i as int),
                    ).contains_key(id) && (wanted is None || wanted == Some(
                        map_of(pairs.take(i as int))[id].sandbox_id@,
                    )),
            decreases count - i,
        {
            let id = self.executions.key_at(i);
            let control = self.executions.value_at(i);
            let mut copy = copy_control(control);
            let affected = match sandbox {
                Some(wanted_id) => same_text(&control.sandbox_id, wanted_id),
                None => true,
            };
            let ghost before = texts(cancelled@);
            let ghost fewer = map_of(pairs.take(i as int));
            let ghost more = map_of(pairs.take(i as int + 1));
            proof {
                lemma_walk(pairs, i as int);
            }
            if affected {
                copy.cancel = Some(reason);
                cancelled.push(id.clone());
                assert(texts(cancelled@) =~= before.push(id@));
            }
            updated.insert(id.clone(), copy);
            proof {
                assert(copy == stopped(*control, wanted, reason));
                assert(updated@ =~= more.map_values(change));
                let after = texts(cancelled@);
                assert forall|key: Seq<char>| #[trigger]
                    after.contains(key) <==> more.contains_key(key) && (wanted is None || wanted
                        == Some(more[key].sandbox_id@)) by {
                    assert(before.contains(key) <==> fewer.contains_key(key) && (wanted is None
                        || wanted == Some(fewer[key].sandbox_id@)));
                    if before.contains(key) {
                        let k = choose|k: int| 0 <= k < before.len() && before[k] == key;
                        assert(after[k] == key);
                    }
                    if after.contains(key) {
                        let k = choose|k: int| 0 <= k < after.len() && after[k] == key;
                        if k < before.len() {
                            assert(before[k] == key);
                        }
                    }
                    if affected && key == id@ {
                        assert(after[before.len() as int] == key);
                    }
                }
            }
            i = i + 1;
        }
        proof {
            lemma_walk_end(pairs);
        }
        self.executions = updated;
        cancelled
    }

    /// Closes a sandbox: no new execution finds it, and its executions are told to stop.
    pub fn close_sandbox(&mut self, request_id: &String, sandbox_id: &str) -> (r: Result<
        Closing,
        ServerMessage,
    >)
        ensures
            if old(self).sandboxes@.contains_key(sandbox_id@) {
                &&& final(self).sandboxes@ == old(self).sandboxes@.remove(sandbox_id@)
                &&& final(self).executions@ == old(self).executions@.map_values(
                    |control: ExecutionControl|
                        stopped(control, Some(sandbox_id@), CancelReason::SandboxClosed),
                )
                &&& r matches Ok(closing) && closing.record == old(self).sandboxes@[sandbox_id@]
                    && forall|id: Seq<char>| #[trigger]
                    texts(closing.cancelled@).contains(id) <==> old(self).executions@.contains_key(id)
                        && old(self).executions@[id].sandbox_id@ == sandbox_id@
            } else {
                &&& *final(self) == *old(self)
                &&& r matches Err(event) && is_error_event(
                    event,
                    Some(*request_id),
                    None,
                    Fault::Protocol("unknown or already closed sandbox ID"@),
                )
            },
            final(self).backend == old(self).backend,
            final(self).report == old(self).report,
            old(self).wf() ==> final(self).wf(),
    {
        match self.sandboxes.remove(sandbox_id) {
            Some(record) => {
                let cancelled = self.cancel_all(Some(sandbox_id), CancelReason::SandboxClosed);
                Ok(Closing { record, cancelled })
            },
            None => {
                let error = SandboxError::protocol("unknown or already closed sandbox ID");
                Err(error_event(Some(request_id.clone()), None, &error))
            },
        }
    }

    /// Whether every execution of a sandbox has ended.
    pub fn sandbox_is_idle(&self, sandbox_id: &str) -> (r: bool)
        ensures
            r == is_idle_sandbox(*self, sandbox_id@),
    {
        let ghost pairs = self.executions.pairs();
        let count: usize = self.executions.len();
        let mut i: usize = 0;
        while i < count
            invariant
                i <= count == pairs.len(),
                pairs == self.executions.pairs(),
                ascending(pairs),
                self.executions@ == map_of(pairs),
                forall|j: int| 0 <= j < i ==> (#[trigger] pairs[j]).1.sandbox_id@ != sandbox_id@,
            decreases count - i,
        {
            let control = self.executions.value_at(i);
            if same_text(&control.sandbox_id, sandbox_id) {
                proof {
                    lemma_pair_in_map(pairs, i as int);
                    assert(self.executions@.contains_key(pairs[i as int].0));
                }
                return false;
            }
            i = i + 1;
        }
        proof {
            assert forall|id: Seq<char>| #[trigger] self.executions@.contains_key(id) implies
                self.executions@[id].sandbox_id@ != sandbox_id@ by {
                let p = position(pairs, id);
                assert(pairs[p].0 == id);
                lemma_pair_in_map(pairs, p);
            }
        }
        true
    }

    /// Whether every execution has ended.
    pub fn is_idle(&self) -> (r: bool)
        ensures
            r == (self.executions@ == Map::<Seq<char>, ExecutionControl>::empty()),
    {
        let count: usize = self.executions.len();
        proof {
            let pairs = self.executions.pairs();
            if pairs.len() == 0 {
                assert(self.executions@ =~= Map::<Seq<char>, ExecutionControl>::empty());
            } else {
                lemma_pair_in_map(pairs, 0);
                assert(self.executions@.contains_key(pairs[0].0));
            }
        }
        count == 0
    }

    /// Shuts down: every sandbox is taken out, and every execution is told to stop.
    pub fn shutdown(&mut self, reason: CancelReason) -> (r: Closedown)
        ensures
            shuts_down(*old(self), reason, r, *final(self)),
            old(self).wf() ==> final(self).wf(),
    {
        let records = self.sandboxes.drain();
        let ghost running = self.executions@;
        let cancelled = self.cancel_all(None, reason);
        proof {
            assert(self.executions@ =~= running.map_values(
                |control: ExecutionControl| stopped(control, None, reason),
            ));
        }
        Closedown { records, cancelled }
    }
}

/// What a look at executions that were told to stop leads to.
pub open spec fn drained(attempt: u32, idle: bool, last_look: bool) -> DrainStep {
    if attempt < DRAIN_ATTEMPTS {
        if idle {
            DrainStep::Idle
        } else {
            DrainStep::Wait
        }
    } else if idle && last_look {
        DrainStep::Idle
    } else {
        DrainStep::GiveUp
    }
}

/// What to do after a look at executions that were told to stop; `last_look` says whether a look
/// after the last wait counts.
pub fn drain_step(attempt: u32, idle: bool, last_look: bool) -> (r: DrainStep)
    ensures
        r == drained(attempt, idle, last_look),
{
    if attempt < DRAIN_ATTEMPTS {
        if idle {
            DrainStep::Idle
        } else {
            DrainStep::Wait
        }
    } else if idle && last_look {
        DrainStep::Idle
    } else {
        DrainStep::GiveUp
    }
}

/// What the client is told of a sandbox that was closed, given whether its processes ended and
/// how it was undone. Nothing may be undone while processes run.
pub fn close_outcome(
    request_id: String,
    sandbox_id: String,
    idle: bool,
    cleanup: Result<(), SandboxError>,
) -> (r: ServerMessage)
    ensures
        if !idle {
            is_error_event(
                r,
                Some(request_id),
                None,
                Fault::Internal(
                    "process tree did not terminate; ACL lease was retained for recovery"@,
                ),
            )
        } else {
            match cleanup {
                Ok(()) => r == (ServerMessage::SandboxClosed { request_id, sandbox_id }),
                Err(error) => is_error_event(r, Some(request_id), None, error@),
            }
        },
{
    if !idle {
        let error = SandboxError::Internal(
            "process tree did not terminate; ACL lease was retained for recovery".to_owned(),
        );
        return error_event(Some(request_id), None, &error);
    }
    match cleanup {
        Ok(()) => ServerMessage::SandboxClosed { request_id, sandbox_id },
        Err(error) => error_event(Some(request_id), None, &error),
    }
}

/// What the client is told of an authorization that it asked to retire.
pub fn revocation_outcome(
    request_id: String,
    authorization_id: String,
    revoked: Result<(), SandboxError>,
) -> (r: ServerMessage)
    ensures
        match revoked {
            Ok(()) => r == (ServerMessage::AuthorizationRevoked { request_id, authorization_id }),
            Err(error) => is_error_event(r, Some(request_id), None, error@),
        },
{
    match revoked {
        Ok(()) => ServerMessage::AuthorizationRevoked { request_id, authorization_id },
        Err(error) => error_event(Some(request_id), None, &error),
    }
}

/// Why an execution stopped that was told to: the latest reason that it was given, or that the
/// client is gone.
pub fn cancel_reason(told: bool, latest: Option<CancelReason>) -> (r: CancelReason)
    ensures
        r == match latest {
            Some(reason) if told => reason,
            _ => CancelReason::ClientClosed,
        },
{
    match latest {
        Some(reason) => if told {
            reason
        } else {
            CancelReason::ClientClosed
        },
        None => CancelReason::ClientClosed,
    }
}

/// What a message leads to.
#[derive(Debug)]
pub enum DaemonAction {
    /// The client is told something, and nothing else happens.
    Reply(ServerMessage),
    /// Nothing happens.
    Ignore,
    /// A sandbox is to be prepared.
    Prepare {
        request_id: String,
        tenant_id: String,
        profile: String,
        authorization_id: String,
        policy: SandboxPolicy,
    },
    /// The client is told that an execution is queued, and the execution is to be started.
    Run {
        event: ServerMessage,
        sandbox_id: String,
        execution_id: String,
        execution: ValidatedExecution,
        stdin: StdinMode,
    },
    /// Bytes are to be written to an execution.
    Write { execution_id: String, bytes: Vec<u8> },
    /// The input of an execution is to be closed.
    CloseInput { execution_id: String },
    /// An execution is to be stopped.
    Stop { execution_id: String, reason: CancelReason },
    /// A sandbox is to be undone once its executions have ended.
    Close { request_id: String, sandbox_id: String, closing: Closing },
    /// An authorization is to be retired.
    Retire { request_id: String, authorization: AuthorizationSpec },
    /// The daemon is to end once all executions have; a request for it is answered then.
    Shutdown { request_id: Option<String>, closedown: Closedown },
}

/// Whether a message, in a state of the daemon, leads to this action and this state.
pub open spec fn handles(
    before: Daemon,
    message: ClientMessage,
    action: DaemonAction,
    after: Daemon,
) -> bool {
    match message {
        ClientMessage::Hello { .. } => {
            &&& after == before
            &&& action matches DaemonAction::Reply(event) && is_error_event(
                event,
                None,
                None,
                Fault::Protocol("hello cannot be repeated"@),
            )
        },
        ClientMessage::Probe { request_id } => {
            &&& after == before
            &&& action matches DaemonAction::Reply(ServerMessage::ProbeResult {
                request_id: request,
                report,
            }) && request == request_id && same_report(report, before.report)
        },
        ClientMessage::CreateSandbox {
            request_id,
            tenant_id,
            profile,
            authorization_id,
            policy,
            metadata,
        } => {
            &&& after == before
            &&& match before.admission_fault(tenant_id@, authorization_id@) {
                Some(fault) => action matches DaemonAction::Reply(event) && is_error_event(
                    event,
                    Some(request_id),
                    None,
                    fault,
                ),
                None => action == (DaemonAction::Prepare {
                    request_id,
                    tenant_id,
                    profile,
                    authorization_id,
                    policy,
                }),
            }
        },
        ClientMessage::Spawn {
            request_id,
            sandbox_id,
            execution_id,
            command,
            cwd,
            env,
            stdin,
            limits,
        } => match before.spawn_fault(sandbox_id@, execution_id@, command, cwd, env, limits) {
            Some(fault) => {
                &&& after == before
                &&& action matches DaemonAction::Reply(event) && is_error_event(
                    event,
                    Some(request_id),
                    Some(execution_id),
                    fault,
                )
            },
            None => {
                &&& only_executions_changed(before, after)
                &&& after.executions@ == before.executions@.insert(
                    execution_id@,
                    ExecutionControl {
                        sandbox_id,
                        stdin_open: false,
                        next_stdin_sequence: 1,
                        cancel: None,
                    },
                )
                &&& action matches DaemonAction::Run {
                    event,
                    sandbox_id: sandbox,
                    execution_id: id,
                    execution,
                    stdin: mode,
                } && event == (ServerMessage::Queued { request_id, execution_id, position: 0 })
                    && sandbox == sandbox_id && id == execution_id && mode == stdin
                    && before.sandboxes@[sandbox_id@].policy.grants(
                    execution,
                    command,
                    cwd,
                    env,
                    limits,
                )
            },
        },
        ClientMessage::Stdin { execution_id, sequence, base64 } => {
            &&& after == before
            &&& match stdin_fault(
                before.executions@,
                execution_id@,
                sequence,
                base64_decoded(base64@),
            ) {
                Some(fault) => action matches DaemonAction::Reply(event) && is_error_event(
                    event,
                    None,
                    Some(execution_id),
                    fault,
                ),
                None => action matches DaemonAction::Write { execution_id: id, bytes } && id
                    == execution_id && base64_decoded(base64@) == Some(bytes@),
            }
        },
        ClientMessage::CloseStdin { execution_id } => {
            let known = before.executions@.contains_key(execution_id@);
            &&& only_executions_changed(before, after)
            &&& after.executions@ == if known {
                before.executions@.insert(
                    execution_id@,
                    ExecutionControl {
                        stdin_open: false,
                        ..before.executions@[execution_id@]
                    },
                )
            } else {
                before.executions@
            }
            &&& action == if known && before.executions@[execution_id@].stdin_open {
                DaemonAction::CloseInput { execution_id }
            } else {
                DaemonAction::Ignore
            }
        },
        ClientMessage::Signal { execution_id, signal } => {
            let reason = match signal {
                SignalKind::Terminate => CancelReason::Terminate,
                SignalKind::Kill => CancelReason::Kill,
            };
            &&& only_executions_changed(before, after)
            &&& if before.executions@.contains_key(execution_id@) {
                &&& after.executions@ == before.executions@.insert(
                    execution_id@,
                    ExecutionControl {
                        cancel: Some(reason),
                        ..before.executions@[execution_id@]
                    },
                )
                &&& action == (DaemonAction::Stop { execution_id, reason })
            } else {
                &&& after.executions@ == before.executions@
                &&& action == DaemonAction::Ignore
            }
        },
        ClientMessage::CloseSandbox { request_id, sandbox_id } => {
            &&& after.backend == before.backend
            &&& after.report == before.report
            &&& if before.sandboxes@.contains_key(sandbox_id@) {
                &&& after.sandboxes@ == before.sandboxes@.remove(sandbox_id@)
                &&& after.executions@ == before.executions@.map_values(
                    |control: ExecutionControl|
                        stopped(control, Some(sandbox_id@), CancelReason::SandboxClosed),
                )
                &&& action matches DaemonAction::Close {
                    request_id: request,
                    sandbox_id: id,
                    closing,
                } && request == request_id && id == sandbox_id && closing.record
                    == before.sandboxes@[sandbox_id@] && forall|id: Seq<char>| #[trigger]
                    texts(closing.cancelled@).contains(id) <==> before.executions@.contains_key(id)
                        && before.executions@[id].sandbox_id@ == sandbox_id@
            } else {
                &&& after == before
                &&& action matches DaemonAction::Reply(event) && is_error_event(
                    event,
                    Some(request_id),
                    None,
                    Fault::Protocol("unknown or already closed sandbox ID"@),
                )
            }
        },
        ClientMessage::RevokeAuthorization { request_id, tenant_id, authorization_id } => {
            &&& after == before
            &&& match before.admission_fault(tenant_id@, authorization_id@) {
                Some(fault) => action matches DaemonAction::Reply(event) && is_error_event(
                    event,
                    Some(request_id),
                    None,
                    fault,
                ),
                None => action == (DaemonAction::Retire {
                    request_id,
                    authorization: AuthorizationSpec { tenant_id, authorization_id },
                }),
            }
        },
        ClientMessage::Shutdown { request_id } => {
            &&& action matches DaemonAction::Shutdown { request_id: request, closedown } && request
                == Some(request_id) && shuts_down(
                before,
                CancelReason::ClientClosed,
                closedown,
                after,
            )
        },
    }
}

impl Daemon {
    /// Takes a message of the client.
    pub fn receive(&mut self, message: ClientMessage) -> (r: DaemonAction)
        ensures
            handles(*old(self), message, r, *final(self)),
            old(self).wf() ==> final(self).wf(),
    {
        match message {
            ClientMessage::Hello { .. } => {
                let error = SandboxError::protocol("hello cannot be repeated");
                DaemonAction::Reply(error_event(None, None, &error))
            },
            ClientMessage::Probe { request_id } => DaemonAction::Reply(
                ServerMessage::ProbeResult { request_id, report: self.report.duplicate() },
            ),
            ClientMessage::CreateSandbox {
                request_id,
                tenant_id,
                profile,
                authorization_id,
                policy,
                metadata: _,
            } => match self.check_admission(&tenant_id, &authorization_id) {
                Ok(()) => DaemonAction::Prepare {
                    request_id,
                    tenant_id,
                    profile,
                    authorization_id,
                    policy,
                },
                Err(error) => DaemonAction::Reply(error_event(Some(request_id), None, &error)),
            },
            ClientMessage::Spawn {
                request_id,
                sandbox_id,
                execution_id,
                command,
                cwd,
                env,
                stdin,
                limits,
            } => match self.spawn_execution(
                request_id,
                sandbox_id.clone(),
                execution_id.clone(),
                command,
                cwd,
                env,
                limits,
            ) {
                Ok((event, execution)) => DaemonAction::Run {
                    event,
                    sandbox_id,
                    execution_id,
                    execution,
                    stdin,
                },
                Err(event) => DaemonAction::Reply(event),
            },
            ClientMessage::Stdin { execution_id, sequence, base64 } => match self.write_stdin(
                &execution_id,
                sequence,
                &base64,
            ) {
                Ok(bytes) => DaemonAction::Write { execution_id, bytes },
                Err(event) => DaemonAction::Reply(event),
            },
            ClientMessage::CloseStdin { execution_id } => if self.close_stdin(&execution_id) {
                DaemonAction::CloseInput { execution_id }
            } else {
                DaemonAction::Ignore
            },
            ClientMessage::Signal { execution_id, signal } => match self.signal(
                &execution_id,
                signal,
            ) {
                Some(reason) => DaemonAction::Stop { execution_id, reason },
                None => DaemonAction::Ignore,
            },
            ClientMessage::CloseSandbox { request_id, sandbox_id } => match self.close_sandbox(
                &request_id,
                &sandbox_id,
            ) {
                Ok(closing) => DaemonAction::Close { request_id, sandbox_id, closing },
                Err(event) => DaemonAction::Reply(event),
            },
            ClientMessage::RevokeAuthorization { request_id, tenant_id, authorization_id } => {
                match self.check_admission(&tenant_id, &authorization_id) {
                    Ok(()) => DaemonAction::Retire {
                        request_id,
                        authorization: AuthorizationSpec { tenant_id, authorization_id },
                    },
                    Err(error) => DaemonAction::Reply(error_event(Some(request_id), None, &error)),
                }
            },
            ClientMessage::Shutdown { request_id } => {
                let closedown = self.shutdown(CancelReason::ClientClosed);
                DaemonAction::Shutdown { request_id: Some(request_id), closedown }
            },
        }
    }
}

/// A daemon without a backend refuses every sandbox and every execution: nothing is ever run
/// outside of a sandbox instead.
pub proof fn law_without_backend_everything_is_refused(
    daemon: Daemon,
    tenant: Seq<char>,
    authorization: Seq<char>,
    sandbox_id: Seq<char>,
    execution_id: Seq<char>,
    command: CommandSpec,
    cwd: LogicalPath,
    env: StringMap<String>,
    limits: ExecutionLimits,
)
    requires
        daemon.backend is None,
    ensures
        daemon.admission_fault(tenant, authorization) is Some,
        daemon.spawn_fault(sandbox_id, execution_id, command, cwd, env, limits) is Some,
{
    if daemon.admission_fault(tenant, authorization) is None {
        lemma_all_passed(
            seq![
                identifier_fault("tenantId"@, tenant),
                identifier_fault("authorizationId"@, authorization),
                Some(daemon.no_backend()),
            ],
            2,
        );
    }
}

/// Once a sandbox is closed, no execution is admitted to it.
pub proof fn law_closed_sandbox_runs_nothing(
    before: Daemon,
    after: Daemon,
    message: ClientMessage,
    action: DaemonAction,
    execution_id: Seq<char>,
    command: CommandSpec,
    cwd: LogicalPath,
    env: StringMap<String>,
    limits: ExecutionLimits,
)
    requires
        message is CloseSandbox,
        handles(before, message, action, after),
    ensures
        message matches ClientMessage::CloseSandbox { sandbox_id, .. } && after.spawn_fault(
            sandbox_id@,
            execution_id,
            command,
            cwd,
            env,
            limits,
        ) is Some,
{
}

/// A sandbox is closed once: a second request for it is answered with an error and changes nothing.
pub proof fn law_sandbox_is_closed_once(
    before: Daemon,
    first: ClientMessage,
    first_action: DaemonAction,
    between: Daemon,
    second: ClientMessage,
    second_action: DaemonAction,
    after: Daemon,
)
    requires
        handles(before, first, first_action, between),
        handles(between, second, second_action, after),
        first is CloseSandbox,
        second is CloseSandbox,
        first->CloseSandbox_sandbox_id@ == second->CloseSandbox_sandbox_id@,
    ensures
        !between.sandboxes@.contains_key(first->CloseSandbox_sandbox_id@),
        after == between,
        second_action matches DaemonAction::Reply(event) && is_error_event(
            event,
            Some(second->CloseSandbox_request_id),
            None,
            Fault::Protocol("unknown or already closed sandbox ID"@),
        ),
{
}

/// Whether no execution of a sandbox is left.
pub open spec fn is_idle_sandbox(daemon: Daemon, sandbox_id: Seq<char>) -> bool {
    forall|id: Seq<char>| #[trigger]
        daemon.executions@.contains_key(id) ==> daemon.executions@[id].sandbox_id@ != sandbox_id
}

/// Once a sandbox is closed and its last execution has ended, none of its executions ever runs
/// again, whatever the client asks for: it can be undone.
pub proof fn law_closed_sandbox_stays_idle(
    before: Daemon,
    after: Daemon,
    message: ClientMessage,
    action: DaemonAction,
    sandbox_id: Seq<char>,
)
    requires
        handles(before, message, action, after),
        !before.sandboxes@.contains_key(sandbox_id),
        is_idle_sandbox(before, sandbox_id),
    ensures
        !after.sandboxes@.contains_key(sandbox_id),
        is_idle_sandbox(after, sandbox_id),
{
    assert forall|id: Seq<char>| #[trigger] after.executions@.contains_key(id) implies
        after.executions@[id].sandbox_id@ != sandbox_id by {
        if before.executions@.contains_key(id) {
            assert(before.executions@[id].sandbox_id@ != sandbox_id);
        }
    }
}

/// When a sandbox is closed, every one of its executions is told to stop, and no other; when the
/// daemon shuts down, all are.
pub proof fn law_stop_reaches_every_execution(
    before: Daemon,
    after: Daemon,
    message: ClientMessage,
    action: DaemonAction,
    execution_id: Seq<char>,
)
    requires
        handles(before, message, action, after),
        before.executions@.contains_key(execution_id),
    ensures
        message is Shutdown ==> after.executions@[execution_id].cancel == Some(
            CancelReason::ClientClosed,
        ),
        message matches ClientMessage::CloseSandbox { sandbox_id, .. } ==> (
        before.sandboxes@.contains_key(sandbox_id@) ==> after.executions@[execution_id].cancel
            == if before.executions@[execution_id].sandbox_id@ == sandbox_id@ {
            Some(CancelReason::SandboxClosed)
        } else {
            before.executions@[execution_id].cancel
        }),
{
}

/// What a sandbox may do never changes while it is open: no message of a client replaces or
/// alters a sandbox, it can only be closed.
pub proof fn law_sandboxes_never_change(
    before: Daemon,
    after: Daemon,
    message: ClientMessage,
    action: DaemonAction,
    sandbox_id: Seq<char>,
)
    requires
        handles(before, message, action, after),
        after.sandboxes@.contains_key(sandbox_id),
    ensures
        before.sandboxes@.contains_key(sandbox_id),
        after.sandboxes@[sandbox_id] == before.sandboxes@[sandbox_id],
{
}

/// An execution's identifier is taken until the execution has ended.
pub proof fn law_execution_identifiers_are_unique(
    before: Daemon,
    after: Daemon,
    message: ClientMessage,
    action: DaemonAction,
    sandbox_id: Seq<char>,
    command: CommandSpec,
    cwd: LogicalPath,
    env: StringMap<String>,
    limits: ExecutionLimits,
)
    requires
        handles(before, message, action, after),
        action is Run,
    ensures
        message matches ClientMessage::Spawn { execution_id, .. } && after.spawn_fault(
            sandbox_id,
            execution_id@,
            command,
            cwd,
            env,
            limits,
        ) is Some,
{
}

/// Input is taken in the order of its numbers and only once: the number that is expected is
/// taken, every other one is refused, and after a piece was written the next number is expected.
pub proof fn law_input_is_taken_in_order(
    executions: Map<Seq<char>, ExecutionControl>,
    execution_id: Seq<char>,
    sequence: u64,
    chunk: Seq<u8>,
)
    requires
        executions.contains_key(execution_id),
        executions[execution_id].stdin_open,
        chunk.len() <= MAX_STDIN_CHUNK_BYTES,
    ensures
        stdin_fault(executions, execution_id, sequence, Some(chunk)) is None <==> sequence
            == executions[execution_id].next_stdin_sequence,
        ({
            let control = executions[execution_id];
            let written = executions.insert(
                execution_id,
                ExecutionControl {
                    next_stdin_sequence: next_number(control.next_stdin_sequence),
                    ..control
                },
            );
            &&& stdin_fault(
                written,
                execution_id,
                control.next_stdin_sequence,
                Some(chunk),
            ) is Some
            &&& stdin_fault(
                written,
                execution_id,
                next_number(control.next_stdin_sequence),
                Some(chunk),
            ) is None
        }),
{
}

/// Whatever an execution asks for, in a daemon at any moment: it gets no sensitive variable, and
/// no limit that is wider than its sandbox's.
pub proof fn law_executions_keep_to_their_sandbox(
    daemon: Daemon,
    sandbox_id: Seq<char>,
    execution_id: Seq<char>,
    command: CommandSpec,
    cwd: LogicalPath,
    env: StringMap<String>,
    limits: ExecutionLimits,
)
    requires
        daemon.wf(),
        env.wf(),
        daemon.spawn_fault(sandbox_id, execution_id, command, cwd, env, limits) is None,
    ensures
        ({
            let policy = daemon.sandboxes@[sandbox_id].policy;
            let granted = requested_limits(policy.original.limits, limits);
            let environment = policy.execution_environment(env@);
            &&& no_wider(granted, policy.original.limits)
            &&& limits_in_range(granted)
            &&& forall|name: Seq<char>| #[trigger]
                environment.contains_key(name) ==> !is_sensitive(name) && is_allowed_value(
                    environment[name]@,
                )
        }),
{
    let policy = daemon.sandboxes@[sandbox_id].policy;
    assert(daemon.sandboxes@.contains_key(sandbox_id));
    law_no_sensitive_variable_reaches_an_execution(policy, command, cwd, env, limits);
    law_execution_keeps_the_policy_limits(policy, command, cwd, env, limits);
}

/// A signal stops exactly the execution that it names, for the reason that it names.
pub proof fn law_signal_stops_its_execution(
    before: Daemon,
    after: Daemon,
    message: ClientMessage,
    action: DaemonAction,
)
    requires
        handles(before, message, action, after),
        message is Signal,
    ensures
        ({
            let id = message->Signal_execution_id;
            let reason = match message->Signal_signal {
                SignalKind::Terminate => CancelReason::Terminate,
                SignalKind::Kill => CancelReason::Kill,
            };
            &&& before.executions@.contains_key(id@) ==> action == (DaemonAction::Stop {
                execution_id: id,
                reason,
            }) && after.executions@[id@].cancel == Some(reason)
            &&& !before.executions@.contains_key(id@) ==> action == DaemonAction::Ignore
            &&& forall|other: Seq<char>|
                other != id@ && #[trigger] before.executions@.contains_key(other)
                    ==> after.executions@.contains_key(other) && after.executions@[other]
                    == before.executions@[other]
            &&& after.executions@.dom() == before.executions@.dom()
        }),
{
    assert(after.executions@.dom() =~= before.executions@.dom());
}

/// Input is written where, and only where, the execution is known, its input is open, the text
/// stands for at most sixty-four kibibytes, and the number is the one that is expected; and then
/// exactly the bytes that the text stands for are written.
pub proof fn law_input_is_written_as_sent(
    before: Daemon,
    after: Daemon,
    message: ClientMessage,
    action: DaemonAction,
)
    requires
        handles(before, message, action, after),
        message is Stdin,
    ensures
        ({
            let id = message->Stdin_execution_id;
            let chunk = base64_decoded(message->Stdin_base64@);
            let taken = before.executions@.contains_key(id@) && before.executions@[id@].stdin_open
                && before.executions@[id@].next_stdin_sequence == message->Stdin_sequence && (
            chunk matches Some(bytes) && bytes.len() <= 65_536);
            &&& taken ==> (action matches DaemonAction::Write { execution_id, bytes } && execution_id
                == id && Some(bytes@) == chunk)
            &&& !taken ==> (action matches DaemonAction::Reply(ServerMessage::Error {
                request_id,
                execution_id,
                error,
            }) && request_id is None && execution_id == Some(id) && error.code@
                == "SANDBOX_PROTOCOL_ERROR"@)
            &&& after == before
        }),
{
}

/// An execution is run where, and only where, its identifier can be one and is not in use, its
/// sandbox is open, and the policy of the sandbox admits it. Then the client is told that it is
/// queued, and the daemon knows of it, in that sandbox, with no input open yet and the first piece
/// of input to be number one; nothing else changes. Otherwise nothing changes at all.
pub proof fn law_execution_is_queued(
    before: Daemon,
    after: Daemon,
    message: ClientMessage,
    action: DaemonAction,
)
    requires
        handles(before, message, action, after),
        message is Spawn,
        before.backend is Some,
    ensures
        ({
            let id = message->Spawn_execution_id;
            let sandbox = message->Spawn_sandbox_id;
            let admitted = is_identifier(id@) && !before.executions@.contains_key(id@)
                && before.sandboxes@.contains_key(sandbox@)
                && before.sandboxes@[sandbox@].policy.execution_fault(
                message->Spawn_command,
                message->Spawn_cwd,
                message->Spawn_env,
                message->Spawn_limits,
            ) is None;
            &&& admitted ==> {
                &&& action matches DaemonAction::Run {
                    event,
                    sandbox_id,
                    execution_id,
                    execution,
                    stdin,
                } && event == (ServerMessage::Queued {
                    request_id: message->Spawn_request_id,
                    execution_id: id,
                    position: 0,
                }) && sandbox_id == sandbox && execution_id == id && stdin == message->Spawn_stdin
                    && execution.command == message->Spawn_command
                &&& after.executions@.contains_key(id@)
                &&& after.executions@[id@].sandbox_id == sandbox
                &&& !after.executions@[id@].stdin_open
                &&& after.executions@[id@].next_stdin_sequence == 1
                &&& after.executions@[id@].cancel is None
                &&& after.executions@.remove(id@) == before.executions@
                &&& after.sandboxes == before.sandboxes
            }
            &&& !admitted ==> {
                &&& after == before
                &&& action matches DaemonAction::Reply(ServerMessage::Error {
                    request_id,
                    execution_id,
                    ..
                }) && request_id == Some(message->Spawn_request_id) && execution_id == Some(id)
            }
        }),
{
    let id = message->Spawn_execution_id;
    if action is Run {
        assert(after.executions@.remove(id@) =~= before.executions@);
    }
}

/// A sandbox is prepared where, and only where, the tenant and the authorization can be identifiers
/// and there is a backend; an authorization is retired in the same cases. What is handed on is what
/// the client sent, and the daemon does not change.
pub proof fn law_requests_are_handed_on(
    before: Daemon,
    after: Daemon,
    message: ClientMessage,
    action: DaemonAction,
)
    requires
        handles(before, message, action, after),
    ensures
        message matches ClientMessage::CreateSandbox {
            request_id,
            tenant_id,
            profile,
            authorization_id,
            policy,
            ..
        } ==> after == before && if is_identifier(tenant_id@) && is_identifier(authorization_id@)
            && before.backend is Some {
            action == (DaemonAction::Prepare {
                request_id,
                tenant_id,
                profile,
                authorization_id,
                policy,
            })
        } else {
            action matches DaemonAction::Reply(ServerMessage::Error { request_id: told, .. })
                && told == Some(request_id)
        },
        message matches ClientMessage::RevokeAuthorization {
            request_id,
            tenant_id,
            authorization_id,
        } ==> after == before && if is_identifier(tenant_id@) && is_identifier(authorization_id@)
            && before.backend is Some {
            action == (DaemonAction::Retire {
                request_id,
                authorization: AuthorizationSpec { tenant_id, authorization_id },
            })
        } else {
            action matches DaemonAction::Reply(ServerMessage::Error { request_id: told, .. })
                && told == Some(request_id)
        },
        message matches ClientMessage::Hello { .. } ==> after == before && (
        action matches DaemonAction::Reply(event) && event is Error),
        message matches ClientMessage::Probe { request_id } ==> after == before && (
        action matches DaemonAction::Reply(ServerMessage::ProbeResult { request_id: told, report })
            && told == request_id && report.status == before.report.status && report.backend@
            == before.report.backend@ && report.platform@ == before.report.platform@
            && report.features@ == before.report.features@ && texts(report.reasons@) == texts(
            before.report.reasons@,
        )),
{
    match message {
        ClientMessage::CreateSandbox { tenant_id, authorization_id, .. } => {
            lemma_admission(before, tenant_id@, authorization_id@);
        },
        ClientMessage::RevokeAuthorization { tenant_id, authorization_id, .. } => {
            lemma_admission(before, tenant_id@, authorization_id@);
        },
        _ => {},
    }
}

proof fn lemma_admission(daemon: Daemon, tenant: Seq<char>, authorization: Seq<char>)
    ensures
        daemon.admission_fault(tenant, authorization) is None <==> is_identifier(tenant)
            && is_identifier(authorization) && daemon.backend is Some,
{
    let faults = seq![
        identifier_fault("tenantId"@, tenant),
        identifier_fault("authorizationId"@, authorization),
        if daemon.backend is None {
            Some(daemon.no_backend())
        } else {
            None
        },
    ];
    if first_fault(faults) is None {
        lemma_all_passed(faults, 0);
        lemma_all_passed(faults, 1);
        lemma_all_passed(faults, 2);
    } else if is_identifier(tenant) && is_identifier(authorization) && daemon.backend is Some {
        lemma_no_fault(faults);
    }
}

/// A sandbox is created where, and only where, its request can be served, its policy is accepted,
/// and its profile is one of the reserved ones.
pub proof fn law_created_sandboxes(
    daemon: Daemon,
    tenant: Seq<char>,
    profile: Seq<char>,
    authorization: Seq<char>,
    policy: SandboxPolicy,
    host: HostFacts,
)
    ensures
        daemon.creation_fault(tenant, profile, authorization, policy, host) is None <==> {
            &&& is_identifier(tenant) && is_identifier(authorization)
            &&& daemon.backend is Some
            &&& policy_fault(policy, host) is None
            &&& profile == "system-minimal"@ || profile == "node-default"@ || profile
                == "python-default"@ || profile == "rust-default"@
        },
{
    lemma_admission(daemon, tenant, authorization);
}

/// Closing the input of an execution closes that of no other, and is passed on only where it was
/// open.
pub proof fn law_input_is_closed(
    before: Daemon,
    after: Daemon,
    message: ClientMessage,
    action: DaemonAction,
)
    requires
        handles(before, message, action, after),
        message is CloseStdin,
    ensures
        ({
            let id = message->CloseStdin_execution_id;
            &&& before.executions@.contains_key(id@) ==> !after.executions@[id@].stdin_open
            &&& action == if before.executions@.contains_key(id@)
                && before.executions@[id@].stdin_open {
                DaemonAction::CloseInput { execution_id: id }
            } else {
                DaemonAction::Ignore
            }
            &&& forall|other: Seq<char>|
                other != id@ && #[trigger] before.executions@.contains_key(other)
                    ==> after.executions@.contains_key(other) && after.executions@[other]
                    == before.executions@[other]
        }),
{
}

/// When the daemon shuts down, every sandbox is handed out to be undone, none is kept, every
/// execution is told to stop for the reason, and the list of those that were told holds all of
/// them.
pub proof fn law_shutdown_leaves_nothing_open(
    before: Daemon,
    reason: CancelReason,
    closedown: Closedown,
    after: Daemon,
    id: Seq<char>,
)
    requires
        before.sandboxes.wf(),
        shuts_down(before, reason, closedown, after),
    ensures
        !after.sandboxes@.contains_key(id),
        before.sandboxes@.contains_key(id) ==> exists|i: int|
            0 <= i < closedown.records@.len() && (#[trigger] closedown.records@[i]).0@ == id
                && closedown.records@[i].1 == before.sandboxes@[id],
        before.executions@.contains_key(id) ==> after.executions@.contains_key(id)
            && after.executions@[id].cancel == Some(reason) && exists|i: int|
            0 <= i < closedown.cancelled@.len() && (#[trigger] closedown.cancelled@[i])@ == id,
{
    if before.sandboxes@.contains_key(id) {
        let pairs = before.sandboxes.pairs();
        let i = position(pairs, id);
        lemma_pair_in_map(pairs, i);
        let views = closedown.records@.map_values(|e: (String, PreparedSandbox)| (e.0@, e.1));
        assert(views[i] == pairs[i]);
        assert(closedown.records@[i].0@ == id);
    }
    if before.executions@.contains_key(id) {
        let list = texts(closedown.cancelled@);
        assert(list.contains(id));
        let i = choose|i: int| 0 <= i < list.len() && list[i] == id;
        assert(closedown.cancelled@[i]@ == id);
    }
}

/// How often the daemon looks whether executions have ended: a hundred times, once more where the
/// whole daemon ends; while it looks and they have not ended it waits.
pub proof fn law_draining_is_bounded(attempt: u32, idle: bool, last_look: bool)
    ensures
        attempt < 100 && idle ==> drained(attempt, idle, last_look) == DrainStep::Idle,
        attempt < 100 && !idle ==> drained(attempt, idle, last_look) == DrainStep::Wait,
        attempt >= 100 && !idle ==> drained(attempt, idle, last_look) == DrainStep::GiveUp,
        attempt >= 100 && idle ==> drained(attempt, idle, last_look) == if last_look {
            DrainStep::Idle
        } else {
            DrainStep::GiveUp
        },
{
}

} // verus!
