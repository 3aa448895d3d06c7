//! The messages of protocol version 1 and the policy that a client sends with them.
use vstd::prelude::*;

use crate::string_map::StringMap;
use crate::text::{copy_texts, texts};

verus! {

pub const PROTOCOL_MAJOR: u16 = 1;

pub const PROTOCOL_MINOR: u16 = 2;

pub const MAX_CONTROL_MESSAGE_BYTES: usize = 1024 * 1024;

#[derive(Debug, Clone, Copy, PartialEq, Eq)]
pub struct ProtocolVersion {
    pub major: u16,
    pub minor: u16,
}

impl Default for ProtocolVersion {
    fn default() -> (r: Self)
        ensures
            r.major == PROTOCOL_MAJOR,
            r.minor == PROTOCOL_MINOR,
    {
        ProtocolVersion { major: PROTOCOL_MAJOR, minor: PROTOCOL_MINOR }
    }
}

#[derive(Debug, Clone, PartialEq, Eq)]
pub struct ClientInfo {
    pub name: String,
    pub version: String,
}

/// How far the policy of a sandbox is enforced.
#[derive(Debug, Clone, Copy, PartialEq, Eq, Structural)]
pub enum EnforcementStatus {
    Enforced,
    Limited,
    Unavailable,
    Bypassed,
}

#[derive(Debug, Clone, Copy, PartialEq, Eq, Structural)]
pub enum FeatureState {
    Enforced,
    Limited,
    Unavailable,
}

/// What a backend can enforce on this machine.
#[derive(Debug, Clone, PartialEq, Eq)]
pub struct CapabilityReport {
    pub platform: String,
    pub backend: String,
    pub status: EnforcementStatus,
    pub features: StringMap<FeatureState>,
    pub reasons: Vec<String>,
}

/// Whether two reports say the same.
pub open spec fn same_report(a: CapabilityReport, b: CapabilityReport) -> bool {
    &&& a.platform@ == b.platform@
    &&& a.backend@ == b.backend@
    &&& a.status == b.status
    &&& a.features@ == b.features@
    &&& texts(a.reasons@) == texts(b.reasons@)
}

impl CapabilityReport {
    /// A report that says the same.
    pub fn duplicate(&self) -> (r: Self)
        ensures
            same_report(r, *self),
    {
        let features = self.features.clone();
        proof {
            assert(features.pairs() =~= self.features.pairs());
        }
        CapabilityReport {
            platform: self.platform.clone(),
            backend: self.backend.clone(),
            status: self.status,
            features,
            reasons: copy_texts(&self.reasons),
        }
    }
}

#[derive(Debug, Clone, Copy, PartialEq, Eq, Structural)]
pub enum BackendPreference {
    Auto,
    Native,
}

impl Default for BackendPreference {
    fn default() -> (r: Self)
        ensures
            r == BackendPreference::Auto,
    {
        BackendPreference::Auto
    }
}

#[derive(Debug, Clone, Copy, PartialEq, Eq, Structural)]
pub enum MountAccess {
    ReadOnly,
    ReadWrite,
}

/// A host directory that the sandbox may see.
#[derive(Debug, Clone, PartialEq, Eq)]
pub struct MountPolicy {
    pub name: String,
    pub source: String,
    pub access: MountAccess,
}

#[derive(Debug, Clone, Copy, PartialEq, Eq, Structural)]
pub enum FilesystemLeaseMode {
    Ephemeral,
    Persistent,
}

impl Default for FilesystemLeaseMode {
    fn default() -> (r: Self)
        ensures
            r == FilesystemLeaseMode::Ephemeral,
    {
        FilesystemLeaseMode::Ephemeral
    }
}

#[derive(Debug, Clone, Copy, PartialEq, Eq)]
pub struct FilesystemLeasePolicy {
    pub mode: FilesystemLeaseMode,
}

impl Default for FilesystemLeasePolicy {
    fn default() -> (r: Self)
        ensures
            r.mode == FilesystemLeaseMode::Ephemeral,
    {
        FilesystemLeasePolicy { mode: FilesystemLeaseMode::Ephemeral }
    }
}

#[derive(Debug, Clone, PartialEq, Eq)]
pub struct FilesystemPolicy {
    pub mounts: Vec<MountPolicy>,
    pub protected_roots: Vec<String>,
    pub temp_bytes: u64,
    pub lease: FilesystemLeasePolicy,
}

impl Default for FilesystemPolicy {
    fn default() -> (r: Self)
        ensures
            r.mounts@.len() == 0,
            r.protected_roots@.len() == 0,
            r.temp_bytes == 2 * 1024 * 1024 * 1024,
            r.lease.mode == FilesystemLeaseMode::Ephemeral,
    {
        FilesystemPolicy {
            mounts: Vec::new(),
            protected_roots: Vec::new(),
            temp_bytes: default_temp_bytes(),
            lease: FilesystemLeasePolicy { mode: FilesystemLeaseMode::Ephemeral },
        }
    }
}

#[derive(Debug, Clone, Copy, PartialEq, Eq, Structural)]
pub enum NetworkMode {
    Deny,
    Host,
}

impl Default for NetworkMode {
    fn default() -> (r: Self)
        ensures
            r == NetworkMode::Deny,
    {
        NetworkMode::Deny
    }
}

#[derive(Debug, Clone, Copy, PartialEq, Eq)]
pub struct NetworkPolicy {
    pub mode: NetworkMode,
}

impl Default for NetworkPolicy {
    fn default() -> (r: Self)
        ensures
            r.mode == NetworkMode::Deny,
    {
        NetworkPolicy { mode: NetworkMode::Deny }
    }
}

/// Which variables of the daemon are passed on, and which ones an execution may set.
#[derive(Debug, Clone, PartialEq, Eq)]
pub struct EnvironmentPolicy {
    pub inherit: Vec<String>,
    pub allow_set: Vec<String>,
}

impl Default for EnvironmentPolicy {
    fn default() -> (r: Self)
        ensures
            r.inherit@.len() == 0,
            r.allow_set@.len() == 0,
    {
        EnvironmentPolicy { inherit: Vec::new(), allow_set: Vec::new() }
    }
}

/// An executable of a read-only mount, under the alias by which commands refer to it.
#[derive(Debug, Clone, PartialEq, Eq)]
pub struct ExecutablePolicy {
    pub alias: String,
    pub path: String,
    pub sha256: String,
}

#[derive(Debug, Clone, PartialEq, Eq)]
pub struct ExecutionPolicy {
    pub executables: Vec<ExecutablePolicy>,
}

impl Default for ExecutionPolicy {
    fn default() -> (r: Self)
        ensures
            r.executables@.len() == 0,
    {
        ExecutionPolicy { executables: Vec::new() }
    }
}

#[derive(Debug, Clone, Copy, PartialEq, Eq)]
pub struct ResourceLimits {
    pub wall_time_ms: u64,
    pub cpu_time_ms: u64,
    pub memory_bytes: u64,
    pub processes: u32,
    pub output_bytes: u64,
}

impl Default for ResourceLimits {
    fn default() -> (r: Self)
        ensures
            r.wall_time_ms == 600_000,
            r.cpu_time_ms == 480_000,
            r.memory_bytes == 2 * 1024 * 1024 * 1024,
            r.processes == 128,
            r.output_bytes == 50 * 1024 * 1024,
    {
        ResourceLimits {
            wall_time_ms: default_wall_time_ms(),
            cpu_time_ms: default_cpu_time_ms(),
            memory_bytes: default_memory_bytes(),
            processes: default_processes(),
            output_bytes: default_output_bytes(),
        }
    }
}

/// Everything that is fixed when a sandbox is created.
#[derive(Debug, Clone, PartialEq, Eq)]
pub struct SandboxPolicy {
    pub schema_version: u16,
    pub backend: BackendPreference,
    pub filesystem: FilesystemPolicy,
    pub network: NetworkPolicy,
    pub environment: EnvironmentPolicy,
    pub execution: ExecutionPolicy,
    pub limits: ResourceLimits,
}

#[derive(Debug, Clone, PartialEq, Eq)]
pub struct SandboxMetadata {
    pub subject: String,
    pub subject_id: String,
}

impl Default for SandboxMetadata {
    fn default() -> (r: Self)
        ensures
            r.subject@.len() == 0,
            r.subject_id@.len() == 0,
    {
        SandboxMetadata { subject: String::new(), subject_id: String::new() }
    }
}

#[derive(Debug, Clone, PartialEq, Eq)]
pub enum CommandSpec {
    Exec { program: String, args: Vec<String> },
    Shell { shell: ShellChoice, script: String },
}

#[derive(Debug, Clone, Copy, PartialEq, Eq, Structural)]
pub enum ShellChoice {
    Default,
}

impl Default for ShellChoice {
    fn default() -> (r: Self)
        ensures
            r == ShellChoice::Default,
    {
        ShellChoice::Default
    }
}

/// A place in the sandbox: a mount and a path relative to it.
#[derive(Debug, Clone, PartialEq, Eq)]
pub struct LogicalPath {
    pub mount: String,
    pub path: String,
}

#[derive(Debug, Clone, Copy, PartialEq, Eq, Structural)]
pub enum StdinMode {
    Pipe,
    Closed,
}

impl Default for StdinMode {
    fn default() -> (r: Self)
        ensures
            r == StdinMode::Closed,
    {
        StdinMode::Closed
    }
}

/// The limits that one execution asks for; what it leaves out it takes from the sandbox.
#[derive(Debug, Clone, Copy, PartialEq, Eq)]
pub struct ExecutionLimits {
    pub wall_time_ms: Option<u64>,
    pub cpu_time_ms: Option<u64>,
    pub memory_bytes: Option<u64>,
    pub processes: Option<u32>,
    pub output_bytes: Option<u64>,
}

impl Default for ExecutionLimits {
    fn default() -> (r: Self)
        ensures
            r.wall_time_ms is None,
            r.cpu_time_ms is None,
            r.memory_bytes is None,
            r.processes is None,
            r.output_bytes is None,
    {
        ExecutionLimits {
            wall_time_ms: None,
            cpu_time_ms: None,
            memory_bytes: None,
            processes: None,
            output_bytes: None,
        }
    }
}

#[derive(Debug, Clone, Copy, PartialEq, Eq, Structural)]
pub enum SignalKind {
    Terminate,
    Kill,
}

/// A message from the client to the daemon.
#[derive(Debug, Clone, PartialEq, Eq)]
pub enum ClientMessage {
    Hello { protocol: ProtocolVersion, client: ClientInfo, nonce: String },
    Probe { request_id: String },
    CreateSandbox {
        request_id: String,
        tenant_id: String,
        profile: String,
        authorization_id: String,
        policy: SandboxPolicy,
        metadata: SandboxMetadata,
    },
    Spawn {
        request_id: String,
        sandbox_id: String,
        execution_id: String,
        command: CommandSpec,
        cwd: LogicalPath,
        env: StringMap<String>,
        stdin: StdinMode,
        limits: ExecutionLimits,
    },
    Stdin { execution_id: String, sequence: u64, base64: String },
    CloseStdin { execution_id: String },
    Signal { execution_id: String, signal: SignalKind },
    CloseSandbox { request_id: String, sandbox_id: String },
    RevokeAuthorization { request_id: String, tenant_id: String, authorization_id: String },
    Shutdown { request_id: String },
}

#[derive(Debug, Clone, Copy, PartialEq, Eq, Structural)]
pub enum ErrorCategory {
    Protocol,
    PolicyViolation,
    Capability,
    Resource,
    Process,
    Internal,
}

#[derive(Debug, Clone, PartialEq, Eq)]
pub struct ProtocolError {
    pub code: String,
    pub category: ErrorCategory,
    pub retryable: bool,
    pub message: String,
    pub details: StringMap<String>,
}

/// A message from the daemon to the client.
#[derive(Debug, Clone, PartialEq, Eq)]
pub enum ServerMessage {
    HelloAck {
        protocol: ProtocolVersion,
        runtime_version: String,
        platform: String,
        features: Vec<String>,
        nonce: String,
    },
    ProbeResult { request_id: String, report: CapabilityReport },
    SandboxCreated {
        request_id: String,
        sandbox_id: String,
        status: EnforcementStatus,
        mounts: StringMap<String>,
        policy_fingerprint: String,
        capabilities: CapabilityReport,
    },
    Queued { request_id: String, execution_id: String, position: u32 },
    Started { execution_id: String, status: EnforcementStatus },
    Output { execution_id: String, stream: OutputStream, sequence: u64, base64: String },
    Exit {
        execution_id: String,
        code: Option<i32>,
        signal: Option<String>,
        usage: StringMap<u64>,
    },
    SandboxClosed { request_id: String, sandbox_id: String },
    AuthorizationRevoked { request_id: String, authorization_id: String },
    ShutdownAck { request_id: String },
    Error { request_id: Option<String>, execution_id: Option<String>, error: ProtocolError },
}

#[derive(Debug, Clone, Copy, PartialEq, Eq, Structural)]
pub enum OutputStream {
    Stdout,
    Stderr,
}

pub fn default_wall_time_ms() -> (r: u64)
    ensures
        r == 600_000,
{
    600_000
}

pub fn default_cpu_time_ms() -> (r: u64)
    ensures
        r == 480_000,
{
    480_000
}

pub fn default_memory_bytes() -> (r: u64)
    ensures
        r == 2 * 1024 * 1024 * 1024,
{
    2 * 1024 * 1024 * 1024
}

pub fn default_processes() -> (r: u32)
    ensures
        r == 128,
{
    128
}

pub fn default_output_bytes() -> (r: u64)
    ensures
        r == 50 * 1024 * 1024,
{
    50 * 1024 * 1024
}

pub fn default_temp_bytes() -> (r: u64)
    ensures
        r == 2 * 1024 * 1024 * 1024,
{
    2 * 1024 * 1024 * 1024
}

} // verus!
