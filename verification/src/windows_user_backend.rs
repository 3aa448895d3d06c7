//! The Windows backend that runs processes as a dedicated user: what it needs and reports, how
//! leases on mounts are taken and given back, and what its helper is asked to run.
use vstd::prelude::*;
use vstd::string::*;

use crate::error::{failure, Fault, SandboxError};
use crate::lines::{law_numbers_are_read_back, number_of};
use crate::path::{
    find_there, first_there, is_absolute, join_windows, windows_join, Platform,
};
use crate::policy::{ValidatedExecution, ValidatedPolicy};
use crate::protocol::{
    CapabilityReport, CommandSpec, EnforcementStatus, FeatureState, FilesystemLeaseMode,
    MountAccess, NetworkMode, ResourceLimits,
};
use crate::string_map::StringMap;
use crate::text::{
    alnum_prefix, concat, concat3, copy_texts, decimal, decimal_text, has_prefix, join_texts,
    joined, same_text, take_alnum, texts,
};
use crate::windows_backend::{
    all_absolute, program_fault, DELETE, FILE_DELETE_CHILD, FILE_GENERIC_EXECUTE,
    FILE_GENERIC_READ, FILE_GENERIC_WRITE,
};
use crate::workdir::{locate, located, WorkdirTarget};

verus! {

pub const LEASE_VERSION: u8 = 1;

/// How many characters of a sandbox's identifier go into the file name of its lease.
pub const LEASE_SUFFIX_CHARS: usize = 48;

/// A sandbox that is ready to run processes.
#[derive(Debug, Clone, PartialEq, Eq)]
pub struct PreparedUserSandbox {
    pub helper: String,
    pub sid: String,
    pub lease: Option<String>,
    pub mounts: Vec<String>,
    pub persistent: bool,
}

/// What the helper says of the machine.
#[derive(Debug, Clone, PartialEq, Eq)]
pub struct HelperStatus {
    pub user: HelperUserEnvelope,
}

#[derive(Debug, Clone, PartialEq, Eq)]
pub struct HelperUserEnvelope {
    pub cred_present: bool,
    pub marker_version: Option<u32>,
    pub marker_user_sid: Option<String>,
    pub user: HelperUser,
}

#[derive(Debug, Clone, Copy, PartialEq, Eq)]
pub struct HelperUser {
    pub exists: bool,
    pub in_builtin_users: bool,
    pub in_sandbox_group: bool,
    pub hidden_from_logon: bool,
}

/// The paths that a sandbox was granted, kept so that a later daemon can revoke them.
#[derive(Debug, Clone, PartialEq, Eq)]
pub struct LeaseRecord {
    pub version: u8,
    pub sid: String,
    pub mounts: Vec<String>,
}

/// Whether a report says what the backend enforces.
pub open spec fn is_report(report: CapabilityReport) -> bool {
    &&& report.platform@ == "windows"@
    &&& report.backend@ == "windows-user-wfp-job"@
    &&& report.status == EnforcementStatus::Limited
    &&& report.features@ == Map::<Seq<char>, FeatureState>::empty().insert(
        "filesystemReadBoundary"@,
        FeatureState::Limited,
    ).insert("filesystemWriteBoundary"@, FeatureState::Enforced).insert(
        "networkDeny"@,
        FeatureState::Enforced,
    ).insert("processTree"@, FeatureState::Enforced).insert(
        "memoryLimit"@,
        FeatureState::Enforced,
    ).insert("cpuLimit"@, FeatureState::Enforced).insert(
        "processLimit"@,
        FeatureState::Enforced,
    ).insert("filesystemRpc"@, FeatureState::Unavailable)
    &&& texts(report.reasons@) == seq![
        "BUILTIN\\Users read grants outside explicit mounts remain visible to the dedicated sandbox account"@,
        "filesystem grants use a dedicated local user SID and additive NTFS ACL leases"@,
        "network denial uses a persistent WFP egress fence keyed to the sandbox user SID"@,
        "process-tree and resource limits use a non-breakaway Job Object"@,
    ]
}

/// What the backend enforces.
pub fn report() -> (r: CapabilityReport)
    ensures
        is_report(r),
{
    let mut features: StringMap<FeatureState> = StringMap::new();
    features.insert("filesystemReadBoundary".to_owned(), FeatureState::Limited);
    features.insert("filesystemWriteBoundary".to_owned(), FeatureState::Enforced);
    features.insert("networkDeny".to_owned(), FeatureState::Enforced);
    features.insert("processTree".to_owned(), FeatureState::Enforced);
    features.insert("memoryLimit".to_owned(), FeatureState::Enforced);
    features.insert("cpuLimit".to_owned(), FeatureState::Enforced);
    features.insert("processLimit".to_owned(), FeatureState::Enforced);
    features.insert("filesystemRpc".to_owned(), FeatureState::Unavailable);
    let reasons = vec![
        "BUILTIN\\Users read grants outside explicit mounts remain visible to the dedicated sandbox account".to_owned(),
        "filesystem grants use a dedicated local user SID and additive NTFS ACL leases".to_owned(),
        "network denial uses a persistent WFP egress fence keyed to the sandbox user SID"
            .to_owned(),
        "process-tree and resource limits use a non-breakaway Job Object".to_owned(),
    ];
    assert(texts(reasons@) =~= seq![
        "BUILTIN\\Users read grants outside explicit mounts remain visible to the dedicated sandbox account"@,
        "filesystem grants use a dedicated local user SID and additive NTFS ACL leases"@,
        "network denial uses a persistent WFP egress fence keyed to the sandbox user SID"@,
        "process-tree and resource limits use a non-breakaway Job Object"@,
    ]);
    CapabilityReport {
        platform: "windows".to_owned(),
        backend: "windows-user-wfp-job".to_owned(),
        status: EnforcementStatus::Limited,
        features,
        reasons,
    }
}

/// Whether the user that sandboxes run as is set up.
pub open spec fn is_provisioned(status: HelperStatus) -> bool {
    let user = status.user;
    &&& user.cred_present
    &&& user.marker_version == Some(1u32)
    &&& user.marker_user_sid matches Some(sid) && "S-1-5-21-"@.is_prefix_of(sid@)
    &&& user.user.exists
    &&& user.user.in_builtin_users
    &&& user.user.in_sandbox_group
    &&& user.user.hidden_from_logon
}

pub open spec fn status_fault(status: HelperStatus) -> Option<Fault> {
    if is_provisioned(status) {
        None
    } else {
        Some(
            Fault::BackendUnavailable(
                "Windows sandbox is not provisioned; run `srt-win.exe install` once with UAC approval"@,
            ),
        )
    }
}

/// Refuses a machine on which the user is not set up. On success, the identifier of the user.
pub fn validate_status(status: &HelperStatus) -> (r: Result<String, SandboxError>)
    ensures
        failure(r) == status_fault(*status),
        r matches Ok(sid) ==> (status.user.marker_user_sid matches Some(s) && s@ == sid@),
{
    let user = &status.user;
    let marked = match user.marker_version {
        Some(version) => version == 1,
        None => false,
    };
    if user.cred_present && marked && user.user.exists && user.user.in_builtin_users
        && user.user.in_sandbox_group && user.user.hidden_from_logon {
        match &user.marker_user_sid {
            Some(sid) => {
                if has_prefix(sid, "S-1-5-21-") {
                    return Ok(sid.clone());
                }
            },
            None => {},
        }
    }
    Err(
        SandboxError::backend_unavailable(
            "Windows sandbox is not provisioned; run `srt-win.exe install` once with UAC approval",
        ),
    )
}

/// Whether the network fence works, given how the helper ended and what its probe met.
pub fn verify_egress(succeeded: bool, probe: &str) -> (r: Result<(), SandboxError>)
    ensures
        failure(r) == if succeeded && probe@ == "blocked"@ {
            None
        } else {
            Some(Fault::BackendUnavailable("Windows WFP egress fence is inactive: "@ + probe@))
        },
{
    if succeeded && same_text(probe, "blocked") {
        Ok(())
    } else {
        Err(
            SandboxError::BackendUnavailable(
                concat("Windows WFP egress fence is inactive: ", probe),
            ),
        )
    }
}

/// The helper: the first place, of those where it may be, that holds it.
pub fn choose_helper(candidates: &Vec<(String, bool)>) -> (r: Result<String, SandboxError>)
    ensures
        match first_there(candidates@) {
            Some(place) => r matches Ok(path) && path@ == place,
            None => failure(r) == Some(
                Fault::BackendUnavailable(
                    "Windows sandbox helper is unavailable; install or stage srt-win.exe"@,
                ),
            ),
        },
{
    match find_there(candidates) {
        Some(place) => Ok(place),
        None => Err(
            SandboxError::backend_unavailable(
                "Windows sandbox helper is unavailable; install or stage srt-win.exe",
            ),
        ),
    }
}

/// The directory for leases and authorizations: the one that is configured, unless that is empty,
/// or one below the local application data.
pub fn state_directory(configured: Option<String>, local_app_data: Option<String>) -> (r: Result<
    String,
    SandboxError,
>)
    ensures
        match configured {
            Some(path) if path@.len() > 0 => r matches Ok(directory) && directory@ == path@,
            _ => match local_app_data {
                Some(data) => r matches Ok(directory) && directory@ == windows_join(
                    data@,
                    "agent-sandbox"@,
                ),
                None => failure(r) == Some(
                    Fault::BackendUnavailable("sandbox state directory is unavailable"@),
                ),
            },
        },
{
    match configured {
        Some(path) => {
            if !path.as_str().is_empty() {
                return Ok(path);
            }
        },
        None => {},
    }
    match local_app_data {
        Some(data) => Ok(join_windows(&data, "agent-sandbox")),
        None => Err(SandboxError::backend_unavailable("sandbox state directory is unavailable")),
    }
}

/// Whether the backend can keep what a policy says of the network: it only denies.
pub fn check_network(policy: &ValidatedPolicy) -> (r: Result<(), SandboxError>)
    ensures
        failure(r) == if policy.original.network.mode == NetworkMode::Deny {
            None
        } else {
            Some(
                Fault::CapabilityUnavailable(
                    "the Windows dedicated-user backend currently supports deny-only networking"@,
                ),
            )
        },
{
    if policy.original.network.mode == NetworkMode::Deny {
        Ok(())
    } else {
        Err(
            SandboxError::capability_unavailable(
                "the Windows dedicated-user backend currently supports deny-only networking",
            ),
        )
    }
}

/// The file name of the lease of a sandbox.
pub fn lease_file(sandbox_id: &str) -> (r: String)
    ensures
        r@ == alnum_prefix(sandbox_id@, LEASE_SUFFIX_CHARS as nat) + ".json"@,
{
    concat(&take_alnum(sandbox_id, LEASE_SUFFIX_CHARS), ".json")
}

/// Whether a lease can be one that this daemon wrote.
pub open spec fn is_sound_lease(record: LeaseRecord) -> bool {
    &&& record.version == LEASE_VERSION
    &&& "S-1-5-21-"@.is_prefix_of(record.sid@)
    &&& forall|i: int|
        0 <= i < record.mounts@.len() ==> is_absolute(
            Platform::Windows,
            (#[trigger] record.mounts@[i])@,
        )
}

pub open spec fn lease_fault(record: LeaseRecord) -> Option<Fault> {
    if is_sound_lease(record) {
        None
    } else {
        Some(Fault::BackendUnavailable("Windows ACL lease failed integrity validation"@))
    }
}

/// Refuses a lease that this daemon cannot have written.
pub fn validate_lease(record: &LeaseRecord) -> (r: Result<(), SandboxError>)
    ensures
        failure(r) == lease_fault(*record),
{
    if record.version != LEASE_VERSION || !has_prefix(&record.sid, "S-1-5-21-") || !all_absolute(
        &record.mounts,
    ) {
        return Err(
            SandboxError::backend_unavailable("Windows ACL lease failed integrity validation"),
        );
    }
    Ok(())
}

/// The paths in the order in which they are revoked: the last first.
fn reversed(paths: &Vec<String>) -> (r: Vec<String>)
    ensures
        texts(r@) == texts(paths@).reverse(),
{
    let mut out: Vec<String> = Vec::new();
    let mut left: usize = paths.len();
    while left > 0
        invariant
            left <= paths@.len(),
            texts(out@) == texts(paths@).reverse().take(paths@.len() - left),
        decreases left,
    {
        let ghost before = texts(out@);
        out.push(paths[left - 1].clone());
        proof {
            assert(texts(out@) =~= before.push(paths@[left - 1]@));
            assert(texts(out@) =~= texts(paths@).reverse().take(paths@.len() - (left - 1)));
        }
        left = left - 1;
    }
    assert(texts(out@) =~= texts(paths@).reverse());
    out
}

/// What to revoke, in this order and until one fails, to give back a lease that was left behind.
pub fn recover_lease(record: &LeaseRecord) -> (r: Result<Vec<String>, SandboxError>)
    ensures
        failure(r) == lease_fault(*record),
        r matches Ok(paths) ==> texts(paths@) == texts(record.mounts@).reverse(),
{
    match validate_lease(record) {
        Ok(()) => Ok(reversed(&record.mounts)),
        Err(error) => Err(error),
    }
}

/// What to revoke, in this order, when a sandbox is closed. What is persistent stays.
pub fn cleanup_paths(sandbox: &PreparedUserSandbox) -> (r: Vec<String>)
    ensures
        texts(r@) == if sandbox.persistent {
            Seq::empty()
        } else {
            texts(sandbox.mounts@).reverse()
        },
{
    if sandbox.persistent {
        let none: Vec<String> = Vec::new();
        assert(texts(none@) =~= Seq::<Seq<char>>::empty());
        none
    } else {
        reversed(&sandbox.mounts)
    }
}

/// The result of closing a sandbox, given what failed. On success the lease may go.
pub fn cleanup_outcome(failures: &Vec<String>) -> (r: Result<(), SandboxError>)
    ensures
        failure(r) == if failures@.len() == 0 {
            None
        } else {
            Some(
                Fault::BackendUnavailable(
                    "cannot fully revoke Windows ACL lease: "@ + joined(texts(failures@), "; "@),
                ),
            )
        },
{
    if failures.len() == 0 {
        Ok(())
    } else {
        Err(
            SandboxError::BackendUnavailable(
                concat(
                    "cannot fully revoke Windows ACL lease: ",
                    &join_texts(failures, "; "),
                ),
            ),
        )
    }
}

/// The rights that the user gets on a mount.
pub open spec fn access_mask_of(access: MountAccess) -> u32 {
    match access {
        MountAccess::ReadOnly => FILE_GENERIC_READ | FILE_GENERIC_EXECUTE,
        MountAccess::ReadWrite => FILE_GENERIC_READ | FILE_GENERIC_WRITE | FILE_GENERIC_EXECUTE
            | DELETE | FILE_DELETE_CHILD,
    }
}

pub fn access_mask(access: MountAccess) -> (r: u32)
    ensures
        r == access_mask_of(access),
{
    match access {
        MountAccess::ReadOnly => FILE_GENERIC_READ | FILE_GENERIC_EXECUTE,
        MountAccess::ReadWrite => FILE_GENERIC_READ | FILE_GENERIC_WRITE | FILE_GENERIC_EXECUTE
            | DELETE | FILE_DELETE_CHILD,
    }
}

/// The working directory of a process: the mount and the path below it.
pub fn native_workdir(policy: &ValidatedPolicy, logical: &str) -> (r: Result<
    WorkdirTarget,
    SandboxError,
>)
    ensures
        match located(*policy, logical@) {
            Some((source, relative)) => r matches Ok(target) && target.source@ == source
                && target.relative@ == relative,
            None => failure(r) == Some(
                Fault::InvalidPolicy("logical cwd is outside mounted paths"@),
            ),
        },
{
    match locate(policy, logical) {
        Some(target) => Ok(target),
        None => Err(SandboxError::invalid_policy("logical cwd is outside mounted paths")),
    }
}

/// Why a command cannot be run: it is a script, or its program is not declared.
pub open spec fn command_fault(policy: ValidatedPolicy, command: CommandSpec) -> Option<Fault> {
    match command {
        CommandSpec::Shell { .. } => Some(
            Fault::CapabilityUnavailable(
                "Windows shell execution requires a host-declared executable"@,
            ),
        ),
        CommandSpec::Exec { .. } => program_fault(policy, command),
    }
}

/// The program of a command, and its arguments.
pub fn command_line(policy: &ValidatedPolicy, command: &CommandSpec) -> (r: Result<
    (String, Vec<String>),
    SandboxError,
>)
    ensures
        failure(r) == command_fault(*policy, *command),
        r matches Ok((program, args)) ==> (command matches CommandSpec::Exec {
            program: alias,
            args: given,
        } && program@ == policy.executables@[alias@].path@ && texts(args@) == texts(given@)),
{
    match command {
        CommandSpec::Shell { .. } => Err(
            SandboxError::capability_unavailable(
                "Windows shell execution requires a host-declared executable",
            ),
        ),
        CommandSpec::Exec { program, args } => match policy.resolve_executable(program) {
            Ok(found) => Ok((found.path.clone(), copy_texts(args))),
            Err(error) => Err(error),
        },
    }
}

/// How the helper is told the variables of a process.
pub open spec fn env_options(entries: Seq<(Seq<char>, String)>) -> Seq<Seq<char>>
    decreases entries.len(),
{
    if entries.len() == 0 {
        Seq::empty()
    } else {
        env_options(entries.drop_last()).push("--env"@).push(
            entries.last().0 + "="@ + entries.last().1@,
        )
    }
}

/// What the helper is told: the limits, the variables, and, behind a mark that ends the options,
/// the program with its arguments.
pub open spec fn helper_options(
    limits: ResourceLimits,
    environment: Seq<(Seq<char>, String)>,
    program: Seq<char>,
    args: Seq<Seq<char>>,
) -> Seq<Seq<char>> {
    seq![
        "exec"@,
        "--quiet"@,
        "--memory-bytes"@,
        decimal(limits.memory_bytes as nat),
        "--cpu-time-ms"@,
        decimal(limits.cpu_time_ms as nat),
        "--processes"@,
        decimal(limits.processes as nat),
    ] + env_options(environment) + seq!["--"@, program] + args
}

/// Why an execution cannot be launched.
pub open spec fn launch_fault(
    policy: ValidatedPolicy,
    execution: ValidatedExecution,
    stdin_pipe: bool,
) -> Option<Fault> {
    if stdin_pipe {
        Some(
            Fault::CapabilityUnavailable(
                "interactive stdin is not supported by the Windows dedicated-user helper"@,
            ),
        )
    } else if located(policy, execution.workdir@) is None {
        Some(Fault::InvalidPolicy("logical cwd is outside mounted paths"@))
    } else {
        command_fault(policy, execution.command)
    }
}

/// Where the helper is started, and the arguments with which it runs an execution.
pub fn helper_launch(policy: &ValidatedPolicy, execution: &ValidatedExecution, stdin_pipe: bool) -> (r:
    Result<(WorkdirTarget, Vec<String>), SandboxError>)
    ensures
        failure(r) == launch_fault(*policy, *execution, stdin_pipe),
        r matches Ok((target, options)) ==> {
            &&& located(*policy, execution.workdir@) == Some((target.source@, target.relative@))
            &&& execution.command matches CommandSpec::Exec { program, args } && texts(options@)
                == helper_options(
                execution.limits,
                execution.environment.pairs(),
                policy.executables@[program@].path@,
                texts(args@),
            )
        },
{
    if stdin_pipe {
        return Err(
            SandboxError::capability_unavailable(
                "interactive stdin is not supported by the Windows dedicated-user helper",
            ),
        );
    }
    let target = match native_workdir(policy, &execution.workdir) {
        Ok(target) => target,
        Err(error) => {
            return Err(error);
        },
    };
    let (program, args) = match command_line(policy, &execution.command) {
        Ok(parts) => parts,
        Err(error) => {
            return Err(error);
        },
    };
    let mut options = vec![
        "exec".to_owned(),
        "--quiet".to_owned(),
        "--memory-bytes".to_owned(),
        decimal_text(execution.limits.memory_bytes),
        "--cpu-time-ms".to_owned(),
        decimal_text(execution.limits.cpu_time_ms),
        "--processes".to_owned(),
        decimal_text(execution.limits.processes as u64),
    ];
    let ghost head = texts(options@);
    assert(head =~= seq![
        "exec"@,
        "--quiet"@,
        "--memory-bytes"@,
        decimal(execution.limits.memory_bytes as nat),
        "--cpu-time-ms"@,
        decimal(execution.limits.cpu_time_ms as nat),
        "--processes"@,
        decimal(execution.limits.processes as nat),
    ]);
    push_environment(&mut options, &execution.environment);
    let ghost before = texts(options@);
    options.push("--".to_owned());
    options.push(program);
    assert(texts(options@) =~= before + seq!["--"@, program@]);
    push_all(&mut options, &args);
    Ok((target, options))
}

fn push_environment(options: &mut Vec<String>, environment: &StringMap<String>)
    ensures
        texts(final(options)@) == texts(old(options)@) + env_options(environment.pairs()),
{
    let count: usize = environment.len();
    let ghost start = texts(options@);
    let ghost pairs = environment.pairs();
    let mut i: usize = 0;
    proof {
        assert(pairs.take(0) =~= Seq::<(Seq<char>, String)>::empty());
        assert(texts(options@) =~= start + env_options(pairs.take(0)));
    }
    while i < count
        invariant
            i <= count == pairs.len(),
            pairs == environment.pairs(),
            texts(options@) == start + env_options(pairs.take(i as int)),
        decreases count - i,
    {
        let ghost before = texts(options@);
        let entry = concat3(environment.key_at(i), "=", environment.value_at(i));
        options.push("--env".to_owned());
        options.push(entry);
        proof {
            assert(pairs.take(i as int + 1).drop_last() =~= pairs.take(i as int));
            assert(texts(options@) =~= before.push("--env"@).push(entry@));
            assert(texts(options@) =~= start + env_options(pairs.take(i as int + 1)));
        }
        i = i + 1;
    }
    proof {
        assert(pairs.take(i as int) =~= pairs);
    }
}

/// Puts copies of all texts of a list behind another list.
pub fn push_all(list: &mut Vec<String>, more: &Vec<String>)
    ensures
        texts(final(list)@) == texts(old(list)@) + texts(more@),
{
    let ghost start = texts(list@);
    let mut i: usize = 0;
    proof {
        assert(texts(list@) =~= start + texts(more@).take(0));
    }
    while i < more.len()
        invariant
            i <= more@.len(),
            texts(list@) == start + texts(more@).take(i as int),
        decreases more@.len() - i,
    {
        let ghost before = texts(list@);
        list.push(more[i].clone());
        proof {
            assert(texts(list@) =~= before.push(more@[i as int]@));
            assert(texts(list@) =~= start + texts(more@).take(i + 1));
        }
        i = i + 1;
    }
    proof {
        assert(texts(more@).take(i as int) =~= texts(more@));
    }
}

/// The helper reads as the program's arguments exactly those of the command, whatever they look
/// like: everything behind the first mark that ends the options belongs to the program.
pub proof fn law_options_end_before_the_program(
    limits: ResourceLimits,
    environment: Seq<(Seq<char>, String)>,
    program: Seq<char>,
    args: Seq<Seq<char>>,
)
    ensures
        ({
            let options = helper_options(limits, environment, program, args);
            let at = 8 + 2 * environment.len();
            &&& options[at as int] == "--"@
            &&& options.skip(at as int + 1) == seq![program] + args
        }),
{
    lemma_env_options_len(environment);
    let options = helper_options(limits, environment, program, args);
    let at = 8 + 2 * environment.len();
    assert(options.skip(at as int + 1) =~= seq![program] + args);
}

proof fn lemma_env_options_len(entries: Seq<(Seq<char>, String)>)
    ensures
        env_options(entries).len() == 2 * entries.len(),
    decreases entries.len(),
{
    if entries.len() > 0 {
        lemma_env_options_len(entries.drop_last());
    }
}

/// How far the lease of a sandbox's mounts has come.
pub enum LeaseStage {
    /// The directory for leases is to be created.
    Directory,
    /// The lease is to be written, with nothing granted.
    Recording,
    /// The mount at this place is to be granted.
    Granting(usize),
    /// The lease is to be rewritten with what was granted for this mount.
    Updating(usize),
    /// What is granted is to be taken back, the last path first.
    Revoking(SandboxError),
    /// Nothing is granted; the lease is to be removed.
    RemovingLease(SandboxError),
    /// The preparation failed and nothing is granted.
    Failed(SandboxError),
    /// The lease could not be rewritten; what was granted stands.
    Unrecorded(SandboxError),
    /// Every mount is granted, and the lease says so.
    Leased,
}

/// What is to be done next.
#[derive(Debug, Clone, PartialEq, Eq)]
pub enum LeaseAction {
    CreateDirectory,
    WriteLease,
    Grant(usize),
    Revoke(String),
    RemoveLease,
    Finish,
}

/// The progress of a lease: how far it has come, and the paths that are granted.
pub struct LeaseProgress {
    pub stage: LeaseStage,
    pub granted: Vec<String>,
}

pub ghost enum LeaseActionView {
    CreateDirectory,
    WriteLease,
    Grant(int),
    Revoke(Seq<char>),
    RemoveLease,
    Finish,
}

impl View for LeaseAction {
    type V = LeaseActionView;

    open spec fn view(&self) -> LeaseActionView {
        match self {
            LeaseAction::CreateDirectory => LeaseActionView::CreateDirectory,
            LeaseAction::WriteLease => LeaseActionView::WriteLease,
            LeaseAction::Grant(i) => LeaseActionView::Grant(*i as int),
            LeaseAction::Revoke(path) => LeaseActionView::Revoke(path@),
            LeaseAction::RemoveLease => LeaseActionView::RemoveLease,
            LeaseAction::Finish => LeaseActionView::Finish,
        }
    }
}

/// The model of the progress of a lease.
pub ghost struct LeaseState {
    pub stage: LeaseStage,
    pub granted: Seq<Seq<char>>,
}

impl View for LeaseProgress {
    type V = LeaseState;

    open spec fn view(&self) -> LeaseState {
        LeaseState { stage: self.stage, granted: texts(self.granted@) }
    }
}

/// What an action brought: the paths that were granted, for a grant.
pub type LeaseOutcome = Result<Vec<String>, SandboxError>;

impl LeaseState {
    pub open spec fn first() -> Self {
        LeaseState { stage: LeaseStage::Directory, granted: Seq::empty() }
    }

    /// A lease that takes back has something left to take back; one that failed has nothing.
    pub open spec fn wf(self, count: nat) -> bool {
        match self.stage {
            LeaseStage::Directory => self.granted.len() == 0,
            LeaseStage::Recording => self.granted.len() == 0,
            LeaseStage::Granting(i) => i < count,
            LeaseStage::Updating(i) => i < count,
            LeaseStage::Revoking(_) => self.granted.len() > 0,
            LeaseStage::RemovingLease(_) => self.granted.len() == 0,
            LeaseStage::Failed(_) => self.granted.len() == 0,
            LeaseStage::Unrecorded(_) => true,
            LeaseStage::Leased => true,
        }
    }

    pub open spec fn next_action(self) -> LeaseActionView {
        match self.stage {
            LeaseStage::Directory => LeaseActionView::CreateDirectory,
            LeaseStage::Recording => LeaseActionView::WriteLease,
            LeaseStage::Granting(i) => LeaseActionView::Grant(i as int),
            LeaseStage::Updating(_) => LeaseActionView::WriteLease,
            LeaseStage::Revoking(_) => LeaseActionView::Revoke(self.granted.last()),
            LeaseStage::RemovingLease(_) => LeaseActionView::RemoveLease,
            LeaseStage::Failed(_) => LeaseActionView::Finish,
            LeaseStage::Unrecorded(_) => LeaseActionView::Finish,
            LeaseStage::Leased => LeaseActionView::Finish,
        }
    }

    /// The state after the action was done with this outcome.
    pub open spec fn after(self, outcome: LeaseOutcome, count: nat) -> Self {
        match self.stage {
            LeaseStage::Directory => match outcome {
                Ok(_) => LeaseState { stage: LeaseStage::Recording, ..self },
                Err(e) => LeaseState { stage: LeaseStage::Failed(e), ..self },
            },
            LeaseStage::Recording => match outcome {
                Ok(_) => LeaseState {
                    stage: if count == 0 {
                        LeaseStage::Leased
                    } else {
                        LeaseStage::Granting(0)
                    },
                    ..self
                },
                Err(e) => LeaseState { stage: LeaseStage::Failed(e), ..self },
            },
            LeaseStage::Granting(i) => match outcome {
                Ok(paths) => LeaseState {
                    stage: LeaseStage::Updating(i),
                    granted: self.granted + texts(paths@),
                },
                Err(e) => LeaseState {
                    stage: if self.granted.len() > 0 {
                        LeaseStage::Revoking(e)
                    } else {
                        LeaseStage::RemovingLease(e)
                    },
                    ..self
                },
            },
            LeaseStage::Updating(i) => match outcome {
                Ok(_) => LeaseState {
                    stage: if i + 1 < count {
                        LeaseStage::Granting((i + 1) as usize)
                    } else {
                        LeaseStage::Leased
                    },
                    ..self
                },
                Err(e) => LeaseState { stage: LeaseStage::Unrecorded(e), ..self },
            },
            LeaseStage::Revoking(e) => LeaseState {
                stage: if self.granted.len() > 1 {
                    LeaseStage::Revoking(e)
                } else {
                    LeaseStage::RemovingLease(e)
                },
                granted: self.granted.drop_last(),
            },
            LeaseStage::RemovingLease(e) => LeaseState { stage: LeaseStage::Failed(e), ..self },
            LeaseStage::Failed(_) => self,
            LeaseStage::Unrecorded(_) => self,
            LeaseStage::Leased => self,
        }
    }
}

impl LeaseProgress {
    /// Where the lease of a number of mounts begins.
    pub fn start() -> (r: Self)
        ensures
            r@ == LeaseState::first(),
    {
        let granted: Vec<String> = Vec::new();
        assert(texts(granted@) =~= Seq::<Seq<char>>::empty());
        LeaseProgress { stage: LeaseStage::Directory, granted }
    }

    /// What is to be done next.
    pub fn action(&self) -> (r: LeaseAction)
        requires
            self.stage is Revoking ==> self.granted@.len() > 0,
        ensures
            r@ == self@.next_action(),
    {
        match &self.stage {
            LeaseStage::Directory => LeaseAction::CreateDirectory,
            LeaseStage::Recording => LeaseAction::WriteLease,
            LeaseStage::Granting(i) => LeaseAction::Grant(*i),
            LeaseStage::Updating(_) => LeaseAction::WriteLease,
            LeaseStage::Revoking(_) => {
                assert(self@.granted.last() == self.granted@[self.granted@.len() - 1]@);
                LeaseAction::Revoke(self.granted[self.granted.len() - 1].clone())
            },
            LeaseStage::RemovingLease(_) => LeaseAction::RemoveLease,
            LeaseStage::Failed(_) => LeaseAction::Finish,
            LeaseStage::Unrecorded(_) => LeaseAction::Finish,
            LeaseStage::Leased => LeaseAction::Finish,
        }
    }

    /// Takes note of the outcome of the action.
    pub fn advance(self, outcome: LeaseOutcome, count: usize) -> (r: Self)
        requires
            self@.wf(count as nat),
        ensures
            r@ == self@.after(outcome, count as nat),
            r@.wf(count as nat),
    {
        let LeaseProgress { stage, granted } = self;
        let mut granted = granted;
        let ghost before = texts(granted@);
        let next = match stage {
            LeaseStage::Directory => match outcome {
                Ok(_) => LeaseStage::Recording,
                Err(e) => LeaseStage::Failed(e),
            },
            LeaseStage::Recording => match outcome {
                Ok(_) => if count == 0 {
                    LeaseStage::Leased
                } else {
                    LeaseStage::Granting(0)
                },
                Err(e) => LeaseStage::Failed(e),
            },
            LeaseStage::Granting(i) => match outcome {
                Ok(paths) => {
                    push_all(&mut granted, &paths);
                    LeaseStage::Updating(i)
                },
                Err(e) => if granted.len() > 0 {
                    LeaseStage::Revoking(e)
                } else {
                    LeaseStage::RemovingLease(e)
                },
            },
            LeaseStage::Updating(i) => match outcome {
                Ok(_) => if i + 1 < count {
                    LeaseStage::Granting(i + 1)
                } else {
                    LeaseStage::Leased
                },
                Err(e) => LeaseStage::Unrecorded(e),
            },
            LeaseStage::Revoking(e) => {
                let several = granted.len() > 1;
                let _ = granted.pop();
                assert(texts(granted@) =~= before.drop_last());
                if several {
                    LeaseStage::Revoking(e)
                } else {
                    LeaseStage::RemovingLease(e)
                }
            },
            LeaseStage::RemovingLease(e) => LeaseStage::Failed(e),
            LeaseStage::Failed(e) => LeaseStage::Failed(e),
            LeaseStage::Unrecorded(e) => LeaseStage::Unrecorded(e),
            LeaseStage::Leased => LeaseStage::Leased,
        };
        LeaseProgress { stage: next, granted }
    }
}

/// The record that a lease keeps at this point.
pub fn lease_record(sid: &str, progress: &LeaseProgress) -> (r: LeaseRecord)
    ensures
        r.version == LEASE_VERSION,
        r.sid@ == sid@,
        texts(r.mounts@) == progress@.granted,
{
    LeaseRecord {
        version: LEASE_VERSION,
        sid: sid.to_owned(),
        mounts: copy_texts(&progress.granted),
    }
}

/// The state after a number of actions with given outcomes.
pub open spec fn leased_after(outcomes: Seq<LeaseOutcome>, count: nat) -> LeaseState
    decreases outcomes.len(),
{
    if outcomes.len() == 0 {
        LeaseState::first()
    } else {
        leased_after(outcomes.drop_last(), count).after(outcomes.last(), count)
    }
}

/// The paths whose grants stand after a number of actions: what each grant brought, without what
/// was revoked.
pub open spec fn standing_paths(outcomes: Seq<LeaseOutcome>, count: nat) -> Seq<Seq<char>>
    decreases outcomes.len(),
{
    if outcomes.len() == 0 {
        Seq::empty()
    } else {
        let before = standing_paths(outcomes.drop_last(), count);
        match leased_after(outcomes.drop_last(), count).next_action() {
            LeaseActionView::Grant(_) => match outcomes.last() {
                Ok(paths) => before + texts(paths@),
                Err(_) => before,
            },
            LeaseActionView::Revoke(path) => if before.len() > 0 && before.last() == path {
                before.drop_last()
            } else {
                before
            },
            _ => before,
        }
    }
}

proof fn lemma_leased_counted(outcomes: Seq<LeaseOutcome>, count: nat)
    requires
        count <= usize::MAX,
    ensures
        leased_after(outcomes, count).wf(count),
        standing_paths(outcomes, count) == leased_after(outcomes, count).granted,
    decreases outcomes.len(),
{
    if outcomes.len() > 0 {
        lemma_leased_counted(outcomes.drop_last(), count);
    }
}

/// However the actions turn out: a preparation that failed has taken back every path that it was
/// granted, and at every moment the lease knows exactly what is granted.
pub proof fn law_failed_lease_leaves_no_grant(outcomes: Seq<LeaseOutcome>, count: nat)
    requires
        count <= usize::MAX,
    ensures
        leased_after(outcomes, count).stage is Failed ==> standing_paths(outcomes, count).len()
            == 0,
        leased_after(outcomes, count).granted == standing_paths(outcomes, count),
{
    lemma_leased_counted(outcomes, count);
}

/// The paths that the lease on disk names after a number of actions.
pub open spec fn recorded_paths(outcomes: Seq<LeaseOutcome>, count: nat) -> Seq<Seq<char>>
    decreases outcomes.len(),
{
    if outcomes.len() == 0 {
        Seq::empty()
    } else {
        let state = leased_after(outcomes.drop_last(), count);
        match state.next_action() {
            LeaseActionView::WriteLease => if outcomes.last() is Ok {
                state.granted
            } else {
                recorded_paths(outcomes.drop_last(), count)
            },
            _ => recorded_paths(outcomes.drop_last(), count),
        }
    }
}

/// Unless the lease is about to be rewritten or could not be, it names every path whose grant
/// stands: a later daemon that revokes what it names leaves nothing granted.
pub proof fn law_lease_names_what_is_granted(outcomes: Seq<LeaseOutcome>, count: nat)
    requires
        count <= usize::MAX,
        !(leased_after(outcomes, count).stage is Updating),
        !(leased_after(outcomes, count).stage is Unrecorded),
    ensures
        standing_paths(outcomes, count).is_prefix_of(recorded_paths(outcomes, count)),
{
    lemma_leased_counted(outcomes, count);
    lemma_recorded(outcomes, count);
}

proof fn lemma_recorded(outcomes: Seq<LeaseOutcome>, count: nat)
    requires
        count <= usize::MAX,
    ensures
        match leased_after(outcomes, count).stage {
            LeaseStage::Updating(_) => true,
            LeaseStage::Unrecorded(_) => true,
            _ => leased_after(outcomes, count).granted.is_prefix_of(
                recorded_paths(outcomes, count),
            ),
        },
    decreases outcomes.len(),
{
    if outcomes.len() > 0 {
        lemma_leased_counted(outcomes.drop_last(), count);
        lemma_recorded(outcomes.drop_last(), count);
        let before = leased_after(outcomes.drop_last(), count);
        let after = leased_after(outcomes, count);
        let recorded = recorded_paths(outcomes, count);
        match before.stage {
            LeaseStage::Revoking(_) => {
                assert(after.granted =~= before.granted.take(after.granted.len() as int));
                assert(after.granted =~= recorded.take(after.granted.len() as int));
            },
            _ => {},
        }
    }
}

/// Whether a policy asks for leases that outlive the daemon.
pub fn is_persistent(policy: &ValidatedPolicy) -> (r: bool)
    ensures
        r == (policy.original.filesystem.lease.mode == FilesystemLeaseMode::Persistent),
{
    policy.original.filesystem.lease.mode == FilesystemLeaseMode::Persistent
}

proof fn lemma_env_option(entries: Seq<(Seq<char>, String)>, i: int)
    requires
        0 <= i < entries.len(),
    ensures
        env_options(entries).len() == 2 * entries.len(),
        env_options(entries)[2 * i] == "--env"@,
        env_options(entries)[2 * i + 1] == entries[i].0 + "="@ + entries[i].1@,
    decreases entries.len(),
{
    lemma_env_options_len(entries);
    lemma_env_options_len(entries.drop_last());
    if i < entries.len() - 1 {
        lemma_env_option(entries.drop_last(), i);
    }
}

/// The helper is told each of the three limits that it enforces, as a number that reads back as the
/// limit, and every variable with its value.
pub proof fn law_helper_is_told_the_limits(
    limits: ResourceLimits,
    environment: Seq<(Seq<char>, String)>,
    program: Seq<char>,
    args: Seq<Seq<char>>,
    i: int,
)
    ensures
        ({
            let options = helper_options(limits, environment, program, args);
            &&& options[0] == "exec"@ && options[1] == "--quiet"@
            &&& options[2] == "--memory-bytes"@ && number_of(options[3]) == Some(
                limits.memory_bytes,
            )
            &&& options[4] == "--cpu-time-ms"@ && number_of(options[5]) == Some(limits.cpu_time_ms)
            &&& options[6] == "--processes"@ && number_of(options[7]) == Some(
                limits.processes as u64,
            )
            &&& 0 <= i < environment.len() ==> options[8 + 2 * i] == "--env"@ && options[9 + 2 * i]
                == environment[i].0 + seq!['='] + environment[i].1@
            &&& options.len() == 10 + 2 * environment.len() + args.len()
        }),
{
    law_numbers_are_read_back(limits.memory_bytes);
    law_numbers_are_read_back(limits.cpu_time_ms);
    law_numbers_are_read_back(limits.processes as u64);
    reveal_strlit("=");
    assert("="@ =~= seq!['=']);
    lemma_env_options_len(environment);
    if 0 <= i < environment.len() {
        lemma_env_option(environment, i);
    }
}

/// An execution is launched exactly where it takes no input, its working directory is in a mount,
/// and it is a declared program; a script never is.
pub proof fn law_launched_executions(
    policy: ValidatedPolicy,
    execution: ValidatedExecution,
    stdin_pipe: bool,
)
    ensures
        launch_fault(policy, execution, stdin_pipe) is None <==> !stdin_pipe && located(
            policy,
            execution.workdir@,
        ) is Some && (execution.command matches CommandSpec::Exec { program, .. }
            && policy.executables@.contains_key(program@)),
{
}

/// What the user may do on a mount, bit by bit: read and run what is only read; besides, write and
/// delete what is written to; and nowhere change permissions or take ownership.
pub proof fn law_granted_rights()
    ensures
        access_mask_of(MountAccess::ReadOnly) == 0x0012_00A9,
        access_mask_of(MountAccess::ReadWrite) == 0x0013_01FF,
{
    assert((0x0012_0089u32 | 0x0012_00A0) == 0x0012_00A9u32) by (bit_vector);
    assert((0x0012_0089u32 | 0x0012_0116 | 0x0012_00A0 | 0x0001_0000 | 0x0000_0040)
        == 0x0013_01FFu32) by (bit_vector);
}

/// A machine is used exactly where the user is set up in every respect: its credential, the marker
/// of the right version with the identifier of a user, and the account with both of its groups,
/// hidden from the logon.
pub proof fn law_used_machines(status: HelperStatus)
    ensures
        status_fault(status) is None <==> status.user.cred_present && status.user.marker_version
            == Some(1u32) && status.user.user.exists && status.user.user.in_builtin_users
            && status.user.user.in_sandbox_group && status.user.user.hidden_from_logon && (
        status.user.marker_user_sid matches Some(sid) && "S-1-5-21-"@.is_prefix_of(sid@)),
{
}

/// A lease is taken over exactly where it is of the first version, its identifier is one of a user,
/// and none of its mounts is relative.
pub proof fn law_leases_taken_over(record: LeaseRecord)
    ensures
        lease_fault(record) is None <==> record.version == 1 && "S-1-5-21-"@.is_prefix_of(
            record.sid@,
        ) && forall|i: int|
            0 <= i < record.mounts@.len() ==> is_absolute(
                Platform::Windows,
                (#[trigger] record.mounts@[i])@,
            ),
{
}

/// A lease in which everything goes well makes the directory, writes the lease, and then grants one
/// mount after another, and writes the lease anew after each.
pub proof fn law_lease_goes_in_order(outcomes: Seq<LeaseOutcome>, count: nat)
    requires
        count <= usize::MAX,
        forall|i: int| 0 <= i < outcomes.len() ==> (#[trigger] outcomes[i]) is Ok,
    ensures
        ({
            let n = outcomes.len();
            let state = leased_after(outcomes, count);
            let i = (n - 2) / 2;
            &&& n == 0 ==> state.next_action() == LeaseActionView::CreateDirectory
            &&& n == 1 ==> state.next_action() == LeaseActionView::WriteLease && state.stage
                == LeaseStage::Recording
            &&& 2 <= n < 2 * count + 2 && n % 2 == 0 ==> state.next_action()
                == LeaseActionView::Grant(i)
            &&& 2 <= n < 2 * count + 2 && n % 2 == 1 ==> state.next_action()
                == LeaseActionView::WriteLease && state.stage == LeaseStage::Updating(i as usize)
            &&& n >= 2 * count + 2 ==> state.stage is Leased && state.next_action()
                == LeaseActionView::Finish
        }),
    decreases outcomes.len(),
{
    if outcomes.len() > 0 {
        law_lease_goes_in_order(outcomes.drop_last(), count);
        assert(outcomes.last() is Ok);
    }
}

/// Whether a preparation that ended with an error is being undone, or has been.
spec fn goes_back(state: LeaseState, error: SandboxError) -> bool {
    ||| state.stage == LeaseStage::Revoking(error) && state.granted.len() > 0
        && state.next_action() == LeaseActionView::Revoke(state.granted.last())
    ||| state.stage == LeaseStage::RemovingLease(error) && state.granted.len() == 0
        && state.next_action() == LeaseActionView::RemoveLease
    ||| state.stage == LeaseStage::Failed(error) && state.granted.len() == 0
        && state.next_action() == LeaseActionView::Finish
}

/// The first thing that goes wrong decides how a lease ends. Before the first grant it has failed
/// at once; a grant that fails has everything taken back, one path after another from the last, as
/// many steps as there are paths and one for the lease itself; and a lease that could not be
/// written anew leaves what was granted.
pub proof fn law_failed_lease_goes_back(outcomes: Seq<LeaseOutcome>, n: nat, count: nat)
    requires
        count <= usize::MAX,
        n < outcomes.len(),
        n < 2 * count + 2,
        forall|i: int| 0 <= i < n ==> (#[trigger] outcomes[i]) is Ok,
        outcomes[n as int] is Err,
    ensures
        ({
            let error = outcomes[n as int]->Err_0;
            let state = leased_after(outcomes, count);
            let granted = leased_after(outcomes.take(n as int), count).granted;
            let since = outcomes.len() - n - 1;
            &&& n < 2 ==> state.stage == LeaseStage::Failed(error)
            &&& n >= 2 && n % 2 == 1 ==> state.stage == LeaseStage::Unrecorded(error)
            &&& n >= 2 && n % 2 == 0 && since < granted.len() ==> state.next_action()
                == LeaseActionView::Revoke(granted[granted.len() - 1 - since])
            &&& n >= 2 && n % 2 == 0 && since == granted.len() ==> state.next_action()
                == LeaseActionView::RemoveLease
            &&& n >= 2 && n % 2 == 0 && since > granted.len() ==> state.stage
                == LeaseStage::Failed(error)
        }),
{
    lemma_lease_goes_back(outcomes, n, count);
}

proof fn lemma_lease_goes_back(outcomes: Seq<LeaseOutcome>, n: nat, count: nat)
    requires
        count <= usize::MAX,
        n < outcomes.len(),
        n < 2 * count + 2,
        forall|i: int| 0 <= i < n ==> (#[trigger] outcomes[i]) is Ok,
        outcomes[n as int] is Err,
    ensures
        ({
            let error = outcomes[n as int]->Err_0;
            let state = leased_after(outcomes, count);
            let granted = leased_after(outcomes.take(n as int), count).granted;
            let since = outcomes.len() - n - 1;
            &&& n < 2 ==> state.stage == LeaseStage::Failed(error)
            &&& n >= 2 && n % 2 == 1 ==> state.stage == LeaseStage::Unrecorded(error)
            &&& n >= 2 && n % 2 == 0 ==> goes_back(state, error) && state.granted == granted.take(
                if since < granted.len() {
                    granted.len() - since
                } else {
                    0
                },
            ) && (state.stage is RemovingLease <==> since == granted.len()) && (
            state.stage is Failed <==> since > granted.len())
        }),
    decreases outcomes.len(),
{
    let earlier = outcomes.drop_last();
    let granted = leased_after(outcomes.take(n as int), count).granted;
    if outcomes.len() == n + 1 {
        assert(earlier =~= outcomes.take(n as int));
        assert forall|i: int| 0 <= i < earlier.len() implies (#[trigger] earlier[i]) is Ok by {
            assert(earlier[i] == outcomes[i]);
        }
        law_lease_goes_in_order(earlier, count);
        lemma_leased_counted(earlier, count);
        assert(granted.take(granted.len() as int) =~= granted);
    } else {
        assert(earlier.take(n as int) =~= outcomes.take(n as int));
        assert forall|i: int| 0 <= i < n implies (#[trigger] earlier[i]) is Ok by {
            assert(earlier[i] == outcomes[i]);
        }
        assert(earlier[n as int] == outcomes[n as int]);
        lemma_lease_goes_back(earlier, n, count);
        let before = leased_after(earlier, count);
        let after = leased_after(outcomes, count);
        if before.stage is Revoking {
            assert(after.granted =~= granted.take(before.granted.len() - 1));
        }
    }
}

/// The report claims no more than is enforced: writing, the network, the tree of processes and the
/// memory are, and it says of every other feature how far it is.
pub proof fn law_report_claims_what_is_enforced(report: CapabilityReport)
    requires
        is_report(report),
    ensures
        report.platform@ == "windows"@,
        report.backend@ == "windows-user-wfp-job"@,
        report.status == EnforcementStatus::Limited,
        report.features@["filesystemReadBoundary"@] == FeatureState::Limited,
        report.features@["filesystemWriteBoundary"@] == FeatureState::Enforced,
        report.features@["networkDeny"@] == FeatureState::Enforced,
        report.features@["processTree"@] == FeatureState::Enforced,
        report.features@["memoryLimit"@] == FeatureState::Enforced,
        report.features@["cpuLimit"@] == FeatureState::Enforced,
        report.features@["processLimit"@] == FeatureState::Enforced,
        report.features@["filesystemRpc"@] == FeatureState::Unavailable,
        report.reasons@.len() == 4,
{
    reveal_strlit("filesystemReadBoundary");
    reveal_strlit("filesystemWriteBoundary");
    reveal_strlit("networkDeny");
    reveal_strlit("processTree");
    reveal_strlit("memoryLimit");
    reveal_strlit("cpuLimit");
    reveal_strlit("processLimit");
    reveal_strlit("filesystemRpc");
    assert("filesystemReadBoundary"@.len() == 22 && "filesystemWriteBoundary"@.len() == 23
        && "cpuLimit"@.len() == 8 && "processLimit"@.len() == 12 && "filesystemRpc"@.len() == 13);
    assert("networkDeny"@.len() == 11 && "networkDeny"@[0] == 'n');
    assert("processTree"@.len() == 11 && "processTree"@[0] == 'p');
    assert("memoryLimit"@.len() == 11 && "memoryLimit"@[0] == 'm');
    assert(texts(report.reasons@).len() == 4);
}

} // verus!
