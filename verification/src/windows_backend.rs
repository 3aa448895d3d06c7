//! The Windows AppContainer backend: what it reports, how a sandbox is prepared and undone, and
//! what is launched in it.
use vstd::prelude::*;
use vstd::string::*;

use crate::authorization::{authorization_hash, hash_of, AuthorizationSpec};
use crate::digest::{is_digest_text, is_lower_hex};
use crate::error::{failure, Fault, SandboxError};
use crate::limits::{cpu_rate, job_limits, JobLimits};
use crate::path::{
    is_absolute, join_windows, path_is_absolute, path_starts_with, starts_with, windows_join,
    Platform,
};
use crate::policy::{ValidatedExecution, ValidatedMount, ValidatedPolicy};
use crate::protocol::{
    CapabilityReport, CommandSpec, EnforcementStatus, ExecutionLimits, FeatureState,
    FilesystemLeaseMode, LogicalPath, MountAccess, NetworkMode,
};
use crate::string_map::{lemma_pair_in_map, position, StringMap};
use crate::text::{
    alnum_prefix, concat, has_prefix, is_ascii_alnum, join_texts, joined, lemma_alnum_prefix_len,
    replace_char, replaced, skip_chars, take_alnum, texts,
};
use crate::windows_environment::{
    entry_texts, is_environment, process_environment, requested_entries, Entry,
};
use crate::windows_quoting::{
    arguments_of, law_quoted_arguments_read_back, quote_windows_argument, quoted,
};
use crate::workdir::{locate, located, WorkdirTarget};

verus! {

/// ACL entries were set on every object of a tree.
pub const ACL_STRATEGY_LEGACY_TREE: u8 = 0;

/// ACL entries were set on the root of a tree and inherited from there.
pub const ACL_STRATEGY_ROOT_INHERITED: u8 = 1;

/// How many characters of a sandbox's identifier go into the name of its profile.
pub const PROFILE_SUFFIX_CHARS: usize = 32;

pub const FILE_GENERIC_READ: u32 = 0x0012_0089;

pub const FILE_GENERIC_WRITE: u32 = 0x0012_0116;

pub const FILE_GENERIC_EXECUTE: u32 = 0x0012_00A0;

/// The right to delete an object.
pub const DELETE: u32 = 0x0001_0000;

/// The right to delete the children of a directory.
pub const FILE_DELETE_CHILD: u32 = 0x0000_0040;

/// How many characters of an authorization's name go into the name of its profile.
pub const STABLE_SUFFIX_CHARS: usize = 48;

/// A sandbox that is ready to run processes.
#[derive(Debug, Clone, PartialEq, Eq)]
pub struct PreparedWindowsSandbox {
    pub profile_name: String,
    pub sid: String,
    /// The journal of an ephemeral lease; a persistent one belongs to its authorization.
    pub journal: Option<String>,
    /// What is to be revoked when the sandbox is closed.
    pub mounts: Vec<String>,
    pub acl_strategy: u8,
}

/// What is written down before ACLs change, so that a later daemon can undo the changes.
#[derive(Debug, Clone, PartialEq, Eq)]
pub struct AclJournal {
    pub profile_name: String,
    pub sid: String,
    pub mounts: Vec<String>,
    pub acl_strategy: u8,
}

/// How ACL entries are taken back.
#[derive(Debug, Clone, Copy, PartialEq, Eq, Structural)]
pub enum Revocation {
    Root,
    Tree,
}

/// One thing to do when a sandbox is undone.
#[derive(Debug, Clone, PartialEq, Eq)]
pub enum RecoveryStep {
    Revoke(String),
    DeleteProfile,
    RemoveJournal,
}

/// What the launcher is asked to start.
#[derive(Debug, Clone, PartialEq, Eq)]
pub struct LaunchPlan {
    pub exe: String,
    pub command_line: String,
    pub cwd: String,
    pub environment: Vec<Entry>,
    pub internet_client: bool,
    pub job: JobLimits,
}

pub open spec fn system_cmd() -> Seq<char> {
    r"C:\Windows\System32\cmd.exe"@
}

pub fn system_cmd_path() -> (r: &'static str)
    ensures
        r@ == system_cmd(),
{
    r"C:\Windows\System32\cmd.exe"
}

/// Whether the tools that the backend needs are there.
pub fn probe(tools_present: bool) -> (r: Result<(), SandboxError>)
    ensures
        failure(r) == if tools_present {
            None
        } else {
            Some(
                Fault::BackendUnavailable(
                    "required Windows AppContainer support tools are unavailable"@,
                ),
            )
        },
{
    if tools_present {
        Ok(())
    } else {
        Err(
            SandboxError::backend_unavailable(
                "required Windows AppContainer support tools are unavailable",
            ),
        )
    }
}

/// Whether a report says what the backend enforces.
pub open spec fn is_report(report: CapabilityReport) -> bool {
    &&& report.platform@ == "windows"@
    &&& report.backend@ == "windows-appcontainer"@
    &&& report.status == EnforcementStatus::Limited
    &&& report.features@ == Map::<Seq<char>, FeatureState>::empty().insert(
        "filesystemReadBoundary"@,
        FeatureState::Enforced,
    ).insert("filesystemWriteBoundary"@, FeatureState::Enforced).insert(
        "networkDeny"@,
        FeatureState::Enforced,
    ).insert("processTree"@, FeatureState::Enforced).insert(
        "memoryLimit"@,
        FeatureState::Enforced,
    ).insert("cpuLimit"@, FeatureState::Limited).insert(
        "processLimit"@,
        FeatureState::Unavailable,
    ).insert("filesystemRpc"@, FeatureState::Unavailable)
    &&& texts(report.reasons@) == seq![
        "filesystem and network boundaries use AppContainer package capabilities"@,
        "process-tree and memory limits use a kill-on-close Job Object"@,
        "CPU is enforced as a job rate cap; an absolute CPU-time limit is not yet available"@,
        "per-job process count is not yet enforced"@,
    ]
}

/// What the backend enforces.
pub fn report() -> (r: CapabilityReport)
    ensures
        is_report(r),
{
    let mut features: StringMap<FeatureState> = StringMap::new();
    features.insert("filesystemReadBoundary".to_owned(), FeatureState::Enforced);
    features.insert("filesystemWriteBoundary".to_owned(), FeatureState::Enforced);
    features.insert("networkDeny".to_owned(), FeatureState::Enforced);
    features.insert("processTree".to_owned(), FeatureState::Enforced);
    features.insert("memoryLimit".to_owned(), FeatureState::Enforced);
    features.insert("cpuLimit".to_owned(), FeatureState::Limited);
    features.insert("processLimit".to_owned(), FeatureState::Unavailable);
    features.insert("filesystemRpc".to_owned(), FeatureState::Unavailable);
    let reasons = vec![
        "filesystem and network boundaries use AppContainer package capabilities".to_owned(),
        "process-tree and memory limits use a kill-on-close Job Object".to_owned(),
        "CPU is enforced as a job rate cap; an absolute CPU-time limit is not yet available"
            .to_owned(),
        "per-job process count is not yet enforced".to_owned(),
    ];
    assert(texts(reasons@) =~= seq![
        "filesystem and network boundaries use AppContainer package capabilities"@,
        "process-tree and memory limits use a kill-on-close Job Object"@,
        "CPU is enforced as a job rate cap; an absolute CPU-time limit is not yet available"@,
        "per-job process count is not yet enforced"@,
    ]);
    CapabilityReport {
        platform: "windows".to_owned(),
        backend: "windows-appcontainer".to_owned(),
        status: EnforcementStatus::Limited,
        features,
        reasons,
    }
}

/// The directory for recovery journals: the one that is configured, which must be absolute, or
/// one below the local application data.
pub fn state_directory(configured: Option<String>, local_app_data: Option<String>) -> (r: Result<
    String,
    SandboxError,
>)
    ensures
        match (configured, local_app_data) {
            (Some(path), _) => if is_absolute(Platform::Windows, path@) {
                r matches Ok(directory) && directory@ == path@
            } else {
                failure(r) == Some(
                    Fault::BackendUnavailable("AGENT_SANDBOX_STATE_DIR must be absolute"@),
                )
            },
            (None, Some(data)) => r matches Ok(directory) && directory@ == windows_join(
                windows_join(data@, "agent-sandbox"@),
                "state"@,
            ),
            (None, None) => failure(r) == Some(
                Fault::BackendUnavailable("LOCALAPPDATA is unavailable"@),
            ),
        },
{
    match configured {
        Some(path) => {
            if !path_is_absolute(Platform::Windows, &path) {
                return Err(
                    SandboxError::backend_unavailable("AGENT_SANDBOX_STATE_DIR must be absolute"),
                );
            }
            Ok(path)
        },
        None => match local_app_data {
            Some(data) => Ok(join_windows(&join_windows(&data, "agent-sandbox"), "state")),
            None => Err(SandboxError::backend_unavailable("LOCALAPPDATA is unavailable")),
        },
    }
}

/// Whether a journal can be one that this backend wrote.
pub open spec fn is_sound_journal(journal: AclJournal) -> bool {
    &&& "agent.sandbox."@.is_prefix_of(journal.profile_name@)
    &&& "S-1-15-2-"@.is_prefix_of(journal.sid@)
    &&& forall|i: int|
        0 <= i < journal.mounts@.len() ==> is_absolute(
            Platform::Windows,
            (#[trigger] journal.mounts@[i])@,
        )
}

/// The steps that undo what was done to mounts, the last mount first, then remove the profile and
/// the journal.
pub open spec fn undo_steps(mounts: Seq<Seq<char>>) -> Seq<RecoveryStepView> {
    mounts.reverse().map_values(|m: Seq<char>| RecoveryStepView::Revoke(m)).push(
        RecoveryStepView::DeleteProfile,
    ).push(RecoveryStepView::RemoveJournal)
}

pub ghost enum RecoveryStepView {
    Revoke(Seq<char>),
    DeleteProfile,
    RemoveJournal,
}

impl View for RecoveryStep {
    type V = RecoveryStepView;

    open spec fn view(&self) -> RecoveryStepView {
        match self {
            RecoveryStep::Revoke(path) => RecoveryStepView::Revoke(path@),
            RecoveryStep::DeleteProfile => RecoveryStepView::DeleteProfile,
            RecoveryStep::RemoveJournal => RecoveryStepView::RemoveJournal,
        }
    }
}

pub open spec fn step_views(steps: Seq<RecoveryStep>) -> Seq<RecoveryStepView> {
    steps.map_values(|s: RecoveryStep| s@)
}

/// Whether all paths of a list are absolute Windows paths.
pub fn all_absolute(paths: &Vec<String>) -> (r: bool)
    ensures
        r == forall|i: int|
            0 <= i < paths@.len() ==> is_absolute(Platform::Windows, (#[trigger] paths@[i])@),
{
    let mut i: usize = 0;
    while i < paths.len()
        invariant
            i <= paths@.len(),
            forall|j: int|
                0 <= j < i ==> is_absolute(Platform::Windows, (#[trigger] paths@[j])@),
        decreases paths@.len() - i,
    {
        if !path_is_absolute(Platform::Windows, &paths[i]) {
            return false;
        }
        i = i + 1;
    }
    true
}

/// Refuses a journal that this backend cannot have written.
pub fn validate_journal(journal: &AclJournal) -> (r: Result<(), SandboxError>)
    ensures
        failure(r) == if is_sound_journal(*journal) {
            None
        } else {
            Some(Fault::BackendUnavailable("recovery journal failed integrity validation"@))
        },
{
    if !has_prefix(&journal.profile_name, "agent.sandbox.") || !has_prefix(
        &journal.sid,
        "S-1-15-2-",
    ) || !all_absolute(&journal.mounts) {
        return Err(
            SandboxError::backend_unavailable("recovery journal failed integrity validation"),
        );
    }
    Ok(())
}

/// What to do, one step after another until one fails, to undo what a journal records.
pub fn recover_journal(journal: &AclJournal) -> (r: Result<Vec<RecoveryStep>, SandboxError>)
    ensures
        failure(r) == if is_sound_journal(*journal) {
            None
        } else {
            Some(Fault::BackendUnavailable("recovery journal failed integrity validation"@))
        },
        r matches Ok(steps) ==> step_views(steps@) == undo_steps(texts(journal.mounts@)),
{
    match validate_journal(journal) {
        Ok(()) => {},
        Err(error) => {
            return Err(error);
        },
    }
    Ok(undo_list(&journal.mounts))
}

/// What to do to undo a prepared sandbox. The journal is only removed where nothing failed. Nothing
/// is undone of a lease that is persistent.
pub fn cleanup_steps(sandbox: &PreparedWindowsSandbox) -> (r: Vec<RecoveryStep>)
    ensures
        step_views(r@) == match sandbox.journal {
            Some(_) => undo_steps(texts(sandbox.mounts@)),
            None => Seq::empty(),
        },
{
    match &sandbox.journal {
        Some(_) => undo_list(&sandbox.mounts),
        None => {
            let steps: Vec<RecoveryStep> = Vec::new();
            assert(step_views(steps@) =~= Seq::empty());
            steps
        },
    }
}

fn undo_list(mounts: &Vec<String>) -> (r: Vec<RecoveryStep>)
    ensures
        step_views(r@) == undo_steps(texts(mounts@)),
{
    let ghost wanted = texts(mounts@).reverse().map_values(
        |m: Seq<char>| RecoveryStepView::Revoke(m),
    );
    let mut steps: Vec<RecoveryStep> = Vec::new();
    let mut left: usize = mounts.len();
    while left > 0
        invariant
            left <= mounts@.len(),
            wanted == texts(mounts@).reverse().map_values(
                |m: Seq<char>| RecoveryStepView::Revoke(m),
            ),
            step_views(steps@) == wanted.take(mounts@.len() - left),
        decreases left,
    {
        let ghost before = step_views(steps@);
        steps.push(RecoveryStep::Revoke(mounts[left - 1].clone()));
        proof {
            assert(step_views(steps@) =~= before.push(
                RecoveryStepView::Revoke(mounts@[left - 1]@),
            ));
            assert(step_views(steps@) =~= wanted.take(mounts@.len() - (left - 1)));
        }
        left = left - 1;
    }
    assert(step_views(steps@) =~= wanted);
    let ghost revoked = steps@;
    steps.push(RecoveryStep::DeleteProfile);
    steps.push(RecoveryStep::RemoveJournal);
    assert(steps@ =~= revoked.push(RecoveryStep::DeleteProfile).push(RecoveryStep::RemoveJournal));
    assert(step_views(steps@) =~= undo_steps(texts(mounts@)));
    steps
}

/// How the entries that a strategy set are taken back.
pub fn revocation(acl_strategy: u8) -> (r: Result<Revocation, SandboxError>)
    ensures
        match r {
            Ok(Revocation::Root) => acl_strategy == ACL_STRATEGY_ROOT_INHERITED,
            Ok(Revocation::Tree) => acl_strategy == ACL_STRATEGY_LEGACY_TREE,
            Err(e) => acl_strategy != ACL_STRATEGY_ROOT_INHERITED && acl_strategy
                != ACL_STRATEGY_LEGACY_TREE && e@ == Fault::CapabilityUnavailable(
                "unknown ACL recovery strategy"@,
            ),
        },
{
    if acl_strategy == ACL_STRATEGY_ROOT_INHERITED {
        Ok(Revocation::Root)
    } else if acl_strategy == ACL_STRATEGY_LEGACY_TREE {
        Ok(Revocation::Tree)
    } else {
        Err(SandboxError::capability_unavailable("unknown ACL recovery strategy"))
    }
}

/// The result of undoing a sandbox, given what failed. On success the journal may go.
pub fn cleanup_outcome(failures: &Vec<String>) -> (r: Result<(), SandboxError>)
    ensures
        failure(r) == if failures@.len() == 0 {
            None
        } else {
            Some(
                Fault::Internal(
                    "sandbox cleanup incomplete; recovery journal retained: "@ + joined(
                        texts(failures@),
                        "; "@,
                    ),
                ),
            )
        },
{
    if failures.len() == 0 {
        Ok(())
    } else {
        Err(
            SandboxError::Internal(
                concat(
                    "sandbox cleanup incomplete; recovery journal retained: ",
                    &join_texts(failures, "; "),
                ),
            ),
        )
    }
}

/// The name of the profile of a sandbox.
pub open spec fn profile_name_of(sandbox_id: Seq<char>) -> Seq<char> {
    "agent.sandbox."@ + alnum_prefix(sandbox_id, PROFILE_SUFFIX_CHARS as nat)
}

/// The name of the profile of a sandbox, and the file name of its journal.
pub fn profile_names(sandbox_id: &str) -> (r: (String, String))
    ensures
        r.0@ == profile_name_of(sandbox_id@),
        r.1@ == alnum_prefix(sandbox_id@, PROFILE_SUFFIX_CHARS as nat) + ".json"@,
{
    let suffix = take_alnum(sandbox_id, PROFILE_SUFFIX_CHARS);
    (concat("agent.sandbox.", &suffix), concat(&suffix, ".json"))
}

/// The name of the profile of a persistent authorization, from the name under which the
/// authorization is kept. A profile's name can have no more than 64 characters.
pub open spec fn stable_profile_name_of(hash: Seq<char>) -> Seq<char> {
    "agent.sandbox."@ + alnum_prefix(hash, STABLE_SUFFIX_CHARS as nat)
}

/// The name of the profile of a persistent authorization, from the name under which the
/// authorization is kept.
pub fn stable_profile_name(hash: &str) -> (r: String)
    ensures
        r@ == stable_profile_name_of(hash@),
{
    concat("agent.sandbox.", &take_alnum(hash, STABLE_SUFFIX_CHARS))
}

/// The profile that a sandbox of a policy runs under: one of its own, or, where its lease is
/// persistent, the one of its authorization.
pub open spec fn profile_name_for(
    mode: FilesystemLeaseMode,
    sandbox_id: Seq<char>,
    authorization: AuthorizationSpec,
) -> Seq<char> {
    match mode {
        FilesystemLeaseMode::Ephemeral => profile_name_of(sandbox_id),
        FilesystemLeaseMode::Persistent => stable_profile_name_of(
            hash_of(authorization.tenant_id@, authorization.authorization_id@),
        ),
    }
}

/// The profile that a sandbox of a policy runs under.
pub fn profile_for(
    policy: &ValidatedPolicy,
    sandbox_id: &str,
    authorization: &AuthorizationSpec,
) -> (r: String)
    ensures
        r@ == profile_name_for(
            policy.original.filesystem.lease.mode,
            sandbox_id@,
            *authorization,
        ),
{
    match policy.original.filesystem.lease.mode {
        FilesystemLeaseMode::Ephemeral => profile_names(sandbox_id).0,
        FilesystemLeaseMode::Persistent => stable_profile_name(&authorization_hash(authorization)),
    }
}

/// All sandboxes of a persistent authorization run under the same profile, and so have the same
/// package identifier; and no sandbox with a profile of its own ever runs under that one.
pub proof fn law_persistent_profile_is_stable(
    sandbox_id: Seq<char>,
    other_id: Seq<char>,
    authorization: AuthorizationSpec,
)
    requires
        is_digest_text(hash_of(authorization.tenant_id@, authorization.authorization_id@)),
    ensures
        profile_name_for(FilesystemLeaseMode::Persistent, sandbox_id, authorization)
            == profile_name_for(FilesystemLeaseMode::Persistent, other_id, authorization),
        profile_name_for(FilesystemLeaseMode::Persistent, sandbox_id, authorization)
            != profile_name_for(FilesystemLeaseMode::Ephemeral, other_id, authorization),
        profile_name_for(FilesystemLeaseMode::Persistent, sandbox_id, authorization).len() <= 64,
{
    reveal_strlit("agent.sandbox.");
    let hash = hash_of(authorization.tenant_id@, authorization.authorization_id@);
    assert forall|i: int| 0 <= i < hash.len() implies is_ascii_alnum(#[trigger] hash[i]) by {
        assert(is_lower_hex(hash[i]));
    }
    lemma_alnum_prefix_len(hash, STABLE_SUFFIX_CHARS as nat);
    lemma_alnum_prefix_len(other_id, PROFILE_SUFFIX_CHARS as nat);
    assert(profile_name_of(other_id).len() < stable_profile_name_of(hash).len());
}

/// The sources of the mounts of a policy, in the order of their names.
pub open spec fn mount_sources(policy: ValidatedPolicy) -> Seq<Seq<char>> {
    policy.mounts.pairs().map_values(|pair: (Seq<char>, ValidatedMount)| pair.1.source@)
}

pub fn sources_of(policy: &ValidatedPolicy) -> (r: Vec<String>)
    ensures
        texts(r@) == mount_sources(*policy),
{
    let count: usize = policy.mounts.len();
    let mut sources: Vec<String> = Vec::new();
    let mut i: usize = 0;
    while i < count
        invariant
            i <= count == policy.mounts.pairs().len(),
            texts(sources@) == mount_sources(*policy).take(i as int),
        decreases count - i,
    {
        let ghost before = texts(sources@);
        sources.push(policy.mounts.value_at(i).source.clone());
        proof {
            assert(texts(sources@) =~= before.push(policy.mounts.pairs()[i as int].1.source@));
            assert(texts(sources@) =~= mount_sources(*policy).take(i as int + 1));
        }
        i = i + 1;
    }
    proof {
        assert(mount_sources(*policy).take(i as int) =~= mount_sources(*policy));
    }
    sources
}

/// What is written down before the ACLs of a sandbox's mounts change.
pub fn journal_of(profile_name: &str, sid: &str, policy: &ValidatedPolicy) -> (r: AclJournal)
    ensures
        r.profile_name@ == profile_name@,
        r.sid@ == sid@,
        texts(r.mounts@) == mount_sources(*policy),
        r.acl_strategy == ACL_STRATEGY_ROOT_INHERITED,
{
    AclJournal {
        profile_name: profile_name.to_owned(),
        sid: sid.to_owned(),
        mounts: sources_of(policy),
        acl_strategy: ACL_STRATEGY_ROOT_INHERITED,
    }
}

/// The rights that a package gets on a mount.
pub open spec fn grant_mask_of(access: MountAccess) -> u32 {
    match access {
        MountAccess::ReadOnly => FILE_GENERIC_READ,
        MountAccess::ReadWrite => FILE_GENERIC_READ | FILE_GENERIC_WRITE | DELETE
            | FILE_DELETE_CHILD,
    }
}

pub fn grant_mask(access: MountAccess) -> (r: u32)
    ensures
        r == grant_mask_of(access),
{
    match access {
        MountAccess::ReadOnly => FILE_GENERIC_READ,
        MountAccess::ReadWrite => FILE_GENERIC_READ | FILE_GENERIC_WRITE | DELETE
            | FILE_DELETE_CHILD,
    }
}

/// A read-only mount gives no right to change anything: none to write data, append, write
/// attributes, delete, or delete children.
pub proof fn law_read_only_grant_changes_nothing()
    ensures
        grant_mask_of(MountAccess::ReadOnly) & 0x0000_0156 == 0,
        grant_mask_of(MountAccess::ReadOnly) & DELETE == 0,
        grant_mask_of(MountAccess::ReadWrite) & grant_mask_of(MountAccess::ReadOnly)
            == grant_mask_of(MountAccess::ReadOnly),
{
    assert(0x0012_0089u32 & 0x0000_0156 == 0) by (bit_vector);
    assert(0x0012_0089u32 & 0x0001_0000 == 0) by (bit_vector);
    assert((0x0012_0089u32 | 0x0012_0116 | 0x0001_0000 | 0x0000_0040) & 0x0012_0089
        == 0x0012_0089u32) by (bit_vector);
}

/// The host path of the working directory: the mount and, in Windows form, the path below it.
pub fn workdir_target(policy: &ValidatedPolicy, logical: &str) -> (r: Result<
    WorkdirTarget,
    SandboxError,
>)
    ensures
        match located(*policy, logical@) {
            Some((source, relative)) => r matches Ok(target) && target.source@ == source
                && target.relative@ == replaced(relative, '/', '\\'),
            None => failure(r) == Some(
                Fault::InvalidPolicy("execution cwd references an unknown mount"@),
            ),
        },
{
    match locate(policy, logical) {
        Some(target) => Ok(
            WorkdirTarget {
                source: target.source,
                relative: replace_char(&target.relative, '/', '\\'),
            },
        ),
        None => Err(SandboxError::invalid_policy("execution cwd references an unknown mount")),
    }
}

/// The form of a path without the marker of a verbatim path.
pub open spec fn win32_form(path: Seq<char>) -> Seq<char> {
    if r"\\?\"@.is_prefix_of(path) {
        path.skip(r"\\?\"@.len() as int)
    } else {
        path
    }
}

/// The path as programs expect it, which do not all take verbatim paths.
pub fn to_win32_process_path(path: &str) -> (r: String)
    ensures
        r@ == win32_form(path@),
{
    if has_prefix(path, r"\\?\") {
        let marker: usize = r"\\?\".unicode_len();
        skip_chars(path, marker)
    } else {
        path.to_owned()
    }
}

/// Why a working directory is refused, given what the host says of it.
pub open spec fn workdir_fault(
    source: Seq<char>,
    canonical: Result<String, String>,
    is_directory: bool,
) -> Option<Fault> {
    match canonical {
        Err(reason) => Some(
            Fault::InvalidPolicy("execution cwd is unavailable: "@ + reason@),
        ),
        Ok(path) => if starts_with(Platform::Windows, path@, source) && is_directory {
            None
        } else {
            Some(Fault::InvalidPolicy("execution cwd escaped its mount or is not a directory"@))
        },
    }
}

/// The working directory of a process: it exists, and links have not led it out of its mount.
pub fn native_workdir(
    target: &WorkdirTarget,
    canonical: &Result<String, String>,
    is_directory: bool,
) -> (r: Result<String, SandboxError>)
    ensures
        failure(r) == workdir_fault(target.source@, *canonical, is_directory),
        r matches Ok(workdir) ==> (canonical matches Ok(path) && workdir@ == win32_form(path@)),
{
    match canonical {
        Err(reason) => Err(
            SandboxError::InvalidPolicy(concat("execution cwd is unavailable: ", reason)),
        ),
        Ok(path) => {
            if !path_starts_with(Platform::Windows, path, &target.source) || !is_directory {
                return Err(
                    SandboxError::invalid_policy(
                        "execution cwd escaped its mount or is not a directory",
                    ),
                );
            }
            Ok(to_win32_process_path(path))
        },
    }
}

/// The program that a command starts.
pub open spec fn exe_of(policy: ValidatedPolicy, command: CommandSpec) -> Seq<char> {
    match command {
        CommandSpec::Shell { .. } => system_cmd(),
        CommandSpec::Exec { program, .. } => win32_form(policy.executables@[program@].path@),
    }
}

/// The command line that a command stands for.
pub open spec fn command_line_of(policy: ValidatedPolicy, command: CommandSpec) -> Seq<char> {
    match command {
        CommandSpec::Shell { script, .. } => "/D /S /C "@ + script@,
        CommandSpec::Exec { args, .. } => joined(
            (seq![exe_of(policy, command)] + texts(args@)).map_values(|a: Seq<char>| quoted(a)),
            " "@,
        ),
    }
}

/// Why a command cannot be started: its program is not declared.
pub open spec fn program_fault(policy: ValidatedPolicy, command: CommandSpec) -> Option<Fault> {
    match command {
        CommandSpec::Exec { program, .. } if !policy.executables@.contains_key(program@) => Some(
            Fault::Process("program "@ + program@ + " is not a declared executable"@),
        ),
        _ => None,
    }
}

/// The program and the command line of a command.
pub fn command_line(policy: &ValidatedPolicy, command: &CommandSpec) -> (r: Result<
    (String, String),
    SandboxError,
>)
    ensures
        failure(r) == program_fault(*policy, *command),
        r matches Ok((exe, line)) ==> exe@ == exe_of(*policy, *command) && line@
            == command_line_of(*policy, *command),
{
    match command {
        CommandSpec::Shell { script, .. } => Ok(
            (system_cmd_path().to_owned(), concat("/D /S /C ", script)),
        ),
        CommandSpec::Exec { program, args } => {
            let found = match policy.resolve_executable(program) {
                Ok(found) => found,
                Err(error) => {
                    return Err(error);
                },
            };
            let exe = to_win32_process_path(&found.path);
            let line = quoted_line(&exe, args);
            Ok((exe, line))
        },
    }
}

fn quoted_line(exe: &str, args: &Vec<String>) -> (r: String)
    ensures
        r@ == joined(
            (seq![exe@] + texts(args@)).map_values(|a: Seq<char>| quoted(a)),
            " "@,
        ),
{
    let ghost all = seq![exe@] + texts(args@);
    let ghost forms = all.map_values(|a: Seq<char>| quoted(a));
    let mut parts: Vec<String> = Vec::new();
    parts.push(quote_windows_argument(exe));
    assert(texts(parts@) =~= forms.take(1));
    let mut i: usize = 0;
    while i < args.len()
        invariant
            i <= args@.len(),
            all == seq![exe@] + texts(args@),
            forms == all.map_values(|a: Seq<char>| quoted(a)),
            texts(parts@) == forms.take(i + 1),
        decreases args@.len() - i,
    {
        let ghost before = texts(parts@);
        parts.push(quote_windows_argument(&args[i]));
        proof {
            assert(all[i + 1] == args@[i as int]@);
            assert(texts(parts@) =~= before.push(quoted(args@[i as int]@)));
            assert(texts(parts@) =~= forms.take(i + 2));
        }
        i = i + 1;
    }
    proof {
        assert(forms.take(i + 1) =~= forms);
    }
    join_texts(&parts, " ")
}

/// Whether a plan starts the program of an execution, with its arguments, its variables and its
/// limits, and with access to the network only where the policy grants it.
pub open spec fn is_launch_plan(
    plan: LaunchPlan,
    policy: ValidatedPolicy,
    execution: ValidatedExecution,
    host: Map<Seq<char>, Vec<u8>>,
) -> bool {
    &&& plan.exe@ == exe_of(policy, execution.command)
    &&& plan.command_line@ == command_line_of(policy, execution.command)
    &&& is_environment(
        requested_entries(execution.environment),
        host,
        plan.cwd@,
        entry_texts(plan.environment@),
    )
    &&& plan.internet_client == (policy.original.network.mode == NetworkMode::Host)
    &&& plan.job.memory_bytes == if execution.limits.memory_bytes <= usize::MAX {
        execution.limits.memory_bytes as int
    } else {
        usize::MAX as int
    }
    &&& plan.job.cpu_rate_percent == cpu_rate(execution.limits)
    &&& plan.job.kill_on_job_close
}

/// What is launched for an execution whose working directory was accepted. `host` holds variables
/// of the host.
pub fn launch_plan(
    policy: &ValidatedPolicy,
    execution: &ValidatedExecution,
    workdir: String,
    host: &StringMap<Vec<u8>>,
) -> (r: Result<LaunchPlan, SandboxError>)
    requires
        execution.limits.wall_time_ms > 0,
    ensures
        failure(r) == program_fault(*policy, execution.command),
        r matches Ok(plan) ==> plan.cwd == workdir && is_launch_plan(
            plan,
            *policy,
            *execution,
            host@,
        ),
{
    let (exe, line) = match command_line(policy, &execution.command) {
        Ok(parts) => parts,
        Err(error) => {
            return Err(error);
        },
    };
    let environment = process_environment(&execution.environment, host, &workdir);
    Ok(
        LaunchPlan {
            exe,
            command_line: line,
            cwd: workdir,
            environment,
            internet_client: policy.original.network.mode == NetworkMode::Host,
            job: job_limits(&execution.limits),
        },
    )
}

/// The program of an execution that was admitted is always found when it is launched.
pub proof fn law_admitted_program_is_found(
    policy: ValidatedPolicy,
    command: CommandSpec,
    cwd: LogicalPath,
    environment: StringMap<String>,
    limits: ExecutionLimits,
)
    requires
        policy.execution_fault(command, cwd, environment, limits) is None,
    ensures
        program_fault(policy, command) is None,
{
}

/// A program started with arguments reads exactly those arguments behind its own name.
pub proof fn law_program_reads_its_arguments(
    policy: ValidatedPolicy,
    program: String,
    args: Vec<String>,
)
    ensures
        ({
            let command = CommandSpec::Exec { program, args };
            arguments_of(command_line_of(policy, command)) == seq![exe_of(policy, command)] + texts(
                args@,
            )
        }),
{
    let command = CommandSpec::Exec { program, args };
    law_quoted_arguments_read_back(seq![exe_of(policy, command)] + texts(args@));
}

/// How far the preparation of a sandbox has come.
pub enum PrepareStage {
    /// The profile is to be created.
    Profile,
    /// The directory for journals is to be created.
    Directory,
    /// The journal is to be written.
    Journal,
    /// The mount at this place is to be granted; the ones before it are.
    Granting(usize),
    /// Granting this mount failed: what may have been done to it is to be taken back.
    UndoingFailed(usize, SandboxError),
    /// The mounts up to and with this one are still granted; this one is to be taken back next.
    Revoking(usize, SandboxError),
    /// No mount is granted; the profile is to be deleted.
    DeletingProfile(SandboxError),
    /// The journal is to be removed.
    RemovingJournal(SandboxError),
    /// The preparation failed and has been undone.
    Failed(SandboxError),
    /// Every mount is granted.
    Ready,
}

/// What is to be done next.
#[derive(Debug, Clone, Copy, PartialEq, Eq, Structural)]
pub enum PrepareAction {
    EnsureProfile,
    CreateDirectory,
    WriteJournal,
    Grant(usize),
    UndoGrant(usize),
    Revoke(usize),
    DeleteProfile,
    RemoveJournal,
    Finish,
}

impl PrepareStage {
    /// How many mounts, counted from the first, are known to be granted.
    pub open spec fn granted(self, mounts: nat) -> nat {
        match self {
            PrepareStage::Granting(i) => i as nat,
            PrepareStage::UndoingFailed(i, _) => i as nat,
            PrepareStage::Revoking(i, _) => i as nat + 1,
            PrepareStage::Ready => mounts,
            _ => 0,
        }
    }

    pub open spec fn wf(self, mounts: nat) -> bool {
        match self {
            PrepareStage::Granting(i) => i < mounts,
            PrepareStage::UndoingFailed(i, _) => i < mounts,
            PrepareStage::Revoking(i, _) => i < mounts,
            _ => true,
        }
    }

    /// Whether a mount may be granted, or the profile is still to be deleted.
    pub open spec fn may_have_granted(self) -> bool {
        match self {
            PrepareStage::Granting(_) => true,
            PrepareStage::UndoingFailed(_, _) => true,
            PrepareStage::Revoking(_, _) => true,
            PrepareStage::DeletingProfile(_) => true,
            PrepareStage::RemovingJournal(_) => true,
            PrepareStage::Ready => true,
            _ => false,
        }
    }

    /// The next action.
    pub open spec fn next_action(self) -> PrepareAction {
        match self {
            PrepareStage::Profile => PrepareAction::EnsureProfile,
            PrepareStage::Directory => PrepareAction::CreateDirectory,
            PrepareStage::Journal => PrepareAction::WriteJournal,
            PrepareStage::Granting(i) => PrepareAction::Grant(i),
            PrepareStage::UndoingFailed(i, _) => PrepareAction::UndoGrant(i),
            PrepareStage::Revoking(i, _) => PrepareAction::Revoke(i),
            PrepareStage::DeletingProfile(_) => PrepareAction::DeleteProfile,
            PrepareStage::RemovingJournal(_) => PrepareAction::RemoveJournal,
            PrepareStage::Failed(_) => PrepareAction::Finish,
            PrepareStage::Ready => PrepareAction::Finish,
        }
    }

    /// The stage after the action was done with this outcome. What is undone is undone as far as
    /// it goes: its own failures are not reported, the first failure is.
    pub open spec fn after(self, outcome: Result<(), SandboxError>, mounts: nat) -> Self {
        match self {
            PrepareStage::Profile => match outcome {
                Ok(()) => PrepareStage::Directory,
                Err(e) => PrepareStage::Failed(e),
            },
            PrepareStage::Directory => match outcome {
                Ok(()) => PrepareStage::Journal,
                Err(e) => PrepareStage::Failed(e),
            },
            PrepareStage::Journal => match outcome {
                Ok(()) => if mounts == 0 {
                    PrepareStage::Ready
                } else {
                    PrepareStage::Granting(0)
                },
                Err(e) => PrepareStage::Failed(e),
            },
            PrepareStage::Granting(i) => match outcome {
                Ok(()) => if i + 1 < mounts {
                    PrepareStage::Granting((i + 1) as usize)
                } else {
                    PrepareStage::Ready
                },
                Err(e) => PrepareStage::UndoingFailed(i, e),
            },
            PrepareStage::UndoingFailed(i, e) => if i > 0 {
                PrepareStage::Revoking((i - 1) as usize, e)
            } else {
                PrepareStage::DeletingProfile(e)
            },
            PrepareStage::Revoking(i, e) => if i > 0 {
                PrepareStage::Revoking((i - 1) as usize, e)
            } else {
                PrepareStage::DeletingProfile(e)
            },
            PrepareStage::DeletingProfile(e) => PrepareStage::RemovingJournal(e),
            PrepareStage::RemovingJournal(e) => PrepareStage::Failed(e),
            PrepareStage::Failed(e) => PrepareStage::Failed(e),
            PrepareStage::Ready => PrepareStage::Ready,
        }
    }

    /// An upper bound on the actions that are still to come.
    pub open spec fn actions_left(self, mounts: nat) -> nat {
        match self {
            PrepareStage::Profile => 2 * mounts + 8,
            PrepareStage::Directory => 2 * mounts + 7,
            PrepareStage::Journal => 2 * mounts + 6,
            PrepareStage::Granting(i) => (2 * mounts + 5 - i) as nat,
            PrepareStage::UndoingFailed(i, _) => (mounts + 4) as nat,
            PrepareStage::Revoking(i, _) => (i + 3) as nat,
            PrepareStage::DeletingProfile(_) => 2,
            PrepareStage::RemovingJournal(_) => 1,
            PrepareStage::Failed(_) => 0,
            PrepareStage::Ready => 0,
        }
    }

    /// What is to be done next.
    pub fn action(&self) -> (r: PrepareAction)
        ensures
            r == self.next_action(),
    {
        match self {
            PrepareStage::Profile => PrepareAction::EnsureProfile,
            PrepareStage::Directory => PrepareAction::CreateDirectory,
            PrepareStage::Journal => PrepareAction::WriteJournal,
            PrepareStage::Granting(i) => PrepareAction::Grant(*i),
            PrepareStage::UndoingFailed(i, _) => PrepareAction::UndoGrant(*i),
            PrepareStage::Revoking(i, _) => PrepareAction::Revoke(*i),
            PrepareStage::DeletingProfile(_) => PrepareAction::DeleteProfile,
            PrepareStage::RemovingJournal(_) => PrepareAction::RemoveJournal,
            PrepareStage::Failed(_) => PrepareAction::Finish,
            PrepareStage::Ready => PrepareAction::Finish,
        }
    }

    /// Takes note of the outcome of the action.
    pub fn advance(self, outcome: Result<(), SandboxError>, mounts: usize) -> (r: Self)
        requires
            self.wf(mounts as nat),
        ensures
            r == self.after(outcome, mounts as nat),
            r.wf(mounts as nat),
    {
        match self {
            PrepareStage::Profile => match outcome {
                Ok(()) => PrepareStage::Directory,
                Err(e) => PrepareStage::Failed(e),
            },
            PrepareStage::Directory => match outcome {
                Ok(()) => PrepareStage::Journal,
                Err(e) => PrepareStage::Failed(e),
            },
            PrepareStage::Journal => match outcome {
                Ok(()) => if mounts == 0 {
                    PrepareStage::Ready
                } else {
                    PrepareStage::Granting(0)
                },
                Err(e) => PrepareStage::Failed(e),
            },
            PrepareStage::Granting(i) => match outcome {
                Ok(()) => if i + 1 < mounts {
                    PrepareStage::Granting(i + 1)
                } else {
                    PrepareStage::Ready
                },
                Err(e) => PrepareStage::UndoingFailed(i, e),
            },
            PrepareStage::UndoingFailed(i, e) => if i > 0 {
                PrepareStage::Revoking(i - 1, e)
            } else {
                PrepareStage::DeletingProfile(e)
            },
            PrepareStage::Revoking(i, e) => if i > 0 {
                PrepareStage::Revoking(i - 1, e)
            } else {
                PrepareStage::DeletingProfile(e)
            },
            PrepareStage::DeletingProfile(e) => PrepareStage::RemovingJournal(e),
            PrepareStage::RemovingJournal(e) => PrepareStage::Failed(e),
            PrepareStage::Failed(e) => PrepareStage::Failed(e),
            PrepareStage::Ready => PrepareStage::Ready,
        }
    }
}

/// The stage after a number of actions with given outcomes.
pub open spec fn prepared_after(
    outcomes: Seq<Result<(), SandboxError>>,
    mounts: nat,
) -> PrepareStage
    decreases outcomes.len(),
{
    if outcomes.len() == 0 {
        PrepareStage::Profile
    } else {
        prepared_after(outcomes.drop_last(), mounts).after(outcomes.last(), mounts)
    }
}

/// The mounts whose grants stand after a number of actions: what was granted and not revoked.
pub open spec fn standing_grants(outcomes: Seq<Result<(), SandboxError>>, mounts: nat) -> Set<int>
    decreases outcomes.len(),
{
    if outcomes.len() == 0 {
        Set::empty()
    } else {
        let before = standing_grants(outcomes.drop_last(), mounts);
        match prepared_after(outcomes.drop_last(), mounts).next_action() {
            PrepareAction::Grant(i) => if outcomes.last() is Ok {
                before.insert(i as int)
            } else {
                before
            },
            PrepareAction::Revoke(i) => before.remove(i as int),
            _ => before,
        }
    }
}

proof fn lemma_grants_counted(outcomes: Seq<Result<(), SandboxError>>, mounts: nat)
    requires
        mounts <= usize::MAX,
    ensures
        prepared_after(outcomes, mounts).wf(mounts),
        standing_grants(outcomes, mounts) =~= Set::new(
            |i: int| 0 <= i < prepared_after(outcomes, mounts).granted(mounts),
        ),
    decreases outcomes.len(),
{
    if outcomes.len() > 0 {
        lemma_grants_counted(outcomes.drop_last(), mounts);
    }
}

/// However the actions turn out: a preparation that failed has taken back every grant, and one
/// that is ready has granted every mount.
pub proof fn law_failed_preparation_leaves_no_grant(
    outcomes: Seq<Result<(), SandboxError>>,
    mounts: nat,
)
    requires
        mounts <= usize::MAX,
    ensures
        prepared_after(outcomes, mounts) is Failed ==> standing_grants(outcomes, mounts)
            == Set::<int>::empty(),
        prepared_after(outcomes, mounts) is Ready ==> standing_grants(outcomes, mounts) == Set::new(
            |i: int| 0 <= i < mounts,
        ),
{
    lemma_grants_counted(outcomes, mounts);
    if prepared_after(outcomes, mounts) is Failed {
        assert(standing_grants(outcomes, mounts) =~= Set::<int>::empty());
    }
}

/// A preparation comes to an end: after as many actions as two for each mount and eight more it
/// is ready or has failed.
pub proof fn law_preparation_ends(outcomes: Seq<Result<(), SandboxError>>, mounts: nat)
    requires
        mounts <= usize::MAX,
        outcomes.len() >= 2 * mounts + 8,
    ensures
        prepared_after(outcomes, mounts).next_action() == PrepareAction::Finish,
{
    lemma_actions_left(outcomes, mounts);
}

proof fn lemma_actions_left(outcomes: Seq<Result<(), SandboxError>>, mounts: nat)
    requires
        mounts <= usize::MAX,
    ensures
        prepared_after(outcomes, mounts).wf(mounts),
        prepared_after(outcomes, mounts).next_action() == PrepareAction::Finish || prepared_after(
            outcomes,
            mounts,
        ).actions_left(mounts) + outcomes.len() <= 2 * mounts + 8,
    decreases outcomes.len(),
{
    if outcomes.len() > 0 {
        lemma_actions_left(outcomes.drop_last(), mounts);
    }
}

/// Whether the journal of a preparation is kept after a number of actions.
pub open spec fn journal_stands(outcomes: Seq<Result<(), SandboxError>>, mounts: nat) -> bool
    decreases outcomes.len(),
{
    if outcomes.len() == 0 {
        false
    } else {
        match prepared_after(outcomes.drop_last(), mounts).next_action() {
            PrepareAction::WriteJournal => outcomes.last() is Ok,
            PrepareAction::RemoveJournal => false,
            _ => journal_stands(outcomes.drop_last(), mounts),
        }
    }
}

proof fn lemma_grants_are_journaled(outcomes: Seq<Result<(), SandboxError>>, mounts: nat)
    requires
        mounts <= usize::MAX,
    ensures
        prepared_after(outcomes, mounts).may_have_granted() ==> journal_stands(outcomes, mounts),
    decreases outcomes.len(),
{
    if outcomes.len() > 0 {
        lemma_grants_are_journaled(outcomes.drop_last(), mounts);
    }
}

/// Wherever a preparation is cut short, a later daemon undoes it: from the first grant on, as long
/// as anything may be granted or the profile is there to be deleted, there is a journal, which is
/// accepted, and by which every mount is revoked before the profile and the journal go.
pub proof fn law_interrupted_preparation_is_undone(
    outcomes: Seq<Result<(), SandboxError>>,
    journal: AclJournal,
    sandbox_id: Seq<char>,
    i: int,
)
    requires
        journal.mounts@.len() <= usize::MAX,
        journal.profile_name@ == profile_name_of(sandbox_id),
        "S-1-15-2-"@.is_prefix_of(journal.sid@),
        forall|j: int|
            0 <= j < journal.mounts@.len() ==> is_absolute(
                Platform::Windows,
                (#[trigger] journal.mounts@[j])@,
            ),
        prepared_after(outcomes, journal.mounts@.len()).may_have_granted(),
        0 <= i < journal.mounts@.len(),
    ensures
        journal_stands(outcomes, journal.mounts@.len()),
        is_sound_journal(journal),
        ({
            let steps = undo_steps(texts(journal.mounts@));
            let count = journal.mounts@.len() as int;
            &&& steps.len() == count + 2
            &&& steps[count - 1 - i] == RecoveryStepView::Revoke(journal.mounts@[i]@)
            &&& steps[count] == RecoveryStepView::DeleteProfile
            &&& steps[count + 1] == RecoveryStepView::RemoveJournal
        }),
{
    lemma_grants_are_journaled(outcomes, journal.mounts@.len());
    let suffix = alnum_prefix(sandbox_id, PROFILE_SUFFIX_CHARS as nat);
    assert("agent.sandbox."@ =~= ("agent.sandbox."@ + suffix).take("agent.sandbox."@.len() as int));
}

/// A script is run by the system's own command interpreter, and what stands on the command line
/// behind its switches is the script as it was written, whatever the script holds.
pub proof fn law_script_is_run_as_written(policy: ValidatedPolicy, command: CommandSpec)
    requires
        command is Shell,
    ensures
        ({
            let line = command_line_of(policy, command);
            &&& line.take(9) == seq!['/', 'D', ' ', '/', 'S', ' ', '/', 'C', ' ']
            &&& line.skip(9) == command->script@
            &&& line.len() == 9 + command->script@.len()
        }),
        exe_of(policy, command) == r"C:\Windows\System32\cmd.exe"@,
        program_fault(policy, command) is None,
{
    reveal_strlit("/D /S /C ");
    let line = command_line_of(policy, command);
    assert(line.take(9) =~= seq!['/', 'D', ' ', '/', 'S', ' ', '/', 'C', ' ']);
    assert(line.skip(9) =~= command->script@);
}

/// A program is started where it was declared, from the very file that was declared under its name,
/// and not at all where it was not.
pub proof fn law_declared_program_is_started(policy: ValidatedPolicy, command: CommandSpec)
    requires
        command is Exec,
    ensures
        program_fault(policy, command) is None <==> policy.executables@.contains_key(
            command->program@,
        ),
        ({
            let path = policy.executables@[command->program@].path@;
            let exe = exe_of(policy, command);
            exe == path || path == seq!['\\', '\\', '?', '\\'] + exe
        }),
{
    law_verbatim_marker_is_dropped(policy.executables@[command->program@].path@);
}

/// Of a verbatim path nothing is lost but its marker, and of any other path nothing at all.
pub proof fn law_verbatim_marker_is_dropped(path: Seq<char>)
    ensures
        win32_form(seq!['\\', '\\', '?', '\\'] + path) == path,
        !seq!['\\', '\\', '?', '\\'].is_prefix_of(path) ==> win32_form(path) == path,
        win32_form(path) == path || path == seq!['\\', '\\', '?', '\\'] + win32_form(path),
{
    reveal_strlit(r"\\?\");
    let marker = seq!['\\', '\\', '?', '\\'];
    assert(r"\\?\"@ =~= marker);
    let whole = marker + path;
    assert(whole.subrange(0, 4) =~= marker);
    assert(win32_form(whole) =~= path);
    if marker.is_prefix_of(path) {
        assert(path =~= marker + path.skip(4));
    }
}

/// What is launched for an execution: its program with its command line, access to the network only
/// where the policy is for the host's network, no more memory than its limit, and a job that takes
/// every process down with it when it is closed.
pub proof fn law_launched_process(
    plan: LaunchPlan,
    policy: ValidatedPolicy,
    execution: ValidatedExecution,
    host: Map<Seq<char>, Vec<u8>>,
)
    requires
        is_launch_plan(plan, policy, execution, host),
    ensures
        execution.command is Shell ==> plan.exe@ == r"C:\Windows\System32\cmd.exe"@
            && plan.command_line@.skip(9) == execution.command->script@,
        execution.command is Exec ==> arguments_of(plan.command_line@) == seq![plan.exe@] + texts(
            execution.command->args@,
        ),
        plan.internet_client <==> policy.original.network.mode == NetworkMode::Host,
        policy.original.network.mode == NetworkMode::Deny ==> !plan.internet_client,
        plan.job.kill_on_job_close,
        plan.job.memory_bytes <= execution.limits.memory_bytes,
        execution.limits.memory_bytes <= usize::MAX ==> plan.job.memory_bytes
            == execution.limits.memory_bytes,
{
    match execution.command {
        CommandSpec::Shell { .. } => {
            law_script_is_run_as_written(policy, execution.command);
        },
        CommandSpec::Exec { program, args } => {
            law_program_reads_its_arguments(policy, program, args);
        },
    }
}

/// A process is given a working directory exactly where the host has it, it is a directory, and it
/// is at its mount or below it.
pub proof fn law_working_directory_stays_in_its_mount(
    source: Seq<char>,
    canonical: Result<String, String>,
    is_directory: bool,
)
    ensures
        workdir_fault(source, canonical, is_directory) is None <==> is_directory && (
        canonical matches Ok(path) && starts_with(Platform::Windows, path@, source)),
{
}

/// What undoes mounts takes every one of them back, the last first, and only then deletes the
/// profile, and the journal last of all.
pub proof fn law_undoing_takes_every_mount_back(mounts: Seq<Seq<char>>, i: int)
    ensures
        undo_steps(mounts).len() == mounts.len() + 2,
        0 <= i < mounts.len() ==> undo_steps(mounts)[i] == RecoveryStepView::Revoke(
            mounts[mounts.len() - 1 - i],
        ),
        undo_steps(mounts)[mounts.len() as int] == RecoveryStepView::DeleteProfile,
        undo_steps(mounts)[mounts.len() as int + 1] == RecoveryStepView::RemoveJournal,
{
}

/// A journal is believed only where its profile is one of the sandbox's, its identifier is one of a
/// package, and none of its mounts is relative; and the journal that is written for a sandbox of a
/// policy is believed, and takes every mount of the policy back.
pub proof fn law_written_journal_is_believed(
    journal: AclJournal,
    policy: ValidatedPolicy,
    sandbox_id: Seq<char>,
    name: Seq<char>,
    i: int,
)
    requires
        policy.mounts.wf(),
    ensures
        is_sound_journal(journal) && 0 <= i < journal.mounts@.len() ==> is_absolute(
            Platform::Windows,
            journal.mounts@[i]@,
        ),
        is_sound_journal(journal) ==> journal.profile_name@.len() >= 14
            && journal.profile_name@.take(14) == "agent.sandbox."@ && journal.sid@.len() >= 9
            && journal.sid@.take(9) == "S-1-15-2-"@,
        journal.profile_name@ == profile_name_of(sandbox_id) && "S-1-15-2-"@.is_prefix_of(
            journal.sid@,
        ) && texts(journal.mounts@) == mount_sources(policy) && (forall|other: Seq<char>|
            policy.mounts@.contains_key(other) ==> is_absolute(
                Platform::Windows,
                (#[trigger] policy.mounts@[other]).source@,
            )) ==> is_sound_journal(journal) && (policy.mounts@.contains_key(name)
            ==> undo_steps(texts(journal.mounts@)).contains(
            RecoveryStepView::Revoke(policy.mounts@[name].source@),
        )),
{
    reveal_strlit("agent.sandbox.");
    reveal_strlit("S-1-15-2-");
    assert(journal.profile_name@.take(14) =~= journal.profile_name@.subrange(0, 14));
    assert(journal.sid@.take(9) =~= journal.sid@.subrange(0, 9));
    if journal.profile_name@ == profile_name_of(sandbox_id) && "S-1-15-2-"@.is_prefix_of(
        journal.sid@,
    ) && texts(journal.mounts@) == mount_sources(policy) && (forall|other: Seq<char>|
        policy.mounts@.contains_key(other) ==> is_absolute(
            Platform::Windows,
            (#[trigger] policy.mounts@[other]).source@,
        )) {
        let pairs = policy.mounts.pairs();
        let list = texts(journal.mounts@);
        assert(journal.profile_name@.subrange(0, 14) =~= "agent.sandbox."@);
        assert forall|k: int| 0 <= k < journal.mounts@.len() implies is_absolute(
            Platform::Windows,
            (#[trigger] journal.mounts@[k])@,
        ) by {
            assert(list[k] == mount_sources(policy)[k]);
            lemma_pair_in_map(pairs, k);
            assert(policy.mounts@[pairs[k].0].source@ == list[k]);
        }
        if policy.mounts@.contains_key(name) {
            let p = position(pairs, name);
            lemma_pair_in_map(pairs, p);
            assert(list[p] == policy.mounts@[name].source@);
            law_undoing_takes_every_mount_back(list, list.len() - 1 - p);
            assert(undo_steps(list)[list.len() - 1 - p] == RecoveryStepView::Revoke(list[p]));
        }
    }
}

/// What a package may do on a mount, bit by bit: read what is only read; read, write and delete
/// what is written to; and nowhere change permissions or take ownership.
pub proof fn law_granted_rights()
    ensures
        grant_mask_of(MountAccess::ReadOnly) == 0x0012_0089,
        grant_mask_of(MountAccess::ReadWrite) == 0x0013_01DF,
{
    assert((0x0012_0089u32 | 0x0012_0116 | 0x0001_0000 | 0x0000_0040) == 0x0013_01DFu32)
        by (bit_vector);
}

/// A profile has a name of at most sixty-four characters, be it that of a sandbox or that of an
/// authorization, and the name says that the profile is one of the daemon's.
pub proof fn law_profile_names_are_short(sandbox_id: Seq<char>, hash: Seq<char>)
    ensures
        profile_name_of(sandbox_id).len() <= 64,
        stable_profile_name_of(hash).len() <= 64,
        profile_name_of(sandbox_id).take(14) == "agent.sandbox."@,
        stable_profile_name_of(hash).take(14) == "agent.sandbox."@,
{
    reveal_strlit("agent.sandbox.");
    lemma_alnum_prefix_len(sandbox_id, PROFILE_SUFFIX_CHARS as nat);
    lemma_alnum_prefix_len(hash, STABLE_SUFFIX_CHARS as nat);
    assert(profile_name_of(sandbox_id).take(14) =~= "agent.sandbox."@);
    assert(stable_profile_name_of(hash).take(14) =~= "agent.sandbox."@);
}

/// A preparation in which everything goes well makes the profile, then the directory, then writes
/// the journal, and only then grants the mounts, in order.
pub proof fn law_preparation_goes_in_order(outcomes: Seq<Result<(), SandboxError>>, mounts: nat)
    requires
        mounts <= usize::MAX,
        forall|i: int| 0 <= i < outcomes.len() ==> (#[trigger] outcomes[i]) is Ok,
    ensures
        ({
            let n = outcomes.len();
            let stage = prepared_after(outcomes, mounts);
            &&& n == 0 ==> stage.next_action() == PrepareAction::EnsureProfile
            &&& n == 1 ==> stage.next_action() == PrepareAction::CreateDirectory
            &&& n == 2 ==> stage.next_action() == PrepareAction::WriteJournal
            &&& 3 <= n < mounts + 3 ==> stage.next_action() == PrepareAction::Grant(
                (n - 3) as usize,
            )
            &&& n >= mounts + 3 ==> stage is Ready && stage.next_action() == PrepareAction::Finish
        }),
    decreases outcomes.len(),
{
    if outcomes.len() > 0 {
        law_preparation_goes_in_order(outcomes.drop_last(), mounts);
        assert(outcomes.last() is Ok);
    }
}

/// The first thing that goes wrong ends a preparation with its error. Before the first grant
/// nothing is undone; after it, first the grant that failed is taken back, then those before it,
/// the last first, then the profile is deleted and the journal removed, however each of that goes.
pub proof fn law_failed_preparation_goes_back(
    outcomes: Seq<Result<(), SandboxError>>,
    n: nat,
    mounts: nat,
)
    requires
        mounts <= usize::MAX,
        n < outcomes.len(),
        n < mounts + 3,
        forall|i: int| 0 <= i < n ==> (#[trigger] outcomes[i]) is Ok,
        outcomes[n as int] is Err,
    ensures
        ({
            let error = outcomes[n as int]->Err_0;
            let stage = prepared_after(outcomes, mounts);
            let since = outcomes.len() - n - 1;
            &&& n < 3 ==> stage == PrepareStage::Failed(error)
            &&& n >= 3 ==> {
                &&& since <= n - 3 ==> stage == if since == 0 {
                    PrepareStage::UndoingFailed((n - 3) as usize, error)
                } else {
                    PrepareStage::Revoking((n - 3 - since) as usize, error)
                }
                &&& since == 0 ==> stage.next_action() == PrepareAction::UndoGrant((n - 3) as usize)
                &&& 0 < since <= n - 3 ==> stage.next_action() == PrepareAction::Revoke(
                    (n - 3 - since) as usize,
                )
                &&& since == n - 2 ==> stage == PrepareStage::DeletingProfile(error)
                    && stage.next_action() == PrepareAction::DeleteProfile
                &&& since == n - 1 ==> stage == PrepareStage::RemovingJournal(error)
                    && stage.next_action() == PrepareAction::RemoveJournal
                &&& since >= n ==> stage == PrepareStage::Failed(error) && stage.next_action()
                    == PrepareAction::Finish
            }
        }),
    decreases outcomes.len(),
{
    let earlier = outcomes.drop_last();
    if outcomes.len() == n + 1 {
        assert forall|i: int| 0 <= i < earlier.len() implies (#[trigger] earlier[i]) is Ok by {
            assert(earlier[i] == outcomes[i]);
        }
        law_preparation_goes_in_order(earlier, mounts);
    } else {
        assert forall|i: int| 0 <= i < n implies (#[trigger] earlier[i]) is Ok by {
            assert(earlier[i] == outcomes[i]);
        }
        assert(earlier[n as int] == outcomes[n as int]);
        law_failed_preparation_goes_back(earlier, n, mounts);
    }
}

/// The report claims no more than is enforced: writing, the network, the tree of processes and the
/// memory are, and it says of every other feature how far it is.
pub proof fn law_report_claims_what_is_enforced(report: CapabilityReport)
    requires
        is_report(report),
    ensures
        report.platform@ == "windows"@,
        report.backend@ == "windows-appcontainer"@,
        report.status == EnforcementStatus::Limited,
        report.features@["filesystemReadBoundary"@] == FeatureState::Enforced,
        report.features@["filesystemWriteBoundary"@] == FeatureState::Enforced,
        report.features@["networkDeny"@] == FeatureState::Enforced,
        report.features@["processTree"@] == FeatureState::Enforced,
        report.features@["memoryLimit"@] == FeatureState::Enforced,
        report.features@["cpuLimit"@] == FeatureState::Limited,
        report.features@["processLimit"@] == FeatureState::Unavailable,
        report.features@["filesystemRpc"@] == FeatureState::Unavailable,
        report.reasons@.len() == 4,
{
    reveal_strlit("filesystemReadBoundary");
    reveal_strlit("filesystemWriteBoundary");
    reveal_strlit("networkDeny");
    reveal_strlit("processTree");
    reveal_strlit("memoryLimit");
    reveal_strlit("cpuLimit");
    reveal_strlit("processLimit");
    reveal_strlit("filesystemRpc");
    assert("filesystemReadBoundary"@.len() == 22 && "filesystemWriteBoundary"@.len() == 23
        && "cpuLimit"@.len() == 8 && "processLimit"@.len() == 12 && "filesystemRpc"@.len() == 13);
    assert("networkDeny"@.len() == 11 && "networkDeny"@[0] == 'n');
    assert("processTree"@.len() == 11 && "processTree"@[0] == 'p');
    assert("memoryLimit"@.len() == 11 && "memoryLimit"@[0] == 'm');
    assert(texts(report.reasons@).len() == 4);
}

} // verus!
