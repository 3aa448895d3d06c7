//! The native backend: which one runs on a host, what it reports, and what it makes of a policy.
use vstd::prelude::*;
use vstd::string::*;

use crate::authorization::{hash_of, AuthorizationSpec};
use crate::digest::{fingerprint_of, fingerprint_of_texts};
use crate::error::{failure, Fault, SandboxError};
use crate::path::{starts_with, Platform};
use crate::policy::{ValidatedExecution, ValidatedPolicy};
use crate::protocol::{
    BackendPreference, CapabilityReport, CommandSpec, EnforcementStatus, FeatureState,
    FilesystemLeaseMode,
};
use crate::string_map::StringMap;
use crate::text::{concat, concat3, same_text, texts};
use crate::windows_backend::{self, LaunchPlan, PreparedWindowsSandbox, RecoveryStep};
use crate::workdir::located;

verus! {

/// A profile that hosts may ask for.
#[derive(Debug, Clone, PartialEq, Eq)]
pub struct ProfileSpec {
    pub id: String,
}

pub open spec fn is_trusted(id: Seq<char>) -> bool {
    ||| id == "system-minimal"@
    ||| id == "node-default"@
    ||| id == "python-default"@
    ||| id == "rust-default"@
}

pub open spec fn profile_fault(id: Seq<char>) -> Option<Fault> {
    if is_trusted(id) {
        None
    } else {
        Some(Fault::InvalidPolicy("unknown trusted profile: "@ + id))
    }
}

impl ProfileSpec {
    /// The profile of a name, which must be one of those that are reserved.
    pub fn trusted(id: &str) -> (r: Result<Self, SandboxError>)
        ensures
            failure(r) == profile_fault(id@),
            r matches Ok(profile) ==> profile.id@ == id@,
    {
        if same_text(id, "system-minimal") || same_text(id, "node-default") || same_text(
            id,
            "python-default",
        ) || same_text(id, "rust-default") {
            Ok(ProfileSpec { id: id.to_owned() })
        } else {
            Err(SandboxError::InvalidPolicy(concat("unknown trusted profile: ", id)))
        }
    }
}

/// A sandbox that is ready to run processes.
#[derive(Debug, Clone, PartialEq, Eq)]
pub struct PreparedSandbox {
    pub policy: ValidatedPolicy,
    pub profile: ProfileSpec,
    pub report: CapabilityReport,
    pub fingerprint: String,
    pub platform: PreparedWindowsSandbox,
}

/// What the host says of a working directory.
#[derive(Debug)]
pub struct PlaceFacts {
    /// The canonical path, or why there is none.
    pub canonical: Result<String, String>,
    pub is_directory: bool,
}

/// The backend of a host.
#[derive(Debug, Clone, PartialEq, Eq)]
pub struct NativeBackend {
    pub platform: Platform,
    pub os: String,
}

pub open spec fn not_implemented(os: Seq<char>) -> Seq<char> {
    "the native backend for "@ + os + " is not implemented in this build"@
}

/// The features that a report speaks of.
pub open spec fn feature_names() -> Seq<Seq<char>> {
    seq![
        "filesystemReadBoundary"@,
        "filesystemWriteBoundary"@,
        "networkDeny"@,
        "processTree"@,
        "memoryLimit"@,
        "cpuLimit"@,
        "processLimit"@,
        "filesystemRpc"@,
    ]
}

/// Whether a report says that nothing is enforced, and why.
pub open spec fn is_unavailable_report(
    report: CapabilityReport,
    os: Seq<char>,
    reason: Seq<char>,
) -> bool {
    &&& report.platform@ == os
    &&& report.backend@ == "native"@
    &&& report.status == EnforcementStatus::Unavailable
    &&& forall|name: Seq<char>| #[trigger]
        report.features@.contains_key(name) <==> feature_names().contains(name)
    &&& forall|name: Seq<char>| #[trigger]
        report.features@.contains_key(name) ==> report.features@[name] == FeatureState::Unavailable
    &&& texts(report.reasons@) == seq![reason]
}

fn feature_name_list() -> (r: Vec<String>)
    ensures
        texts(r@) == feature_names(),
{
    let names = vec![
        "filesystemReadBoundary".to_owned(),
        "filesystemWriteBoundary".to_owned(),
        "networkDeny".to_owned(),
        "processTree".to_owned(),
        "memoryLimit".to_owned(),
        "cpuLimit".to_owned(),
        "processLimit".to_owned(),
        "filesystemRpc".to_owned(),
    ];
    assert(texts(names@) =~= feature_names());
    names
}

impl NativeBackend {
    /// Why a host has no backend.
    pub open spec fn discovery_fault(
        platform: Platform,
        os: Seq<char>,
        tools_present: bool,
        recovered: Result<(), SandboxError>,
    ) -> Option<Fault> {
        match platform {
            Platform::Windows => if tools_present {
                failure(recovered)
            } else {
                Some(
                    Fault::BackendUnavailable(
                        "required Windows AppContainer support tools are unavailable"@,
                    ),
                )
            },
            Platform::Unix => Some(Fault::BackendUnavailable(not_implemented(os))),
        }
    }

    /// The backend of a host: on Windows where its tools are there and what earlier daemons left
    /// behind has been undone, nowhere else.
    pub fn discover(
        platform: Platform,
        os: &str,
        tools_present: bool,
        recovered: Result<(), SandboxError>,
    ) -> (r: Result<Self, SandboxError>)
        ensures
            failure(r) == Self::discovery_fault(platform, os@, tools_present, recovered),
            r matches Ok(backend) ==> backend.platform == platform && backend.os@ == os@,
    {
        match platform {
            Platform::Windows => {
                match windows_backend::probe(tools_present) {
                    Ok(()) => {},
                    Err(error) => {
                        return Err(error);
                    },
                }
                match recovered {
                    Ok(()) => Ok(NativeBackend { platform, os: os.to_owned() }),
                    Err(error) => Err(error),
                }
            },
            Platform::Unix => Err(
                SandboxError::BackendUnavailable(
                    concat3(
                        "the native backend for ",
                        os,
                        " is not implemented in this build",
                    ),
                ),
            ),
        }
    }

    /// What the backend enforces.
    pub fn report(&self) -> (r: CapabilityReport)
        ensures
            match self.platform {
                Platform::Windows => windows_backend::is_report(r),
                Platform::Unix => is_unavailable_report(r, self.os@, not_implemented(self.os@)),
            },
    {
        match self.platform {
            Platform::Windows => windows_backend::report(),
            Platform::Unix => Self::unavailable_report(
                &self.os,
                &concat3(
                    "the native backend for ",
                    &self.os,
                    " is not implemented in this build",
                ),
            ),
        }
    }

    /// The report of a host without a backend.
    pub fn unavailable_report(os: &str, reason: &str) -> (r: CapabilityReport)
        ensures
            is_unavailable_report(r, os@, reason@),
    {
        let names = feature_name_list();
        let mut features: StringMap<FeatureState> = StringMap::new();
        let mut i: usize = 0;
        while i < names.len()
            invariant
                i <= names@.len(),
                texts(names@) == feature_names(),
                forall|name: Seq<char>| #[trigger]
                    features@.contains_key(name) <==> feature_names().take(i as int).contains(name),
                forall|name: Seq<char>| #[trigger]
                    features@.contains_key(name) ==> features@[name] == FeatureState::Unavailable,
            decreases names@.len() - i,
        {
            let ghost before = features@;
            features.insert(names[i].clone(), FeatureState::Unavailable);
            proof {
                let fewer = feature_names().take(i as int);
                let more = feature_names().take(i + 1);
                assert(more =~= fewer.push(names@[i as int]@)) by {
                    assert(texts(names@)[i as int] == names@[i as int]@);
                }
                assert forall|name: Seq<char>| #[trigger]
                    features@.contains_key(name) <==> more.contains(name) by {
                    assert(before.contains_key(name) <==> fewer.contains(name));
                    if fewer.contains(name) {
                        let k = choose|k: int| 0 <= k < fewer.len() && fewer[k] == name;
                        assert(more[k] == name);
                    }
                    if name == names@[i as int]@ {
                        assert(more[i as int] == name);
                    }
                    if more.contains(name) {
                        let k = choose|k: int| 0 <= k < more.len() && more[k] == name;
                        if k < i {
                            assert(fewer[k] == name);
                        }
                    }
                }
            }
            i = i + 1;
        }
        proof {
            assert(texts(names@).len() == names@.len());
            assert(feature_names().take(i as int) =~= feature_names());
        }
        let reasons = vec![reason.to_owned()];
        assert(texts(reasons@) =~= seq![reason@]);
        CapabilityReport {
            platform: os.to_owned(),
            backend: "native".to_owned(),
            status: EnforcementStatus::Unavailable,
            features,
            reasons,
        }
    }

    /// Why a sandbox cannot be prepared.
    pub open spec fn prepare_fault(self, policy: ValidatedPolicy) -> Option<Fault> {
        if !(policy.original.backend == BackendPreference::Auto || policy.original.backend
            == BackendPreference::Native) {
            Some(
                Fault::CapabilityUnavailable(
                    "the requested backend is not supported by this runtime"@,
                ),
            )
        } else if self.platform == Platform::Unix {
            Some(Fault::BackendUnavailable("native backend unavailable"@))
        } else {
            None
        }
    }

    /// Whether a sandbox can be prepared.
    pub fn check_backend(&self, policy: &ValidatedPolicy) -> (r: Result<(), SandboxError>)
        ensures
            failure(r) == self.prepare_fault(*policy),
    {
        match policy.original.backend {
            BackendPreference::Auto => {},
            BackendPreference::Native => {},
        }
        if self.platform == Platform::Unix {
            return Err(SandboxError::backend_unavailable("native backend unavailable"));
        }
        Ok(())
    }

    /// Whether a sandbox was prepared with the lease that its policy asks for: an ephemeral one has
    /// a profile of its own and a journal, a persistent one has the profile of its authorization.
    pub open spec fn is_lease_of(
        platform: PreparedWindowsSandbox,
        sandbox_id: Seq<char>,
        policy: ValidatedPolicy,
        authorization: AuthorizationSpec,
    ) -> bool {
        let mode = policy.original.filesystem.lease.mode;
        &&& platform.profile_name@ == windows_backend::profile_name_for(
            mode,
            sandbox_id,
            authorization,
        )
        &&& match mode {
            FilesystemLeaseMode::Ephemeral => platform.journal is Some,
            FilesystemLeaseMode::Persistent => platform.journal is None,
        }
    }

    /// A sandbox, from what the host has prepared for it. What was prepared with another lease than
    /// the policy's is refused.
    pub fn prepare(
        &self,
        sandbox_id: &str,
        policy: ValidatedPolicy,
        profile: ProfileSpec,
        authorization: &AuthorizationSpec,
        platform: PreparedWindowsSandbox,
    ) -> (r: Result<PreparedSandbox, SandboxError>)
        ensures
            failure(r) == if self.prepare_fault(policy) is Some {
                self.prepare_fault(policy)
            } else if !Self::is_lease_of(platform, sandbox_id@, policy, *authorization) {
                Some(Fault::Internal("the sandbox was not prepared with its policy's lease"@))
            } else {
                None
            },
            r matches Ok(prepared) ==> {
                &&& prepared.policy == policy
                &&& prepared.profile == profile
                &&& prepared.platform == platform
                &&& windows_backend::is_report(prepared.report)
                &&& prepared.fingerprint@ == fingerprint_of(
                    vstd::utf8::encode_utf8(policy.fingerprint@) + vstd::utf8::encode_utf8(
                        profile.id@,
                    ) + vstd::utf8::encode_utf8(platform.profile_name@),
                )
            },
    {
        match self.check_backend(&policy) {
            Ok(()) => {},
            Err(error) => {
                return Err(error);
            },
        }
        let profile_name = windows_backend::profile_for(&policy, sandbox_id, authorization);
        let is_kept = match policy.original.filesystem.lease.mode {
            FilesystemLeaseMode::Ephemeral => platform.journal.is_some(),
            FilesystemLeaseMode::Persistent => platform.journal.is_none(),
        };
        if !is_kept || !same_text(&platform.profile_name, &profile_name) {
            return Err(
                SandboxError::Internal(
                    "the sandbox was not prepared with its policy's lease".to_owned(),
                ),
            );
        }
        let report = self.report();
        let fingerprint = fingerprint_of_texts(
            &policy.fingerprint,
            &profile.id,
            &platform.profile_name,
        );
        Ok(PreparedSandbox { policy, profile, report, fingerprint, platform })
    }

    /// Why an execution is not started.
    pub open spec fn spawn_fault(
        self,
        sandbox: PreparedSandbox,
        execution: ValidatedExecution,
        place: PlaceFacts,
    ) -> Option<Fault> {
        if self.platform == Platform::Unix {
            Some(Fault::BackendUnavailable("native backend unavailable"@))
        } else {
            match located(sandbox.policy, execution.workdir@) {
                None => Some(Fault::InvalidPolicy("execution cwd references an unknown mount"@)),
                Some((source, _)) => {
                    let fault = windows_backend::workdir_fault(
                        source,
                        place.canonical,
                        place.is_directory,
                    );
                    if fault is Some {
                        fault
                    } else {
                        windows_backend::program_fault(sandbox.policy, execution.command)
                    }
                },
            }
        }
    }

    /// What is to be started for an execution. `place` is what the host says of its working
    /// directory, `host` holds variables of the host.
    pub fn spawn(
        &self,
        sandbox: &PreparedSandbox,
        execution: &ValidatedExecution,
        place: &PlaceFacts,
        host: &StringMap<Vec<u8>>,
    ) -> (r: Result<LaunchPlan, SandboxError>)
        requires
            execution.limits.wall_time_ms > 0,
        ensures
            failure(r) == self.spawn_fault(*sandbox, *execution, *place),
            r matches Ok(launch) ==> {
                &&& windows_backend::is_launch_plan(launch, sandbox.policy, *execution, host@)
                &&& place.canonical matches Ok(path) && launch.cwd@ == windows_backend::win32_form(
                    path@,
                )
            },
    {
        if self.platform == Platform::Unix {
            return Err(SandboxError::backend_unavailable("native backend unavailable"));
        }
        let target = match windows_backend::workdir_target(&sandbox.policy, &execution.workdir) {
            Ok(target) => target,
            Err(error) => {
                return Err(error);
            },
        };
        let workdir = match windows_backend::native_workdir(
            &target,
            &place.canonical,
            place.is_directory,
        ) {
            Ok(workdir) => workdir,
            Err(error) => {
                return Err(error);
            },
        };
        windows_backend::launch_plan(&sandbox.policy, execution, workdir, host)
    }

    /// What is to be done to undo a sandbox.
    pub fn cleanup(&self, sandbox: &PreparedSandbox) -> (r: Vec<RecoveryStep>)
        ensures
            windows_backend::step_views(r@) == if self.platform == Platform::Unix
                || sandbox.platform.journal is None {
                Seq::empty()
            } else {
                windows_backend::undo_steps(texts(sandbox.platform.mounts@))
            },
    {
        if self.platform == Platform::Unix {
            let nothing: Vec<RecoveryStep> = Vec::new();
            assert(windows_backend::step_views(nothing@) =~= Seq::empty());
            return nothing;
        }
        windows_backend::cleanup_steps(&sandbox.platform)
    }
}

/// A host whose platform has no backend never gets one, whatever else it says: it is reported as
/// unavailable and prepares no sandbox.
pub proof fn law_no_silent_fallback(
    os: Seq<char>,
    tools_present: bool,
    recovered: Result<(), SandboxError>,
    backend: NativeBackend,
    policy: ValidatedPolicy,
)
    requires
        backend.platform == Platform::Unix,
    ensures
        NativeBackend::discovery_fault(Platform::Unix, os, tools_present, recovered) == Some(
            Fault::BackendUnavailable(not_implemented(os)),
        ),
        backend.prepare_fault(policy) is Some,
{
}

/// A host has a backend exactly where it is Windows, its tools are there, and what earlier daemons
/// left behind has been undone; and only there a sandbox can be prepared.
pub proof fn law_hosts_with_a_backend(
    platform: Platform,
    os: Seq<char>,
    tools_present: bool,
    recovered: Result<(), SandboxError>,
    backend: NativeBackend,
    policy: ValidatedPolicy,
)
    ensures
        NativeBackend::discovery_fault(platform, os, tools_present, recovered) is None <==> platform
            == Platform::Windows && tools_present && recovered is Ok,
        backend.prepare_fault(policy) is None <==> backend.platform == Platform::Windows,
{
}

/// An execution is started exactly where the host is Windows, its working directory is in a mount,
/// is there, is a directory and has not left the mount, and its program, where it has one, is
/// declared.
pub proof fn law_started_executions(
    backend: NativeBackend,
    sandbox: PreparedSandbox,
    execution: ValidatedExecution,
    place: PlaceFacts,
)
    ensures
        backend.spawn_fault(sandbox, execution, place) is None <==> {
            &&& backend.platform == Platform::Windows
            &&& located(sandbox.policy, execution.workdir@) matches Some((source, _)) && (
            place.canonical matches Ok(path) && starts_with(Platform::Windows, path@, source))
            &&& place.is_directory
            &&& execution.command matches CommandSpec::Exec { program, .. }
                ==> sandbox.policy.executables@.contains_key(program@)
        },
{
}

/// A sandbox with a lease of its own has a journal from which it is undone, and one of a persistent
/// authorization has none, so that its grants outlive it.
pub proof fn law_lease_decides_the_journal(
    platform: PreparedWindowsSandbox,
    sandbox_id: Seq<char>,
    policy: ValidatedPolicy,
    authorization: AuthorizationSpec,
)
    requires
        NativeBackend::is_lease_of(platform, sandbox_id, policy, authorization),
    ensures
        platform.journal is Some <==> policy.original.filesystem.lease.mode
            == FilesystemLeaseMode::Ephemeral,
        policy.original.filesystem.lease.mode == FilesystemLeaseMode::Ephemeral
            ==> platform.profile_name@ == windows_backend::profile_name_of(sandbox_id),
        policy.original.filesystem.lease.mode == FilesystemLeaseMode::Persistent
            ==> platform.profile_name@ == windows_backend::stable_profile_name_of(
            hash_of(authorization.tenant_id@, authorization.authorization_id@),
        ),
{
}

/// A report without a backend claims nothing: every feature that there is is named, and none is
/// enforced.
pub proof fn law_unavailable_report_claims_nothing(
    report: CapabilityReport,
    os: Seq<char>,
    reason: Seq<char>,
    name: Seq<char>,
)
    requires
        is_unavailable_report(report, os, reason),
    ensures
        report.status == EnforcementStatus::Unavailable,
        report.features@.contains_key(name) ==> report.features@[name] == FeatureState::Unavailable,
        report.features@.contains_key("filesystemReadBoundary"@),
        report.features@.contains_key("filesystemWriteBoundary"@),
        report.features@.contains_key("networkDeny"@),
        report.features@.contains_key("processTree"@),
        report.features@.contains_key("memoryLimit"@),
        report.features@.contains_key("cpuLimit"@),
        report.features@.contains_key("processLimit"@),
        report.features@.contains_key("filesystemRpc"@),
        report.reasons@.len() == 1 && report.reasons@[0]@ == reason,
{
    let names = feature_names();
    assert(names.contains(names[0]) && names.contains(names[1]) && names.contains(names[2])
        && names.contains(names[3]) && names.contains(names[4]) && names.contains(names[5])
        && names.contains(names[6]) && names.contains(names[7]));
    assert(texts(report.reasons@).len() == 1);
    assert(texts(report.reasons@)[0] == reason);
}

} // verus!
