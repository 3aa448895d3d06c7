//! The backend without namespaces: Landlock and a socket filter on Linux, Seatbelt on macOS, and
//! resource limits of the process.
use vstd::prelude::*;
use vstd::string::*;

use crate::error::{failure, SandboxError};
use crate::limits::{cpu_seconds, whole_seconds};
use crate::path::{join_unix, unix_join};
use crate::policy::ValidatedPolicy;
use crate::protocol::{CapabilityReport, EnforcementStatus, FeatureState, ResourceLimits};
use crate::seatbelt::{
    all_printable, escaped, law_every_path_has_its_rule, path_rules, rules_for,
};
use crate::string_map::StringMap;
use crate::text::{concat, concat3, texts};
use crate::workdir::{named_place, unix_fault, unix_workdir};

verus! {

/// The system that the backend runs on.
#[derive(Debug, Clone, Copy, PartialEq, Eq, Structural)]
pub enum UnixSystem {
    Linux,
    Macos,
}

/// What the backend enforces.
pub fn report(system: UnixSystem) -> (r: CapabilityReport)
    ensures
        r.platform@ == match system {
            UnixSystem::Linux => "linux"@,
            UnixSystem::Macos => "macos"@,
        },
        r.backend@ == match system {
            UnixSystem::Linux => "linux-landlock-seccomp"@,
            UnixSystem::Macos => "macos-seatbelt"@,
        },
        r.status == EnforcementStatus::Limited,
        r.features@ == Map::<Seq<char>, FeatureState>::empty().insert(
            "filesystemReadBoundary"@,
            FeatureState::Enforced,
        ).insert("filesystemWriteBoundary"@, FeatureState::Enforced).insert(
            "networkDeny"@,
            FeatureState::Enforced,
        ).insert("processTree"@, FeatureState::Enforced).insert(
            "memoryLimit"@,
            FeatureState::Enforced,
        ).insert("cpuLimit"@, FeatureState::Enforced).insert(
            "processLimit"@,
            FeatureState::Limited,
        ).insert("filesystemRpc"@, FeatureState::Unavailable),
        texts(r.reasons@) == seq![
            "per-user process count cannot be isolated without a privileged PID namespace"@,
        ],
{
    let mut features: StringMap<FeatureState> = StringMap::new();
    features.insert("filesystemReadBoundary".to_owned(), FeatureState::Enforced);
    features.insert("filesystemWriteBoundary".to_owned(), FeatureState::Enforced);
    features.insert("networkDeny".to_owned(), FeatureState::Enforced);
    features.insert("processTree".to_owned(), FeatureState::Enforced);
    features.insert("memoryLimit".to_owned(), FeatureState::Enforced);
    features.insert("cpuLimit".to_owned(), FeatureState::Enforced);
    features.insert("processLimit".to_owned(), FeatureState::Limited);
    features.insert("filesystemRpc".to_owned(), FeatureState::Unavailable);
    let reasons = vec![
        "per-user process count cannot be isolated without a privileged PID namespace".to_owned(),
    ];
    assert(texts(reasons@) =~= seq![
        "per-user process count cannot be isolated without a privileged PID namespace"@,
    ]);
    let (platform, backend) = match system {
        UnixSystem::Linux => ("linux", "linux-landlock-seccomp"),
        UnixSystem::Macos => ("macos", "macos-seatbelt"),
    };
    CapabilityReport {
        platform: platform.to_owned(),
        backend: backend.to_owned(),
        status: EnforcementStatus::Limited,
        features,
        reasons,
    }
}

/// The directory in which a process starts.
pub fn native_workdir(policy: &ValidatedPolicy, logical: &str) -> (r: Result<String, SandboxError>)
    ensures
        failure(r) == unix_fault(*policy, logical@, "logical cwd mount is unavailable"@),
        r matches Ok(workdir) ==> (named_place(logical@) matches Some((name, relative)) && workdir@
            == if relative.len() == 0 {
            policy.mounts@[name].source@
        } else {
            unix_join(policy.mounts@[name].source@, relative)
        }),
{
    match unix_workdir(policy, logical, "logical cwd mount is unavailable") {
        Ok(target) => if target.relative.as_str().is_empty() {
            Ok(target.source)
        } else {
            Ok(join_unix(&target.source, &target.relative))
        },
        Err(error) => Err(error),
    }
}

/// The paths of the system that every process may read, where they exist.
pub fn system_paths() -> (r: Vec<String>)
    ensures
        texts(r@) == seq![
            "/bin"@,
            "/usr/bin"@,
            "/lib"@,
            "/lib64"@,
            "/usr/lib"@,
            "/usr/lib64"@,
            "/etc/ld.so.cache"@,
            "/dev/null"@,
            "/dev/urandom"@,
        ],
{
    let paths = vec![
        "/bin".to_owned(),
        "/usr/bin".to_owned(),
        "/lib".to_owned(),
        "/lib64".to_owned(),
        "/usr/lib".to_owned(),
        "/usr/lib64".to_owned(),
        "/etc/ld.so.cache".to_owned(),
        "/dev/null".to_owned(),
        "/dev/urandom".to_owned(),
    ];
    assert(texts(paths@) =~= seq![
        "/bin"@,
        "/usr/bin"@,
        "/lib"@,
        "/lib64"@,
        "/usr/lib"@,
        "/usr/lib64"@,
        "/etc/ld.so.cache"@,
        "/dev/null"@,
        "/dev/urandom"@,
    ]);
    paths
}

/// The limits that a process sets for itself.
#[derive(Debug, Clone, Copy, PartialEq, Eq)]
pub struct ProcessLimits {
    pub cpu_seconds: u64,
    pub address_space: u64,
}

/// The limits that a process sets for itself before it runs a program.
pub fn process_limits(limits: &ResourceLimits) -> (r: ProcessLimits)
    ensures
        r.cpu_seconds == whole_seconds(limits.cpu_time_ms as int),
        r.address_space == limits.memory_bytes,
{
    ProcessLimits { cpu_seconds: cpu_seconds(limits), address_space: limits.memory_bytes }
}

/// The profile of a process: everything is denied but its paths, and the network unless that is
/// denied too.
pub open spec fn profile_of(
    readable: Seq<Seq<char>>,
    writable: Seq<Seq<char>>,
    deny_network: bool,
) -> Seq<char> {
    let network = if deny_network {
        ""@
    } else {
        "(allow network*)\n"@
    };
    "(version 1)\n(deny default)\n(allow process*)\n(allow signal (target self))\n(allow file-read-metadata)\n"@
        + rules_for(readable, "(allow file-read* (subpath \""@, "\"))\n"@) + rules_for(
        writable,
        "(allow file-read* file-write* (subpath \""@,
        "\"))\n"@,
    ) + network
}

/// The profile of a process; there is none where a path holds control characters.
pub fn seatbelt_profile(readable: &Vec<String>, writable: &Vec<String>, deny_network: bool) -> (r:
    Result<String, String>)
    ensures
        match r {
            Ok(profile) => all_printable(texts(readable@)) && all_printable(texts(writable@))
                && profile@ == profile_of(texts(readable@), texts(writable@), deny_network),
            Err(message) => !(all_printable(texts(readable@)) && all_printable(texts(writable@)))
                && message@ == "Seatbelt path contains control characters"@,
        },
{
    let head = "(version 1)\n(deny default)\n(allow process*)\n(allow signal (target self))\n(allow file-read-metadata)\n";
    let reads = match path_rules(readable, "(allow file-read* (subpath \"", "\"))\n") {
        Ok(rules) => rules,
        Err(message) => {
            return Err(message);
        },
    };
    let writes = match path_rules(writable, "(allow file-read* file-write* (subpath \"", "\"))\n") {
        Ok(rules) => rules,
        Err(message) => {
            return Err(message);
        },
    };
    let network = if deny_network {
        ""
    } else {
        "(allow network*)\n"
    };
    Ok(concat(&concat3(head, &reads, &writes), network))
}

/// A profile begins with denying everything; a path more that may be read, or written, adds the rule
/// for that path and nothing else; and a profile that denies the network is the one that does not
/// without the rules at its end that allow it.
pub proof fn law_profile_allows_only_its_paths(
    readable: Seq<Seq<char>>,
    writable: Seq<Seq<char>>,
    path: Seq<char>,
)
    ensures
        "(version 1)\n(deny default)\n"@.is_prefix_of(profile_of(readable, writable, true)),
        profile_of(readable, writable, false) == profile_of(readable, writable, true) + "(allow network*)\n"@,
        profile_of(readable, writable.push(path), true) == profile_of(readable, writable, true)
            + "(allow file-read* file-write* (subpath \""@ + escaped(path) + "\"))\n"@,
        profile_of(readable.push(path), Seq::empty(), true) == profile_of(
            readable,
            Seq::empty(),
            true,
        ) + "(allow file-read* (subpath \""@ + escaped(path) + "\"))\n"@,
{
    let head = "(version 1)\n(deny default)\n(allow process*)\n(allow signal (target self))\n(allow file-read-metadata)\n"@;
    lemma_head_denies();
    reveal_strlit("");
    let denied = profile_of(readable, writable, true);
    assert(denied.subrange(0, "(version 1)\n(deny default)\n"@.len() as int)
        =~= head.subrange(0, "(version 1)\n(deny default)\n"@.len() as int));
    assert(profile_of(readable, writable, false) =~= denied + "(allow network*)\n"@);
    law_every_path_has_its_rule(
        writable,
        path,
        "(allow file-read* file-write* (subpath \""@,
        ""@,
        "\"))\n"@,
    );
    assert(profile_of(readable, writable.push(path), true) =~= denied
        + "(allow file-read* file-write* (subpath \""@ + escaped(path) + "\"))\n"@);
    law_every_path_has_its_rule(
        readable,
        path,
        "(allow file-read* (subpath \""@,
        "\"))\n(allow file-map-executable (subpath \""@,
        "\"))\n"@,
    );
    assert(profile_of(readable.push(path), Seq::empty(), true) =~= profile_of(
        readable,
        Seq::empty(),
        true,
    ) + "(allow file-read* (subpath \""@ + escaped(path) + "\"))\n"@);
}

proof fn lemma_head_denies()
    ensures
        "(version 1)\n(deny default)\n"@.is_prefix_of(
            "(version 1)\n(deny default)\n(allow process*)\n(allow signal (target self))\n(allow file-read-metadata)\n"@,
        ),
{
    reveal_strlit("(version 1)\n(deny default)\n");
    reveal_strlit("(version 1)\n(deny default)\n(allow process*)\n(allow signal (target self))\n(allow file-read-metadata)\n");
    let head = "(version 1)\n(deny default)\n(allow process*)\n(allow signal (target self))\n(allow file-read-metadata)\n"@;
    assert(head.subrange(0, "(version 1)\n(deny default)\n"@.len() as int)
        =~= "(version 1)\n(deny default)\n"@);
}

} // verus!
