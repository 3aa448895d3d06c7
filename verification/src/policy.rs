//! Sandbox policies: which ones hold on a host, what they grant, and which executions they admit.
use vstd::prelude::*;
use vstd::string::*;
use vstd::utf8::*;

use crate::digest::{
    digest_text, fingerprint, fingerprint_of, hex_text, is_fingerprint, sha256,
};
use crate::environment::{
    bad_value, is_allowed_name, is_allowed_value, is_sensitive, law_lists_of_names, name_fault,
    names_fault, validate_environment_keys, validate_environment_value, value_fault,
};
use crate::error::{
    failure, first_fault, lemma_all_passed, lemma_first_fault_at, lemma_no_fault, Fault,
    SandboxError,
};
use crate::limits::{
    law_each_named_limit_is_granted, law_execution_only_narrows, limits_fault, limits_in_range, narrow_fault, narrow_limits,
    no_wider, requested_limits, validate_limits,
};
use crate::path::{
    cwd_fault, has_drive, is_absolute, is_kept, law_accepted_path_stays_inside,
    law_leaving_path_is_refused, law_overlap_has_no_direction, law_plain_path_is_its_own_form,
    law_plain_path_is_kept, lemma_nonempty_form, lemma_small_forms, lowercase, overlap,
    path_is_absolute, path_starts_with, paths_overlap, relative_form, segments, starts_with,
    validate_relative_path, Platform,
};
use crate::protocol::{
    CommandSpec, ExecutionLimits, LogicalPath, MountAccess, ResourceLimits, SandboxPolicy,
};
use crate::string_map::{
    lemma_pair_in_map, lemma_walk, lemma_walk_end, lemma_walk_start, map_of, position, StringMap,
};
use crate::text::{
    byte_len, chars_of, concat, concat3, has_char, lemma_text_lt_irreflexive,
    lemma_text_lt_transitive, replace_char, replaced, same_text, text_lt, texts,
};

verus! {

pub const MAX_MOUNTS: usize = 16;

pub const MAX_MOUNT_NAME_BYTES: usize = 64;

pub const MAX_SCRIPT_BYTES: usize = 1024 * 1024;

pub const MAX_TEMP_BYTES: u64 = 16 * 1024 * 1024 * 1024;

/// The attribute bit that Windows sets on a reparse point.
pub const REPARSE_POINT: u32 = 0x400;

/// What the host says of one place on the way to a path, without following links.
#[derive(Debug, Clone, Copy, PartialEq, Eq)]
pub struct FileFacts {
    pub is_symlink: bool,
    pub attributes: u32,
}

/// What the host says of the source of a mount.
#[derive(Debug)]
pub struct MountFacts {
    /// The path itself and each of its parents; nothing where the host could not tell.
    pub ancestors: Vec<Option<FileFacts>>,
    /// The canonical path, or why there is none.
    pub canonical: Result<String, String>,
    pub is_directory: bool,
}

/// What the host says of a declared executable.
#[derive(Debug)]
pub struct ExecutableFacts {
    /// The canonical path, or why there is none.
    pub canonical: Result<String, String>,
    pub is_file: bool,
    pub contents: Vec<u8>,
}

/// Everything that the validation of a policy learns from the host.
#[derive(Debug)]
pub struct HostFacts {
    pub platform: Platform,
    /// The canonical form of each protected root, where it has one.
    pub protected_roots: Vec<Option<String>>,
    /// One entry for each mount of the policy.
    pub mounts: Vec<MountFacts>,
    /// One entry for each executable of the policy.
    pub executables: Vec<ExecutableFacts>,
    /// The variables of the daemon.
    pub environment: StringMap<String>,
    /// The serialized policy, or why it could not be serialized.
    pub canonical_policy: Result<Vec<u8>, String>,
}

/// A mount whose source exists.
#[derive(Debug, Clone, PartialEq, Eq)]
pub struct ValidatedMount {
    pub name: String,
    pub source: String,
    pub access: MountAccess,
    pub destination: String,
}

/// An executable of a read-only mount that has the declared digest.
#[derive(Debug, Clone, PartialEq, Eq)]
pub struct ValidatedExecutable {
    pub alias: String,
    pub path: String,
    pub sha256: String,
}

/// A policy whose every declaration holds on the host.
#[derive(Debug, Clone, PartialEq, Eq)]
pub struct ValidatedPolicy {
    pub original: SandboxPolicy,
    pub platform: Platform,
    pub mounts: StringMap<ValidatedMount>,
    pub executables: StringMap<ValidatedExecutable>,
    pub allowed_environment: StringMap<()>,
    pub inherited_environment: StringMap<String>,
    pub fingerprint: String,
}

/// An execution that a policy admits.
#[derive(Debug, Clone, PartialEq, Eq)]
pub struct ValidatedExecution {
    pub command: CommandSpec,
    pub workdir: String,
    pub environment: StringMap<String>,
    pub limits: ResourceLimits,
}

pub open spec fn is_mount_name_char(c: char) -> bool {
    ||| 'a' <= c && c <= 'z'
    ||| 'A' <= c && c <= 'Z'
    ||| '0' <= c && c <= '9'
    ||| c == '-'
    ||| c == '_'
}

/// Names that a mount may have.
pub open spec fn is_mount_name(name: Seq<char>) -> bool {
    &&& name.len() > 0
    &&& encode_utf8(name).len() <= MAX_MOUNT_NAME_BYTES
    &&& forall|i: int| 0 <= i < name.len() ==> is_mount_name_char(#[trigger] name[i])
}

/// Names by which a command refers to an executable.
pub open spec fn is_bare_name(name: Seq<char>) -> bool {
    name.len() > 0 && !name.contains('\0') && !name.contains('/') && !name.contains('\\')
}

/// The place in the sandbox at which a mount appears.
pub open spec fn destination_of(name: Seq<char>) -> Seq<char> {
    "mount://"@ + name
}

/// Whether the number and size declarations of a policy are supported.
pub open spec fn shape_fault(policy: SandboxPolicy) -> Option<Fault> {
    if policy.schema_version != 1 {
        Some(Fault::InvalidPolicy("only policy schema version 1 is supported"@))
    } else if limits_fault(policy.limits) is Some {
        limits_fault(policy.limits)
    } else if !(0 < policy.filesystem.temp_bytes <= MAX_TEMP_BYTES) {
        Some(Fault::InvalidPolicy("tempBytes is outside the supported range"@))
    } else if !(0 < policy.filesystem.mounts@.len() <= MAX_MOUNTS) {
        Some(
            Fault::InvalidPolicy("filesystem mounts must contain between 1 and 16 entries"@),
        )
    } else {
        None
    }
}

pub open spec fn root_fault(platform: Platform, root: Seq<char>) -> Option<Fault> {
    if is_absolute(platform, root) {
        None
    } else {
        Some(Fault::InvalidPolicy("protected roots must be absolute"@))
    }
}

pub open spec fn protected_fault(platform: Platform, roots: Seq<String>) -> Option<Fault> {
    first_fault(roots.map_values(|root: String| root_fault(platform, root@)))
}

/// The paths that no mount may overlap: canonical where the host knows the canonical form.
pub open spec fn protected_paths(roots: Seq<String>, canonical: Seq<Option<String>>) -> Seq<
    Seq<char>,
> {
    Seq::new(
        roots.len(),
        |i: int|
            match canonical[i] {
                Some(path) => path@,
                None => roots[i]@,
            },
    )
}

pub open spec fn is_reparse(attributes: u32) -> bool {
    attributes & REPARSE_POINT != 0
}

/// Whether some place on the way is a link.
pub open spec fn has_link(ancestors: Seq<Option<FileFacts>>) -> bool {
    exists|i: int|
        0 <= i < ancestors.len() && (#[trigger] ancestors[i] matches Some(f) && (f.is_symlink
            || is_reparse(f.attributes)))
}

pub open spec fn link_fault(ancestors: Seq<Option<FileFacts>>) -> Option<Fault> {
    if has_link(ancestors) {
        Some(Fault::InvalidPolicy("mount source contains a symbolic link or reparse point"@))
    } else {
        None
    }
}

pub open spec fn overlaps_any(platform: Platform, path: Seq<char>, roots: Seq<Seq<char>>) -> bool {
    exists|i: int| 0 <= i < roots.len() && overlap(platform, path, #[trigger] roots[i])
}

pub open spec fn mount_name(policy: SandboxPolicy, i: int) -> Seq<char> {
    policy.filesystem.mounts@[i].name@
}

/// Why a mount is refused; the mounts before it were accepted.
pub open spec fn mount_fault(policy: SandboxPolicy, host: HostFacts, i: int) -> Option<Fault> {
    let mount = policy.filesystem.mounts@[i];
    let facts = host.mounts@[i];
    let name = mount.name@;
    if !is_mount_name(name) {
        Some(
            Fault::InvalidPolicy("mount names must use 1-64 ASCII letters, digits, '-' or '_'"@),
        )
    } else if exists|j: int| 0 <= j < i && #[trigger] mount_name(policy, j) == name {
        Some(Fault::InvalidPolicy("duplicate mount name: "@ + name))
    } else if !is_absolute(host.platform, mount.source@) {
        Some(Fault::InvalidPolicy("mount "@ + name + " source must be absolute"@))
    } else if link_fault(facts.ancestors@) is Some {
        link_fault(facts.ancestors@)
    } else {
        match facts.canonical {
            Err(reason) => Some(
                Fault::InvalidPolicy(
                    "mount "@ + name + " source is unavailable: "@ + reason@,
                ),
            ),
            Ok(source) => {
                if !facts.is_directory {
                    Some(Fault::InvalidPolicy("mount "@ + name + " source must be a directory"@))
                } else if source@.contains(',') {
                    Some(
                        Fault::InvalidPolicy(
                            "mount "@ + name + " source contains an unsupported comma"@,
                        ),
                    )
                } else if overlaps_any(
                    host.platform,
                    source@,
                    protected_paths(policy.filesystem.protected_roots@, host.protected_roots@),
                ) {
                    Some(Fault::InvalidPolicy("mount "@ + name + " overlaps a protected root"@))
                } else {
                    None
                }
            },
        }
    }
}

pub open spec fn mounts_fault(policy: SandboxPolicy, host: HostFacts) -> Option<Fault> {
    first_fault(
        Seq::new(policy.filesystem.mounts@.len(), |i: int| mount_fault(policy, host, i)),
    )
}

pub open spec fn alias_of(policy: SandboxPolicy, i: int) -> Seq<char> {
    policy.execution.executables@[i].alias@
}

/// Whether the path lies in a mount of the policy that is read-only.
pub open spec fn in_read_only_mount(policy: SandboxPolicy, host: HostFacts, path: Seq<char>) -> bool {
    exists|j: int|
        0 <= j < policy.filesystem.mounts@.len() && (#[trigger] policy.filesystem.mounts@[j]).access
            == MountAccess::ReadOnly && (host.mounts@[j].canonical matches Ok(source)
            && starts_with(host.platform, path, source@))
}

/// Why a declared executable is refused; the ones before it were accepted.
pub open spec fn executable_fault(policy: SandboxPolicy, host: HostFacts, i: int) -> Option<Fault> {
    let declared = policy.execution.executables@[i];
    let facts = host.executables@[i];
    let alias = declared.alias@;
    if !is_bare_name(alias) {
        Some(Fault::InvalidPolicy("executable aliases must be bare executable names"@))
    } else if exists|j: int| 0 <= j < i && #[trigger] alias_of(policy, j) == alias {
        Some(Fault::InvalidPolicy("duplicate executable alias: "@ + alias))
    } else if !is_absolute(host.platform, declared.path@) {
        Some(Fault::InvalidPolicy("executable "@ + alias + " path must be absolute"@))
    } else {
        match facts.canonical {
            Err(reason) => Some(
                Fault::InvalidPolicy("executable "@ + alias + " is unavailable: "@ + reason@),
            ),
            Ok(path) => {
                if !facts.is_file {
                    Some(Fault::InvalidPolicy("executable "@ + alias + " must be a file"@))
                } else if !in_read_only_mount(policy, host, path@) {
                    Some(
                        Fault::InvalidPolicy(
                            "executable "@ + alias + " must be inside a read-only mount"@,
                        ),
                    )
                } else if declared.sha256@ != hex_text(sha256(facts.contents@)) {
                    Some(
                        Fault::InvalidPolicy(
                            "executable "@ + alias + " does not match its SHA-256 digest"@,
                        ),
                    )
                } else {
                    None
                }
            },
        }
    }
}

pub open spec fn executables_fault(policy: SandboxPolicy, host: HostFacts) -> Option<Fault> {
    first_fault(
        Seq::new(policy.execution.executables@.len(), |i: int| executable_fault(policy, host, i)),
    )
}

/// Whether the name is to be inherited and the host has a value for it that is not passed on.
pub open spec fn is_bad_inherited(policy: SandboxPolicy, host: HostFacts, name: Seq<char>) -> bool {
    &&& texts(policy.environment.inherit@).contains(name)
    &&& host.environment@.contains_key(name)
    &&& !is_allowed_value(host.environment@[name]@)
}

/// Whether the name is such a name and comes before every other one.
pub open spec fn is_first_bad(policy: SandboxPolicy, host: HostFacts, name: Seq<char>) -> bool {
    &&& is_bad_inherited(policy, host, name)
    &&& forall|other: Seq<char>| #[trigger]
        is_bad_inherited(policy, host, other) && other != name ==> text_lt(name, other)
}

pub open spec fn inherited_fault(policy: SandboxPolicy, host: HostFacts) -> Option<Fault> {
    if exists|name: Seq<char>| is_bad_inherited(policy, host, name) {
        Some(bad_value(choose|name: Seq<char>| is_first_bad(policy, host, name)))
    } else {
        None
    }
}

pub open spec fn serialization_fault(host: HostFacts) -> Option<Fault> {
    match host.canonical_policy {
        Ok(_) => None,
        Err(reason) => Some(Fault::Internal(reason@)),
    }
}

/// Why a policy is refused: the first check, in this order, that fails.
pub open spec fn policy_fault(policy: SandboxPolicy, host: HostFacts) -> Option<Fault> {
    first_fault(
        seq![
            shape_fault(policy),
            protected_fault(host.platform, policy.filesystem.protected_roots@),
            mounts_fault(policy, host),
            executables_fault(policy, host),
            names_fault(policy.environment.allow_set@),
            names_fault(policy.environment.inherit@),
            inherited_fault(policy, host),
            serialization_fault(host),
        ],
    )
}

/// Whether there are facts for everything that the policy declares.
pub open spec fn covers(policy: SandboxPolicy, host: HostFacts) -> bool {
    &&& host.protected_roots@.len() == policy.filesystem.protected_roots@.len()
    &&& host.mounts@.len() == policy.filesystem.mounts@.len()
    &&& host.executables@.len() == policy.execution.executables@.len()
}

/// Whether a mount is the accepted form of the policy's mount at a place.
pub open spec fn is_mount(
    mount: ValidatedMount,
    policy: SandboxPolicy,
    host: HostFacts,
    i: int,
) -> bool {
    &&& mount.name@ == mount_name(policy, i)
    &&& host.mounts@[i].canonical matches Ok(source) && mount.source@ == source@
    &&& mount.access == policy.filesystem.mounts@[i].access
    &&& mount.destination@ == destination_of(mount_name(policy, i))
}

/// Whether the map holds the first `n` mounts of the policy, each under its name, and no others.
pub open spec fn holds_mounts(
    mounts: Map<Seq<char>, ValidatedMount>,
    policy: SandboxPolicy,
    host: HostFacts,
    n: int,
) -> bool {
    &&& forall|i: int|
        0 <= i < n ==> mounts.contains_key(#[trigger] mount_name(policy, i)) && is_mount(
            mounts[mount_name(policy, i)],
            policy,
            host,
            i,
        )
    &&& forall|key: Seq<char>| #[trigger]
        mounts.contains_key(key) ==> exists|i: int|
            0 <= i < n && #[trigger] mount_name(policy, i) == key
}

/// Whether an executable is the accepted form of the policy's executable at a place.
pub open spec fn is_executable(
    executable: ValidatedExecutable,
    policy: SandboxPolicy,
    host: HostFacts,
    i: int,
) -> bool {
    &&& executable.alias@ == alias_of(policy, i)
    &&& host.executables@[i].canonical matches Ok(path) && executable.path@ == path@
    &&& executable.sha256@ == policy.execution.executables@[i].sha256@
}

/// Whether the map holds the first `n` executables of the policy, each under its alias, and no
/// others.
pub open spec fn holds_executables(
    executables: Map<Seq<char>, ValidatedExecutable>,
    policy: SandboxPolicy,
    host: HostFacts,
    n: int,
) -> bool {
    &&& forall|i: int|
        0 <= i < n ==> executables.contains_key(#[trigger] alias_of(policy, i)) && is_executable(
            executables[alias_of(policy, i)],
            policy,
            host,
            i,
        )
    &&& forall|key: Seq<char>| #[trigger]
        executables.contains_key(key) ==> exists|i: int|
            0 <= i < n && #[trigger] alias_of(policy, i) == key
}

/// Whether the map holds the host's value of every listed variable that the host has.
pub open spec fn inherits(
    inherited: Map<Seq<char>, String>,
    policy: SandboxPolicy,
    host: HostFacts,
) -> bool {
    forall|key: Seq<char>|
        {
            &&& #[trigger] inherited.contains_key(key) <==> texts(
                policy.environment.inherit@,
            ).contains(key) && host.environment@.contains_key(key)
            &&& inherited.contains_key(key) ==> inherited[key]@ == host.environment@[key]@
        }
}

pub open spec fn validates(validated: ValidatedPolicy, policy: SandboxPolicy, host: HostFacts) -> bool {
    &&& validated.original == policy
    &&& validated.platform == host.platform
    &&& holds_mounts(validated.mounts@, policy, host, policy.filesystem.mounts@.len() as int)
    &&& holds_executables(
        validated.executables@,
        policy,
        host,
        policy.execution.executables@.len() as int,
    )
    &&& forall|key: Seq<char>| #[trigger]
        validated.allowed_environment@.contains_key(key) <==> texts(
            policy.environment.allow_set@,
        ).contains(key)
    &&& inherits(validated.inherited_environment@, policy, host)
    &&& host.canonical_policy matches Ok(bytes) && validated.fingerprint@ == fingerprint_of(
        bytes@,
    )
    &&& is_fingerprint(validated.fingerprint@)
}

pub fn is_reparse_point(attributes: u32) -> (r: bool)
    ensures
        r == is_reparse(attributes),
{
    attributes & REPARSE_POINT != 0
}

pub fn validate_mount_name(name: &str) -> (r: Result<(), SandboxError>)
    ensures
        r is Ok <==> is_mount_name(name@),
        r matches Err(e) ==> e@ == Fault::InvalidPolicy(
            "mount names must use 1-64 ASCII letters, digits, '-' or '_'"@,
        ),
{
    let chars = chars_of(name);
    let mut good = chars.len() > 0 && byte_len(name) <= MAX_MOUNT_NAME_BYTES;
    let mut i: usize = 0;
    while good && i < chars.len()
        invariant
            i <= chars@.len(),
            chars@ == name@,
            good ==> name@.len() > 0 && encode_utf8(name@).len() <= MAX_MOUNT_NAME_BYTES,
            good ==> forall|j: int| 0 <= j < i ==> is_mount_name_char(#[trigger] name@[j]),
            !good ==> !is_mount_name(name@),
        decreases chars@.len() - i,
    {
        let c = chars[i];
        if !(('a' <= c && c <= 'z') || ('A' <= c && c <= 'Z') || ('0' <= c && c <= '9') || c == '-'
            || c == '_') {
            assert(!is_mount_name_char(name@[i as int]));
            good = false;
        }
        i = i + 1;
    }
    if good {
        Ok(())
    } else {
        Err(
            SandboxError::invalid_policy(
                "mount names must use 1-64 ASCII letters, digits, '-' or '_'",
            ),
        )
    }
}

fn bare_name(name: &str) -> (r: bool)
    ensures
        r == is_bare_name(name@),
{
    !name.is_empty() && !has_char(name, '\0') && !has_char(name, '/') && !has_char(name, '\\')
}

/// The checks of a policy that need nothing from the host.
pub fn validate_shape(policy: &SandboxPolicy) -> (r: Result<(), SandboxError>)
    ensures
        failure(r) == shape_fault(*policy),
{
    if policy.schema_version != 1 {
        return Err(SandboxError::invalid_policy("only policy schema version 1 is supported"));
    }
    match validate_limits(&policy.limits) {
        Ok(()) => {},
        Err(error) => {
            return Err(error);
        },
    }
    if policy.filesystem.temp_bytes == 0 || policy.filesystem.temp_bytes > MAX_TEMP_BYTES {
        return Err(SandboxError::invalid_policy("tempBytes is outside the supported range"));
    }
    if policy.filesystem.mounts.len() == 0 || policy.filesystem.mounts.len() > MAX_MOUNTS {
        return Err(
            SandboxError::invalid_policy("filesystem mounts must contain between 1 and 16 entries"),
        );
    }
    Ok(())
}

/// The paths that no mount may overlap.
pub fn validate_protected_roots(
    platform: Platform,
    values: &Vec<String>,
    canonical: &Vec<Option<String>>,
) -> (r: Result<Vec<String>, SandboxError>)
    requires
        canonical@.len() == values@.len(),
    ensures
        failure(r) == protected_fault(platform, values@),
        r matches Ok(roots) ==> texts(roots@) == protected_paths(values@, canonical@),
{
    let ghost faults = values@.map_values(|root: String| root_fault(platform, root@));
    let mut roots: Vec<String> = Vec::new();
    let mut i: usize = 0;
    while i < values.len()
        invariant
            i <= values@.len() == canonical@.len(),
            faults == values@.map_values(|root: String| root_fault(platform, root@)),
            forall|j: int| 0 <= j < i ==> faults[j] is None,
            texts(roots@) == protected_paths(values@, canonical@).take(i as int),
        decreases values@.len() - i,
    {
        if !path_is_absolute(platform, &values[i]) {
            proof {
                lemma_first_fault_at(faults, i as int);
            }
            return Err(SandboxError::invalid_policy("protected roots must be absolute"));
        }
        let root = match &canonical[i] {
            Some(path) => path.clone(),
            None => values[i].clone(),
        };
        let ghost before = texts(roots@);
        roots.push(root);
        assert(texts(roots@) =~= before.push(root@));
        assert(texts(roots@) =~= protected_paths(values@, canonical@).take(i + 1));
        i = i + 1;
    }
    proof {
        lemma_no_fault(faults);
        assert(protected_paths(values@, canonical@).take(i as int) =~= protected_paths(
            values@,
            canonical@,
        ));
    }
    Ok(roots)
}

/// Refuses a source that is reached through a link.
pub fn reject_link_components(ancestors: &Vec<Option<FileFacts>>) -> (r: Result<(), SandboxError>)
    ensures
        failure(r) == link_fault(ancestors@),
{
    let mut i: usize = 0;
    while i < ancestors.len()
        invariant
            i <= ancestors@.len(),
            forall|j: int|
                0 <= j < i ==> !(#[trigger] ancestors@[j] matches Some(f) && (f.is_symlink
                    || is_reparse(f.attributes))),
        decreases ancestors@.len() - i,
    {
        match &ancestors[i] {
            Some(facts) => {
                if facts.is_symlink || is_reparse_point(facts.attributes) {
                    assert(ancestors@[i as int] matches Some(f) && (f.is_symlink || is_reparse(
                        f.attributes,
                    )));
                    return Err(
                        SandboxError::invalid_policy(
                            "mount source contains a symbolic link or reparse point",
                        ),
                    );
                }
            },
            None => {},
        }
        i = i + 1;
    }
    Ok(())
}

fn overlaps_some(platform: Platform, path: &str, roots: &Vec<String>) -> (r: bool)
    ensures
        r == overlaps_any(platform, path@, texts(roots@)),
{
    let mut i: usize = 0;
    while i < roots.len()
        invariant
            i <= roots@.len(),
            forall|j: int| 0 <= j < i ==> !overlap(platform, path@, #[trigger] texts(roots@)[j]),
        decreases roots@.len() - i,
    {
        assert(texts(roots@)[i as int] == roots@[i as int]@);
        if paths_overlap(platform, path, &roots[i]) {
            return true;
        }
        i = i + 1;
    }
    false
}

fn mount_error(name: &str, rest: &str) -> (r: SandboxError)
    ensures
        r@ == Fault::InvalidPolicy("mount "@ + name@ + rest@),
{
    SandboxError::InvalidPolicy(concat3("mount ", name, rest))
}

/// Checks one mount; `taken` says whether an earlier mount has its name.
fn check_mount(
    policy: &SandboxPolicy,
    host: &HostFacts,
    protected: &Vec<String>,
    taken: bool,
    i: usize,
) -> (r: Result<String, SandboxError>)
    requires
        covers(*policy, *host),
        i < policy.filesystem.mounts@.len(),
        texts(protected@) == protected_paths(
            policy.filesystem.protected_roots@,
            host.protected_roots@,
        ),
        taken == exists|j: int|
            0 <= j < i && #[trigger] mount_name(*policy, j) == mount_name(*policy, i as int),
    ensures
        failure(r) == mount_fault(*policy, *host, i as int),
        r matches Ok(source) ==> (host.mounts@[i as int].canonical matches Ok(s) && s@ == source@),
{
    let mount = &policy.filesystem.mounts[i];
    let facts = &host.mounts[i];
    match validate_mount_name(&mount.name) {
        Ok(()) => {},
        Err(error) => {
            return Err(error);
        },
    }
    if taken {
        return Err(SandboxError::InvalidPolicy(concat("duplicate mount name: ", &mount.name)));
    }
    if !path_is_absolute(host.platform, &mount.source) {
        return Err(mount_error(&mount.name, " source must be absolute"));
    }
    match reject_link_components(&facts.ancestors) {
        Ok(()) => {},
        Err(error) => {
            return Err(error);
        },
    }
    let source = match &facts.canonical {
        Ok(source) => source.clone(),
        Err(reason) => {
            return Err(
                SandboxError::InvalidPolicy(
                    concat3(
                        &concat("mount ", &mount.name),
                        " source is unavailable: ",
                        reason,
                    ),
                ),
            );
        },
    };
    if !facts.is_directory {
        return Err(mount_error(&mount.name, " source must be a directory"));
    }
    if has_char(&source, ',') {
        return Err(mount_error(&mount.name, " source contains an unsupported comma"));
    }
    if overlaps_some(host.platform, &source, protected) {
        return Err(mount_error(&mount.name, " overlaps a protected root"));
    }
    Ok(source)
}

/// The accepted mounts of a policy, by name.
fn validate_mounts(policy: &SandboxPolicy, host: &HostFacts, protected: &Vec<String>) -> (r: Result<
    StringMap<ValidatedMount>,
    SandboxError,
>)
    requires
        covers(*policy, *host),
        texts(protected@) == protected_paths(
            policy.filesystem.protected_roots@,
            host.protected_roots@,
        ),
    ensures
        failure(r) == mounts_fault(*policy, *host),
        r matches Ok(mounts) ==> holds_mounts(
            mounts@,
            *policy,
            *host,
            policy.filesystem.mounts@.len() as int,
        ),
{
    let ghost faults = Seq::new(
        policy.filesystem.mounts@.len(),
        |i: int| mount_fault(*policy, *host, i),
    );
    let mut mounts: StringMap<ValidatedMount> = StringMap::new();
    let mut i: usize = 0;
    while i < policy.filesystem.mounts.len()
        invariant
            i <= policy.filesystem.mounts@.len(),
            covers(*policy, *host),
            texts(protected@) == protected_paths(
                policy.filesystem.protected_roots@,
                host.protected_roots@,
            ),
            faults == Seq::new(
                policy.filesystem.mounts@.len(),
                |i: int| mount_fault(*policy, *host, i),
            ),
            forall|j: int| 0 <= j < i ==> faults[j] is None,
            holds_mounts(mounts@, *policy, *host, i as int),
        decreases policy.filesystem.mounts@.len() - i,
    {
        let mount = &policy.filesystem.mounts[i];
        let taken = mounts.contains_key(&mount.name);
        proof {
            assert(mount_name(*policy, i as int) == mount.name@);
        }
        let source = match check_mount(policy, host, protected, taken, i) {
            Ok(source) => source,
            Err(error) => {
                proof {
                    lemma_first_fault_at(faults, i as int);
                }
                return Err(error);
            },
        };
        let ghost before = mounts@;
        let accepted = ValidatedMount {
            name: mount.name.clone(),
            source,
            access: mount.access,
            destination: concat("mount://", &mount.name),
        };
        mounts.insert(mount.name.clone(), accepted);
        proof {
            assert(faults[i as int] is None);
            assert(is_mount(accepted, *policy, *host, i as int));
            assert forall|j: int| 0 <= j < i + 1 implies mounts@.contains_key(
                #[trigger] mount_name(*policy, j),
            ) && is_mount(mounts@[mount_name(*policy, j)], *policy, *host, j) by {
                if j < i {
                    assert(mount_name(*policy, j) != mount_name(*policy, i as int));
                }
            }
            assert forall|key: Seq<char>| #[trigger] mounts@.contains_key(key) implies exists|j: int|
                0 <= j < i + 1 && #[trigger] mount_name(*policy, j) == key by {
                if key == mount.name@ {
                    assert(mount_name(*policy, i as int) == key);
                } else {
                    assert(before.contains_key(key));
                }
            }
        }
        i = i + 1;
    }
    proof {
        lemma_no_fault(faults);
    }
    Ok(mounts)
}

fn inside_read_only_mount(policy: &SandboxPolicy, host: &HostFacts, path: &str) -> (r: bool)
    requires
        covers(*policy, *host),
    ensures
        r == in_read_only_mount(*policy, *host, path@),
{
    let mut j: usize = 0;
    while j < policy.filesystem.mounts.len()
        invariant
            j <= policy.filesystem.mounts@.len(),
            covers(*policy, *host),
            forall|k: int|
                0 <= k < j ==> !((#[trigger] policy.filesystem.mounts@[k]).access
                    == MountAccess::ReadOnly && (host.mounts@[k].canonical matches Ok(source)
                    && starts_with(host.platform, path@, source@))),
        decreases policy.filesystem.mounts@.len() - j,
    {
        if policy.filesystem.mounts[j].access == MountAccess::ReadOnly {
            match &host.mounts[j].canonical {
                Ok(source) => {
                    if path_starts_with(host.platform, path, source) {
                        assert(policy.filesystem.mounts@[j as int].access == MountAccess::ReadOnly);
                        return true;
                    }
                },
                Err(_) => {},
            }
        }
        j = j + 1;
    }
    false
}

fn executable_error(alias: &str, rest: &str) -> (r: SandboxError)
    ensures
        r@ == Fault::InvalidPolicy("executable "@ + alias@ + rest@),
{
    SandboxError::InvalidPolicy(concat3("executable ", alias, rest))
}

/// Checks one declared executable; `taken` says whether an earlier one has its alias.
fn check_executable(policy: &SandboxPolicy, host: &HostFacts, taken: bool, i: usize) -> (r: Result<
    String,
    SandboxError,
>)
    requires
        covers(*policy, *host),
        i < policy.execution.executables@.len(),
        taken == exists|j: int|
            0 <= j < i && #[trigger] alias_of(*policy, j) == alias_of(*policy, i as int),
    ensures
        failure(r) == executable_fault(*policy, *host, i as int),
        r matches Ok(path) ==> (host.executables@[i as int].canonical matches Ok(p) && p@
            == path@),
{
    let declared = &policy.execution.executables[i];
    let facts = &host.executables[i];
    if !bare_name(&declared.alias) {
        return Err(SandboxError::invalid_policy("executable aliases must be bare executable names"));
    }
    if taken {
        return Err(
            SandboxError::InvalidPolicy(concat("duplicate executable alias: ", &declared.alias)),
        );
    }
    if !path_is_absolute(host.platform, &declared.path) {
        return Err(executable_error(&declared.alias, " path must be absolute"));
    }
    let path = match &facts.canonical {
        Ok(path) => path.clone(),
        Err(reason) => {
            return Err(
                SandboxError::InvalidPolicy(
                    concat3(
                        &concat("executable ", &declared.alias),
                        " is unavailable: ",
                        reason,
                    ),
                ),
            );
        },
    };
    if !facts.is_file {
        return Err(executable_error(&declared.alias, " must be a file"));
    }
    if !inside_read_only_mount(policy, host, &path) {
        return Err(executable_error(&declared.alias, " must be inside a read-only mount"));
    }
    if !same_text(&declared.sha256, &digest_text(&facts.contents)) {
        return Err(executable_error(&declared.alias, " does not match its SHA-256 digest"));
    }
    Ok(path)
}

/// The accepted executables of a policy, by alias.
fn validate_executables(policy: &SandboxPolicy, host: &HostFacts) -> (r: Result<
    StringMap<ValidatedExecutable>,
    SandboxError,
>)
    requires
        covers(*policy, *host),
    ensures
        failure(r) == executables_fault(*policy, *host),
        r matches Ok(executables) ==> holds_executables(
            executables@,
            *policy,
            *host,
            policy.execution.executables@.len() as int,
        ),
{
    let ghost faults = Seq::new(
        policy.execution.executables@.len(),
        |i: int| executable_fault(*policy, *host, i),
    );
    let mut executables: StringMap<ValidatedExecutable> = StringMap::new();
    let mut i: usize = 0;
    while i < policy.execution.executables.len()
        invariant
            i <= policy.execution.executables@.len(),
            covers(*policy, *host),
            faults == Seq::new(
                policy.execution.executables@.len(),
                |i: int| executable_fault(*policy, *host, i),
            ),
            forall|j: int| 0 <= j < i ==> faults[j] is None,
            holds_executables(executables@, *policy, *host, i as int),
        decreases policy.execution.executables@.len() - i,
    {
        let declared = &policy.execution.executables[i];
        let taken = executables.contains_key(&declared.alias);
        proof {
            assert(alias_of(*policy, i as int) == declared.alias@);
        }
        let path = match check_executable(policy, host, taken, i) {
            Ok(path) => path,
            Err(error) => {
                proof {
                    lemma_first_fault_at(faults, i as int);
                }
                return Err(error);
            },
        };
        let ghost before = executables@;
        let accepted = ValidatedExecutable {
            alias: declared.alias.clone(),
            path,
            sha256: declared.sha256.clone(),
        };
        executables.insert(declared.alias.clone(), accepted);
        proof {
            assert(faults[i as int] is None);
            assert(is_executable(accepted, *policy, *host, i as int));
            assert forall|j: int| 0 <= j < i + 1 implies executables@.contains_key(
                #[trigger] alias_of(*policy, j),
            ) && is_executable(executables@[alias_of(*policy, j)], *policy, *host, j) by {
                if j < i {
                    assert(alias_of(*policy, j) != alias_of(*policy, i as int));
                }
            }
            assert forall|key: Seq<char>| #[trigger]
                executables@.contains_key(key) implies exists|j: int|
                0 <= j < i + 1 && #[trigger] alias_of(*policy, j) == key by {
                if key == declared.alias@ {
                    assert(alias_of(*policy, i as int) == key);
                } else {
                    assert(before.contains_key(key));
                }
            }
        }
        i = i + 1;
    }
    proof {
        lemma_no_fault(faults);
    }
    Ok(executables)
}

/// The variables that are passed on from the daemon.
fn inherit_environment(policy: &SandboxPolicy, host: &HostFacts, names: &StringMap<()>) -> (r:
    Result<StringMap<String>, SandboxError>)
    requires
        forall|key: Seq<char>| #[trigger]
            names@.contains_key(key) <==> texts(policy.environment.inherit@).contains(key),
    ensures
        failure(r) == inherited_fault(*policy, *host),
        r matches Ok(inherited) ==> inherits(inherited@, *policy, *host),
{
    let count: usize = names.len();
    let ghost pairs = names.pairs();
    let mut inherited: StringMap<String> = StringMap::new();
    let mut i: usize = 0;
    proof {
        lemma_walk_start(pairs);
    }
    while i < count
        invariant
            i <= count == pairs.len(),
            pairs == names.pairs(),
            names.wf(),
            names@ == map_of(pairs),
            forall|key: Seq<char>| #[trigger]
                names@.contains_key(key) <==> texts(policy.environment.inherit@).contains(key),
            forall|j: int|
                0 <= j < i ==> !is_bad_inherited(*policy, *host, #[trigger] pairs[j].0),
            forall|key: Seq<char>|
                {
                    &&& #[trigger] inherited@.contains_key(key) <==> map_of(
                        pairs.take(i as int),
                    ).contains_key(key) && host.environment@.contains_key(key)
                    &&& inherited@.contains_key(key) ==> inherited@[key]@
                        == host.environment@[key]@
                },
        decreases count - i,
    {
        let name = names.key_at(i);
        proof {
            lemma_pair_in_map(pairs, i as int);
            lemma_walk(pairs, i as int);
        }
        match host.environment.get(name) {
            Some(value) => {
                match validate_environment_value(name, value) {
                    Ok(()) => {},
                    Err(error) => {
                        proof {
                            lemma_first_bad(*policy, *host, pairs, i as int);
                        }
                        return Err(error);
                    },
                }
                inherited.insert(name.clone(), value.clone());
            },
            None => {},
        }
        i = i + 1;
    }
    proof {
        lemma_walk_end(pairs);
        assert forall|name: Seq<char>| !is_bad_inherited(*policy, *host, name) by {
            if is_bad_inherited(*policy, *host, name) {
                assert(names@.contains_key(name));
                let p = position(pairs, name);
                assert(pairs[p].0 == name);
            }
        }
    }
    Ok(inherited)
}

proof fn lemma_first_bad(
    policy: SandboxPolicy,
    host: HostFacts,
    pairs: Seq<(Seq<char>, ())>,
    at: int,
)
    requires
        crate::string_map::ascending(pairs),
        0 <= at < pairs.len(),
        forall|key: Seq<char>| #[trigger]
            map_of(pairs).contains_key(key) <==> texts(policy.environment.inherit@).contains(key),
        forall|j: int| 0 <= j < at ==> !is_bad_inherited(policy, host, #[trigger] pairs[j].0),
        is_bad_inherited(policy, host, pairs[at].0),
    ensures
        inherited_fault(policy, host) == Some(bad_value(pairs[at].0)),
{
    let name = pairs[at].0;
    assert forall|other: Seq<char>| #[trigger]
        is_bad_inherited(policy, host, other) && other != name implies text_lt(name, other) by {
        assert(map_of(pairs).contains_key(other));
        let p = position(pairs, other);
        assert(pairs[p].0 == other);
        if p < at {
            assert(!is_bad_inherited(policy, host, pairs[p].0));
        }
    }
    assert(is_first_bad(policy, host, name));
    let chosen = choose|n: Seq<char>| is_first_bad(policy, host, n);
    assert(is_first_bad(policy, host, chosen));
    if chosen != name {
        lemma_text_lt_transitive(name, chosen, name);
        lemma_text_lt_irreflexive(name);
    }
}

/// The command rules: a bare program name, arguments without NUL, a script of a bounded size.
pub open spec fn command_fault(command: CommandSpec) -> Option<Fault> {
    match command {
        CommandSpec::Exec { program, args } => {
            if !is_bare_name(program@) {
                Some(Fault::InvalidPolicy("exec program must be a bare executable name"@))
            } else if exists|i: int| 0 <= i < args@.len() && (#[trigger] args@[i])@.contains('\0') {
                Some(Fault::InvalidPolicy("exec arguments cannot contain NUL"@))
            } else {
                None
            }
        },
        CommandSpec::Shell { script, .. } => {
            if script@.len() == 0 || encode_utf8(script@).len() > MAX_SCRIPT_BYTES
                || script@.contains('\0') {
                Some(
                    Fault::InvalidPolicy("shell script is empty, too large, or contains NUL"@),
                )
            } else {
                None
            }
        },
    }
}

/// The place in the sandbox that a relative path of a mount names.
pub open spec fn workdir_of(destination: Seq<char>, relative: Seq<char>) -> Seq<char> {
    if relative.len() == 0 {
        destination
    } else {
        destination + "/"@ + replaced(relative, '\\', '/')
    }
}

/// The sources of the mounts that are written to, in the order of their names.
pub open spec fn writable_sources(mounts: Seq<(Seq<char>, ValidatedMount)>) -> Seq<Seq<char>>
    decreases mounts.len(),
{
    if mounts.len() == 0 {
        Seq::empty()
    } else if mounts.last().1.access == MountAccess::ReadWrite {
        writable_sources(mounts.drop_last()).push(mounts.last().1.source@)
    } else {
        writable_sources(mounts.drop_last())
    }
}

impl ValidatedPolicy {
    /// What every validated policy keeps.
    pub open spec fn wf(self) -> bool {
        &&& limits_in_range(self.original.limits)
        &&& forall|key: Seq<char>| #[trigger]
            self.mounts@.contains_key(key) ==> {
                &&& is_mount_name(key)
                &&& self.mounts@[key].name@ == key
                &&& self.mounts@[key].destination@ == destination_of(key)
                &&& !self.mounts@[key].source@.contains(',')
            }
        &&& forall|key: Seq<char>| #[trigger]
            self.executables@.contains_key(key) ==> {
                &&& is_bare_name(key)
                &&& self.executables@[key].alias@ == key
                &&& exists|name: Seq<char>| #[trigger]
                    self.mounts@.contains_key(name) && self.mounts@[name].access
                        == MountAccess::ReadOnly && starts_with(
                        self.platform,
                        self.executables@[key].path@,
                        self.mounts@[name].source@,
                    )
            }
        &&& forall|key: Seq<char>| #[trigger]
            self.allowed_environment@.contains_key(key) ==> is_allowed_name(key)
        &&& forall|key: Seq<char>| #[trigger]
            self.inherited_environment@.contains_key(key) ==> is_allowed_name(key)
                && is_allowed_value(self.inherited_environment@[key]@)
    }

    pub open spec fn entry_fault(self, name: Seq<char>, value: Seq<char>) -> Option<Fault> {
        if !self.allowed_environment@.contains_key(name) {
            Some(
                Fault::InvalidPolicy("environment variable "@ + name + " is not allowed"@),
            )
        } else {
            value_fault(name, value)
        }
    }

    pub open spec fn environment_fault(self, entries: Seq<(Seq<char>, String)>) -> Option<Fault> {
        first_fault(
            entries.map_values(|entry: (Seq<char>, String)| self.entry_fault(entry.0, entry.1@)),
        )
    }

    /// Why the program of a command is refused: it is no alias of a declared executable.
    pub open spec fn alias_fault(self, command: CommandSpec) -> Option<Fault> {
        match command {
            CommandSpec::Exec { program, .. } if !self.executables@.contains_key(program@) => Some(
                Fault::InvalidPolicy("program "@ + program@ + " is not a declared executable"@),
            ),
            _ => None,
        }
    }

    /// Why an execution is refused: the first check, in this order, that fails.
    pub open spec fn execution_fault(
        self,
        command: CommandSpec,
        cwd: LogicalPath,
        environment: StringMap<String>,
        limits: ExecutionLimits,
    ) -> Option<Fault> {
        if !self.mounts@.contains_key(cwd.mount@) {
            Some(Fault::InvalidPolicy("execution cwd references an unknown mount"@))
        } else if cwd_fault(self.platform, cwd.path@) is Some {
            cwd_fault(self.platform, cwd.path@)
        } else if command_fault(command) is Some {
            command_fault(command)
        } else if self.alias_fault(command) is Some {
            self.alias_fault(command)
        } else if self.environment_fault(environment.pairs()) is Some {
            self.environment_fault(environment.pairs())
        } else {
            narrow_fault(self.original.limits, limits)
        }
    }

    /// The variables of an execution: the inherited ones, and those of the request over them.
    pub open spec fn execution_environment(self, environment: Map<Seq<char>, String>) -> Map<
        Seq<char>,
        String,
    > {
        self.inherited_environment@.union_prefer_right(environment)
    }

    /// Whether an execution is what the policy grants for a request.
    pub open spec fn grants(
        self,
        execution: ValidatedExecution,
        command: CommandSpec,
        cwd: LogicalPath,
        environment: StringMap<String>,
        limits: ExecutionLimits,
    ) -> bool {
        &&& execution.command == command
        &&& execution.workdir@ == workdir_of(
            self.mounts@[cwd.mount@].destination@,
            relative_form(self.platform, cwd.path@),
        )
        &&& execution.environment@ == self.execution_environment(environment@)
        &&& execution.limits == requested_limits(self.original.limits, limits)
    }

    /// Validates a policy against what the host says.
    pub fn new(policy: SandboxPolicy, host: &HostFacts) -> (r: Result<Self, SandboxError>)
        requires
            covers(policy, *host),
        ensures
            failure(r) == policy_fault(policy, *host),
            r matches Ok(validated) ==> validates(validated, policy, *host) && validated.wf(),
    {
        let ghost faults = seq![
            shape_fault(policy),
            protected_fault(host.platform, policy.filesystem.protected_roots@),
            mounts_fault(policy, *host),
            executables_fault(policy, *host),
            names_fault(policy.environment.allow_set@),
            names_fault(policy.environment.inherit@),
            inherited_fault(policy, *host),
            serialization_fault(*host),
        ];
        match validate_shape(&policy) {
            Ok(()) => {},
            Err(error) => {
                proof {
                    lemma_first_fault_at(faults, 0);
                }
                return Err(error);
            },
        }
        let protected = match validate_protected_roots(
            host.platform,
            &policy.filesystem.protected_roots,
            &host.protected_roots,
        ) {
            Ok(protected) => protected,
            Err(error) => {
                proof {
                    lemma_first_fault_at(faults, 1);
                }
                return Err(error);
            },
        };
        let mounts = match validate_mounts(&policy, host, &protected) {
            Ok(mounts) => mounts,
            Err(error) => {
                proof {
                    lemma_first_fault_at(faults, 2);
                }
                return Err(error);
            },
        };
        let executables = match validate_executables(&policy, host) {
            Ok(executables) => executables,
            Err(error) => {
                proof {
                    lemma_first_fault_at(faults, 3);
                }
                return Err(error);
            },
        };
        let allowed_environment = match validate_environment_keys(&policy.environment.allow_set) {
            Ok(names) => names,
            Err(error) => {
                proof {
                    lemma_first_fault_at(faults, 4);
                }
                return Err(error);
            },
        };
        let inherited_names = match validate_environment_keys(&policy.environment.inherit) {
            Ok(names) => names,
            Err(error) => {
                proof {
                    lemma_first_fault_at(faults, 5);
                }
                return Err(error);
            },
        };
        let inherited_environment = match inherit_environment(&policy, host, &inherited_names) {
            Ok(inherited) => inherited,
            Err(error) => {
                proof {
                    lemma_first_fault_at(faults, 6);
                }
                return Err(error);
            },
        };
        let fingerprint = match &host.canonical_policy {
            Ok(bytes) => fingerprint(bytes),
            Err(reason) => {
                proof {
                    lemma_first_fault_at(faults, 7);
                }
                return Err(SandboxError::Internal(reason.clone()));
            },
        };
        let validated = ValidatedPolicy {
            original: policy,
            platform: host.platform,
            mounts,
            executables,
            allowed_environment,
            inherited_environment,
            fingerprint,
        };
        proof {
            lemma_no_fault(faults);
            law_validated_policy_is_well_formed(validated, policy, *host);
        }
        Ok(validated)
    }

    /// Admits an execution, or says why not.
    pub fn validate_execution(
        &self,
        command: CommandSpec,
        cwd: LogicalPath,
        environment: StringMap<String>,
        limits: ExecutionLimits,
    ) -> (r: Result<ValidatedExecution, SandboxError>)
        ensures
            failure(r) == self.execution_fault(command, cwd, environment, limits),
            r matches Ok(execution) ==> self.grants(execution, command, cwd, environment, limits),
    {
        let mount = match self.mounts.get(&cwd.mount) {
            Some(mount) => mount,
            None => {
                return Err(
                    SandboxError::invalid_policy("execution cwd references an unknown mount"),
                );
            },
        };
        let relative = match validate_relative_path(self.platform, &cwd.path) {
            Ok(relative) => relative,
            Err(error) => {
                return Err(error);
            },
        };
        let workdir = if relative.as_str().is_empty() {
            mount.destination.clone()
        } else {
            concat3(&mount.destination, "/", &replace_char(&relative, '\\', '/'))
        };
        match validate_command(&command) {
            Ok(()) => {},
            Err(error) => {
                return Err(error);
            },
        }
        match self.check_alias(&command) {
            Ok(()) => {},
            Err(error) => {
                return Err(error);
            },
        }
        let effective = match self.effective_environment(&environment) {
            Ok(effective) => effective,
            Err(error) => {
                return Err(error);
            },
        };
        match narrow_limits(&self.original.limits, &limits) {
            Ok(limits) => Ok(
                ValidatedExecution { command, workdir, environment: effective, limits },
            ),
            Err(error) => Err(error),
        }
    }

    /// Refuses a command whose program is not declared.
    fn check_alias(&self, command: &CommandSpec) -> (r: Result<(), SandboxError>)
        ensures
            failure(r) == self.alias_fault(*command),
    {
        match command {
            CommandSpec::Exec { program, .. } => {
                if !self.executables.contains_key(program) {
                    return Err(
                        SandboxError::InvalidPolicy(
                            concat3("program ", program, " is not a declared executable"),
                        ),
                    );
                }
                Ok(())
            },
            CommandSpec::Shell { .. } => Ok(()),
        }
    }

    /// The variables that an execution gets.
    fn effective_environment(&self, environment: &StringMap<String>) -> (r: Result<
        StringMap<String>,
        SandboxError,
    >)
        ensures
            failure(r) == self.environment_fault(environment.pairs()),
            r matches Ok(effective) ==> effective@ == self.execution_environment(environment@),
    {
        let count: usize = environment.len();
        let ghost pairs = environment.pairs();
        let ghost faults = pairs.map_values(
            |entry: (Seq<char>, String)| self.entry_fault(entry.0, entry.1@),
        );
        let mut effective = self.inherited_environment.duplicate();
        let mut i: usize = 0;
        proof {
            lemma_walk_start(pairs);
            assert(effective@ =~= self.execution_environment(map_of(pairs.take(0))));
        }
        while i < count
            invariant
                i <= count == pairs.len(),
                pairs == environment.pairs(),
                environment.wf(),
                faults == pairs.map_values(
                    |entry: (Seq<char>, String)| self.entry_fault(entry.0, entry.1@),
                ),
                forall|j: int| 0 <= j < i ==> faults[j] is None,
                effective@ == self.execution_environment(map_of(pairs.take(i as int))),
            decreases count - i,
        {
            let name = environment.key_at(i);
            let value = environment.value_at(i);
            proof {
                lemma_walk(pairs, i as int);
            }
            if !self.allowed_environment.contains_key(name) {
                proof {
                    lemma_first_fault_at(faults, i as int);
                }
                return Err(
                    SandboxError::InvalidPolicy(
                        concat3("environment variable ", name, " is not allowed"),
                    ),
                );
            }
            match validate_environment_value(name, value) {
                Ok(()) => {},
                Err(error) => {
                    proof {
                        lemma_first_fault_at(faults, i as int);
                    }
                    return Err(error);
                },
            }
            effective.insert(name.clone(), value.clone());
            proof {
                assert(effective@ =~= self.execution_environment(
                    map_of(pairs.take(i as int + 1)),
                ));
            }
            i = i + 1;
        }
        proof {
            lemma_no_fault(faults);
            lemma_walk_end(pairs);
        }
        Ok(effective)
    }

    /// The place in the sandbox of every mount, by name.
    pub fn logical_mounts(&self) -> (r: StringMap<String>)
        ensures
            r@ == self.mounts@.map_values(|mount: ValidatedMount| mount.destination),
    {
        let count: usize = self.mounts.len();
        let ghost pairs = self.mounts.pairs();
        let mut logical: StringMap<String> = StringMap::new();
        let mut i: usize = 0;
        proof {
            lemma_walk_start(pairs);
            assert(logical@ =~= map_of(pairs.take(0)).map_values(
                |mount: ValidatedMount| mount.destination,
            ));
        }
        while i < count
            invariant
                i <= count == pairs.len(),
                pairs == self.mounts.pairs(),
                self.mounts.wf(),
                logical@ == map_of(pairs.take(i as int)).map_values(
                    |mount: ValidatedMount| mount.destination,
                ),
            decreases count - i,
        {
            proof {
                lemma_walk(pairs, i as int);
            }
            logical.insert(
                self.mounts.key_at(i).clone(),
                self.mounts.value_at(i).destination.clone(),
            );
            proof {
                assert(logical@ =~= map_of(pairs.take(i as int + 1)).map_values(
                    |mount: ValidatedMount| mount.destination,
                ));
            }
            i = i + 1;
        }
        proof {
            lemma_walk_end(pairs);
        }
        logical
    }

    /// The sources of the mounts that are written to.
    pub fn writable_mounts(&self) -> (r: Vec<String>)
        ensures
            texts(r@) == writable_sources(self.mounts.pairs()),
    {
        let count: usize = self.mounts.len();
        let ghost pairs = self.mounts.pairs();
        let mut sources: Vec<String> = Vec::new();
        let mut i: usize = 0;
        proof {
            assert(pairs.take(0) =~= Seq::<(Seq<char>, ValidatedMount)>::empty());
            assert(texts(sources@) =~= Seq::<Seq<char>>::empty());
        }
        while i < count
            invariant
                i <= count == pairs.len(),
                pairs == self.mounts.pairs(),
                texts(sources@) == writable_sources(pairs.take(i as int)),
            decreases count - i,
        {
            let mount = self.mounts.value_at(i);
            let ghost before = texts(sources@);
            proof {
                assert(pairs.take(i as int + 1).drop_last() =~= pairs.take(i as int));
            }
            if mount.access == MountAccess::ReadWrite {
                sources.push(mount.source.clone());
                assert(texts(sources@) =~= before.push(mount.source@));
            }
            i = i + 1;
        }
        proof {
            assert(pairs.take(i as int) =~= pairs);
        }
        sources
    }

    /// The declared executable that a program name refers to.
    pub fn resolve_executable(&self, program: &str) -> (r: Result<
        &ValidatedExecutable,
        SandboxError,
    >)
        ensures
            match r {
                Ok(found) => self.executables@.contains_key(program@) && *found
                    == self.executables@[program@],
                Err(e) => !self.executables@.contains_key(program@) && e@ == Fault::Process(
                    "program "@ + program@ + " is not a declared executable"@,
                ),
            },
    {
        match self.executables.get(program) {
            Some(found) => Ok(found),
            None => Err(
                SandboxError::Process(
                    concat3("program ", program, " is not a declared executable"),
                ),
            ),
        }
    }
}

fn some_has_nul(args: &Vec<String>) -> (r: bool)
    ensures
        r == exists|i: int| 0 <= i < args@.len() && (#[trigger] args@[i])@.contains('\0'),
{
    let mut i: usize = 0;
    while i < args.len()
        invariant
            i <= args@.len(),
            forall|j: int| 0 <= j < i ==> !(#[trigger] args@[j])@.contains('\0'),
        decreases args@.len() - i,
    {
        if has_char(&args[i], '\0') {
            return true;
        }
        i = i + 1;
    }
    false
}

/// Checks a command by itself.
pub fn validate_command(command: &CommandSpec) -> (r: Result<(), SandboxError>)
    ensures
        failure(r) == command_fault(*command),
{
    match command {
        CommandSpec::Exec { program, args } => {
            if !bare_name(program) {
                return Err(
                    SandboxError::invalid_policy("exec program must be a bare executable name"),
                );
            }
            if some_has_nul(args) {
                return Err(SandboxError::invalid_policy("exec arguments cannot contain NUL"));
            }
            Ok(())
        },
        CommandSpec::Shell { script, .. } => {
            if script.as_str().is_empty() || byte_len(script) > MAX_SCRIPT_BYTES || has_char(
                script,
                '\0',
            ) {
                return Err(
                    SandboxError::invalid_policy(
                        "shell script is empty, too large, or contains NUL",
                    ),
                );
            }
            Ok(())
        },
    }
}

proof fn lemma_names_allowed(names: Seq<String>)
    requires
        names_fault(names) is None,
    ensures
        forall|name: Seq<char>| #[trigger] texts(names).contains(name) ==> is_allowed_name(name),
{
    assert forall|name: Seq<char>| #[trigger] texts(names).contains(name) implies is_allowed_name(
        name,
    ) by {
        let i = choose|i: int| 0 <= i < texts(names).len() && texts(names)[i] == name;
        if names.len() <= crate::environment::MAX_ENV_KEYS {
            lemma_all_passed(
                names.map_values(|name: String| crate::environment::name_fault(name@)),
                i,
            );
        }
    }
}

/// The fingerprint depends on the policy alone: wherever and whenever a policy is validated,
/// whatever its mounts lead to and the daemon's variables hold, it is the SHA-256 digest of the
/// policy's encoding, in sixty-four lower-case digits. `encoding` is how policies are serialized.
pub proof fn law_fingerprint_is_that_of_the_policy(
    encoding: spec_fn(SandboxPolicy) -> Seq<u8>,
    validated: ValidatedPolicy,
    policy: SandboxPolicy,
    host: HostFacts,
    other_validated: ValidatedPolicy,
    other_policy: SandboxPolicy,
    other_host: HostFacts,
)
    requires
        validates(validated, policy, host),
        validates(other_validated, other_policy, other_host),
        host.canonical_policy->Ok_0@ == encoding(policy),
        other_host.canonical_policy->Ok_0@ == encoding(other_policy),
    ensures
        validated.original == policy,
        validated.fingerprint@ == fingerprint_of(encoding(policy)),
        is_fingerprint(validated.fingerprint@),
        policy == other_policy ==> validated.fingerprint@ == other_validated.fingerprint@,
{
}

/// A policy that passes every check yields a well-formed one.
pub proof fn law_validated_policy_is_well_formed(
    validated: ValidatedPolicy,
    policy: SandboxPolicy,
    host: HostFacts,
)
    requires
        policy_fault(policy, host) is None,
        validates(validated, policy, host),
    ensures
        validated.wf(),
{
    lemma_accepted(policy, host);
    lemma_names_allowed(policy.environment.allow_set@);
    lemma_names_allowed(policy.environment.inherit@);
    assert forall|key: Seq<char>| #[trigger] validated.mounts@.contains_key(key) implies {
        &&& is_mount_name(key)
        &&& validated.mounts@[key].name@ == key
        &&& validated.mounts@[key].destination@ == destination_of(key)
        &&& !validated.mounts@[key].source@.contains(',')
    } by {
        let i = choose|i: int|
            0 <= i < policy.filesystem.mounts@.len() && #[trigger] mount_name(policy, i) == key;
        assert(mount_fault(policy, host, i) is None);
    }
    assert forall|key: Seq<char>| #[trigger] validated.executables@.contains_key(key) implies {
        &&& is_bare_name(key)
        &&& validated.executables@[key].alias@ == key
        &&& exists|name: Seq<char>| #[trigger]
            validated.mounts@.contains_key(name) && validated.mounts@[name].access
                == MountAccess::ReadOnly && starts_with(
                validated.platform,
                validated.executables@[key].path@,
                validated.mounts@[name].source@,
            )
    } by {
        let i = choose|i: int|
            0 <= i < policy.execution.executables@.len() && #[trigger] alias_of(policy, i) == key;
        assert(executable_fault(policy, host, i) is None);
        let path = validated.executables@[key].path@;
        let j = choose|j: int|
            0 <= j < policy.filesystem.mounts@.len() && (
            #[trigger] policy.filesystem.mounts@[j]).access == MountAccess::ReadOnly && (
            host.mounts@[j].canonical matches Ok(source) && starts_with(
                host.platform,
                path,
                source@,
            ));
        assert(validated.mounts@.contains_key(mount_name(policy, j)));
    }
    assert forall|key: Seq<char>| #[trigger]
        validated.inherited_environment@.contains_key(key) implies is_allowed_name(key)
        && is_allowed_value(validated.inherited_environment@[key]@) by {
        if !is_allowed_value(validated.inherited_environment@[key]@) {
            assert(is_bad_inherited(policy, host, key));
        }
    }
}

/// Every check of an accepted policy passes.
proof fn lemma_accepted(policy: SandboxPolicy, host: HostFacts)
    requires
        policy_fault(policy, host) is None,
    ensures
        shape_fault(policy) is None,
        forall|i: int|
            0 <= i < policy.filesystem.mounts@.len() ==> #[trigger] mount_fault(policy, host, i)
                is None,
        forall|i: int|
            0 <= i < policy.execution.executables@.len() ==> #[trigger] executable_fault(
                policy,
                host,
                i,
            ) is None,
        names_fault(policy.environment.allow_set@) is None,
        names_fault(policy.environment.inherit@) is None,
        inherited_fault(policy, host) is None,
        serialization_fault(host) is None,
{
    let faults = seq![
        shape_fault(policy),
        protected_fault(host.platform, policy.filesystem.protected_roots@),
        mounts_fault(policy, host),
        executables_fault(policy, host),
        names_fault(policy.environment.allow_set@),
        names_fault(policy.environment.inherit@),
        inherited_fault(policy, host),
        serialization_fault(host),
    ];
    lemma_all_passed(faults, 0);
    lemma_all_passed(faults, 2);
    lemma_all_passed(faults, 3);
    lemma_all_passed(faults, 4);
    lemma_all_passed(faults, 5);
    lemma_all_passed(faults, 6);
    lemma_all_passed(faults, 7);
    let mounts = Seq::new(policy.filesystem.mounts@.len(), |i: int| mount_fault(policy, host, i));
    assert forall|i: int| 0 <= i < policy.filesystem.mounts@.len() implies #[trigger] mount_fault(
        policy,
        host,
        i,
    ) is None by {
        lemma_all_passed(mounts, i);
    }
    let executables = Seq::new(
        policy.execution.executables@.len(),
        |i: int| executable_fault(policy, host, i),
    );
    assert forall|i: int| 0 <= i < policy.execution.executables@.len() implies
        #[trigger] executable_fault(policy, host, i) is None by {
        lemma_all_passed(executables, i);
    }
}

/// Whatever a request asks for, an execution that is admitted gets no sensitive variable, and no
/// value that is too large or holds a NUL.
pub proof fn law_no_sensitive_variable_reaches_an_execution(
    policy: ValidatedPolicy,
    command: CommandSpec,
    cwd: LogicalPath,
    environment: StringMap<String>,
    limits: ExecutionLimits,
)
    requires
        policy.wf(),
        environment.wf(),
        policy.execution_fault(command, cwd, environment, limits) is None,
    ensures
        forall|key: Seq<char>| #[trigger]
            policy.execution_environment(environment@).contains_key(key) ==> {
                &&& is_allowed_name(key)
                &&& !is_sensitive(key)
                &&& is_allowed_value(policy.execution_environment(environment@)[key]@)
            },
{
    let pairs = environment.pairs();
    let faults = pairs.map_values(
        |entry: (Seq<char>, String)| policy.entry_fault(entry.0, entry.1@),
    );
    assert forall|key: Seq<char>| #[trigger]
        policy.execution_environment(environment@).contains_key(key) implies {
        &&& is_allowed_name(key)
        &&& !is_sensitive(key)
        &&& is_allowed_value(policy.execution_environment(environment@)[key]@)
    } by {
        if environment@.contains_key(key) {
            let i = position(pairs, key);
            assert(pairs[i].0 == key);
            lemma_pair_in_map(pairs, i);
            lemma_all_passed(faults, i);
        } else {
            assert(policy.inherited_environment@.contains_key(key));
        }
    }
}

/// An execution that is admitted has limits in the supported range, none of them wider than the
/// policy's.
pub proof fn law_execution_keeps_the_policy_limits(
    policy: ValidatedPolicy,
    command: CommandSpec,
    cwd: LogicalPath,
    environment: StringMap<String>,
    limits: ExecutionLimits,
)
    requires
        policy.wf(),
        policy.execution_fault(command, cwd, environment, limits) is None,
    ensures
        limits_in_range(requested_limits(policy.original.limits, limits)),
        no_wider(requested_limits(policy.original.limits, limits), policy.original.limits),
{
    law_execution_only_narrows(policy.original.limits, limits);
}

/// No mount of an accepted policy overlaps a protected root, none is reached through a link, and
/// no two have the same name.
pub proof fn law_mounts_are_kept_apart(policy: SandboxPolicy, host: HostFacts)
    requires
        policy_fault(policy, host) is None,
    ensures
        forall|i: int|
            0 <= i < policy.filesystem.mounts@.len() ==> !has_link(
                (#[trigger] host.mounts@[i]).ancestors@,
            ) && (host.mounts@[i].canonical matches Ok(source) && forall|k: int|
                0 <= k < policy.filesystem.protected_roots@.len() ==> !overlap(
                    host.platform,
                    source@,
                    #[trigger] protected_paths(
                        policy.filesystem.protected_roots@,
                        host.protected_roots@,
                    )[k],
                )),
        forall|i: int, j: int|
            0 <= i < j < policy.filesystem.mounts@.len() ==> #[trigger] mount_name(policy, i)
                != #[trigger] mount_name(policy, j),
{
    lemma_accepted(policy, host);
    assert forall|i: int| 0 <= i < policy.filesystem.mounts@.len() implies !has_link(
        (#[trigger] host.mounts@[i]).ancestors@,
    ) && (host.mounts@[i].canonical matches Ok(source) && forall|k: int|
        0 <= k < policy.filesystem.protected_roots@.len() ==> !overlap(
            host.platform,
            source@,
            #[trigger] protected_paths(
                policy.filesystem.protected_roots@,
                host.protected_roots@,
            )[k],
        )) by {
        assert(mount_fault(policy, host, i) is None);
    }
    assert forall|i: int, j: int| 0 <= i < j < policy.filesystem.mounts@.len() implies
        #[trigger] mount_name(policy, i) != #[trigger] mount_name(policy, j) by {
        assert(mount_fault(policy, host, j) is None);
    }
}

/// Every declared executable of an accepted policy has the contents that the policy pins.
pub proof fn law_executables_have_the_pinned_contents(policy: SandboxPolicy, host: HostFacts)
    requires
        policy_fault(policy, host) is None,
    ensures
        forall|i: int|
            0 <= i < policy.execution.executables@.len() ==> (
            #[trigger] policy.execution.executables@[i]).sha256@ == hex_text(
                sha256(host.executables@[i].contents@),
            ),
{
    lemma_accepted(policy, host);
    assert forall|i: int| 0 <= i < policy.execution.executables@.len() implies (
    #[trigger] policy.execution.executables@[i]).sha256@ == hex_text(
        sha256(host.executables@[i].contents@),
    ) by {
        assert(executable_fault(policy, host, i) is None);
    }
}

/// The place at which an admitted execution starts is that of its mount, or lies below it: what
/// follows the mount's place goes nowhere up.
pub proof fn law_execution_starts_inside_its_mount(
    policy: ValidatedPolicy,
    command: CommandSpec,
    cwd: LogicalPath,
    environment: StringMap<String>,
    limits: ExecutionLimits,
)
    requires
        policy.wf(),
        policy.execution_fault(command, cwd, environment, limits) is None,
    ensures
        ({
            let start = workdir_of(
                policy.mounts@[cwd.mount@].destination@,
                relative_form(policy.platform, cwd.path@),
            );
            let place = destination_of(cwd.mount@);
            ||| start == place
            ||| exists|below: Seq<char>| #[trigger] goes_nowhere_up(below) && start == place + "/"@ + below
        }),
{
    let relative = relative_form(policy.platform, cwd.path@);
    law_accepted_path_stays_inside(policy.platform, cwd.path@);
    assert(goes_nowhere_up(replaced(relative, '\\', '/')));
}

/// A relative path none of whose segments names the directory above.
pub open spec fn goes_nowhere_up(path: Seq<char>) -> bool {
    &&& !segments(Platform::Unix, path).contains(seq!['.', '.'])
    &&& !is_absolute(Platform::Unix, path)
}

/// Whether a text is a name of one to sixty-four letters, digits, dashes and underscores.
pub open spec fn is_short_plain_name(name: Seq<char>) -> bool {
    &&& 1 <= name.len()
    &&& encode_utf8(name).len() <= 64
    &&& forall|k: int|
        0 <= k < name.len() ==> ('a' <= #[trigger] name[k] <= 'z') || ('A' <= name[k] <= 'Z') || (
        '0' <= name[k] <= '9') || name[k] == '-' || name[k] == '_'
}

/// Whether two paths of a platform have nothing in common: neither is the other, nor lies below it.
pub open spec fn are_apart(platform: Platform, a: Seq<char>, b: Seq<char>) -> bool {
    match platform {
        Platform::Unix => !starts_with(platform, a, b) && !starts_with(platform, b, a),
        Platform::Windows => {
            &&& lowercase(a) != lowercase(b)
            &&& !lowercase(a).push('\\').is_prefix_of(lowercase(b))
            &&& !lowercase(b).push('\\').is_prefix_of(lowercase(a))
        },
    }
}

/// The path of a protected root: as the host knows it, or else as the policy writes it.
pub open spec fn root_path(policy: SandboxPolicy, host: HostFacts, k: int) -> Seq<char> {
    match host.protected_roots@[k] {
        Some(path) => path@,
        None => policy.filesystem.protected_roots@[k]@,
    }
}

/// Whether a mount may be mounted, whatever the others are: it has a plain name and an absolute
/// source that is a directory, reached through no link, without a comma, and apart from every
/// protected root.
pub open spec fn is_mountable(policy: SandboxPolicy, host: HostFacts, i: int) -> bool {
    let mount = policy.filesystem.mounts@[i];
    let facts = host.mounts@[i];
    &&& is_short_plain_name(mount.name@)
    &&& is_absolute(host.platform, mount.source@)
    &&& forall|k: int|
        0 <= k < facts.ancestors@.len() ==> (#[trigger] facts.ancestors@[k] matches Some(f)
            ==> !f.is_symlink && f.attributes & 0x400 == 0)
    &&& facts.is_directory
    &&& facts.canonical matches Ok(source) && !source@.contains(',') && forall|k: int|
        0 <= k < policy.filesystem.protected_roots@.len() ==> are_apart(
            host.platform,
            source@,
            #[trigger] root_path(policy, host, k),
        )
}

/// Whether an executable may be declared, whatever the others are: its alias is a bare name, its
/// absolute path leads to a file in a mount that is only read, and the file has the digest.
pub open spec fn is_declarable(policy: SandboxPolicy, host: HostFacts, i: int) -> bool {
    let declared = policy.execution.executables@[i];
    let facts = host.executables@[i];
    &&& 1 <= declared.alias@.len()
    &&& !declared.alias@.contains('\0') && !declared.alias@.contains('/')
        && !declared.alias@.contains('\\')
    &&& is_absolute(host.platform, declared.path@)
    &&& facts.is_file
    &&& declared.sha256@ == hex_text(sha256(facts.contents@))
    &&& facts.canonical matches Ok(path) && exists|j: int|
        0 <= j < policy.filesystem.mounts@.len() && (#[trigger] policy.filesystem.mounts@[j]).access
            == MountAccess::ReadOnly && (host.mounts@[j].canonical matches Ok(source)
            && starts_with(host.platform, path@, source@))
}

/// A mount of an accepted policy may be mounted: in particular no protected root lies at, below or
/// above it. No two mounts have the same name.
pub proof fn law_accepted_mounts(policy: SandboxPolicy, host: HostFacts, i: int)
    requires
        covers(policy, host),
        policy_fault(policy, host) is None,
        0 <= i < policy.filesystem.mounts@.len(),
    ensures
        is_mountable(policy, host, i),
        forall|j: int|
            0 <= j < policy.filesystem.mounts@.len() && j != i ==> (
            #[trigger] policy.filesystem.mounts@[j]).name@ != policy.filesystem.mounts@[i].name@,
{
    lemma_accepted(policy, host);
    assert(mount_fault(policy, host, i) is None);
    let mount = policy.filesystem.mounts@[i];
    let facts = host.mounts@[i];
    let roots = protected_paths(policy.filesystem.protected_roots@, host.protected_roots@);
    assert forall|k: int| 0 <= k < mount.name@.len() implies ('a' <= #[trigger] mount.name@[k]
        <= 'z') || ('A' <= mount.name@[k] <= 'Z') || ('0' <= mount.name@[k] <= '9')
        || mount.name@[k] == '-' || mount.name@[k] == '_' by {
        assert(is_mount_name_char(mount.name@[k]));
    }
    let source = facts.canonical->Ok_0@;
    assert forall|k: int| 0 <= k < policy.filesystem.protected_roots@.len() implies are_apart(
        host.platform,
        source,
        #[trigger] root_path(policy, host, k),
    ) by {
        assert(roots[k] == root_path(policy, host, k));
        assert(!overlap(host.platform, source, roots[k]));
        law_overlap_has_no_direction(host.platform, source, roots[k]);
        law_overlap_has_no_direction(host.platform, roots[k], source);
    }
    assert forall|j: int| 0 <= j < policy.filesystem.mounts@.len() && j != i implies (
    #[trigger] policy.filesystem.mounts@[j]).name@ != mount.name@ by {
        assert(mount_fault(policy, host, j) is None);
        assert(mount_name(policy, i) == mount.name@);
        assert(mount_name(policy, j) == policy.filesystem.mounts@[j].name@);
    }
}

/// An executable of an accepted policy may be declared. No two have the same alias.
pub proof fn law_accepted_executables(policy: SandboxPolicy, host: HostFacts, i: int)
    requires
        covers(policy, host),
        policy_fault(policy, host) is None,
        0 <= i < policy.execution.executables@.len(),
    ensures
        is_declarable(policy, host, i),
        forall|j: int|
            0 <= j < policy.execution.executables@.len() && j != i ==> (
            #[trigger] policy.execution.executables@[j]).alias@
                != policy.execution.executables@[i].alias@,
{
    lemma_accepted(policy, host);
    assert(executable_fault(policy, host, i) is None);
    let alias = policy.execution.executables@[i].alias@;
    assert forall|j: int| 0 <= j < policy.execution.executables@.len() && j != i implies (
    #[trigger] policy.execution.executables@[j]).alias@ != alias by {
        assert(executable_fault(policy, host, j) is None);
        assert(alias_of(policy, i) == alias);
        assert(alias_of(policy, j) == policy.execution.executables@[j].alias@);
    }
}

/// What else holds of an accepted policy: its version is the one that is known, it has one to
/// sixteen mounts, room for temporary files up to sixteen gibibytes, supported limits, absolute
/// protected roots, and only variables that may be listed and values that are passed on.
pub proof fn law_accepted_policy(policy: SandboxPolicy, host: HostFacts)
    requires
        covers(policy, host),
        policy_fault(policy, host) is None,
    ensures
        policy.schema_version == 1,
        1 <= policy.filesystem.mounts@.len() <= 16,
        1 <= policy.filesystem.temp_bytes <= 17_179_869_184,
        limits_fault(policy.limits) is None,
        forall|k: int|
            0 <= k < policy.filesystem.protected_roots@.len() ==> is_absolute(
                host.platform,
                (#[trigger] policy.filesystem.protected_roots@[k])@,
            ),
        policy.environment.allow_set@.len() <= 128,
        policy.environment.inherit@.len() <= 128,
        forall|k: int|
            0 <= k < policy.environment.allow_set@.len() ==> name_fault(
                (#[trigger] policy.environment.allow_set@[k])@,
            ) is None,
        forall|k: int|
            0 <= k < policy.environment.inherit@.len() ==> name_fault(
                (#[trigger] policy.environment.inherit@[k])@,
            ) is None && (host.environment@.contains_key(policy.environment.inherit@[k]@)
                ==> value_fault(
                policy.environment.inherit@[k]@,
                host.environment@[policy.environment.inherit@[k]@]@,
            ) is None),
        host.canonical_policy is Ok,
{
    lemma_accepted(policy, host);
    law_lists_of_names(policy.environment.allow_set@);
    law_lists_of_names(policy.environment.inherit@);
    let roots = policy.filesystem.protected_roots@.map_values(
        |root: String| root_fault(host.platform, root@),
    );
    lemma_accepted_roots(policy, host);
    assert forall|k: int| 0 <= k < policy.filesystem.protected_roots@.len() implies is_absolute(
        host.platform,
        (#[trigger] policy.filesystem.protected_roots@[k])@,
    ) by {
        lemma_all_passed(roots, k);
    }
    assert forall|k: int| 0 <= k < policy.environment.inherit@.len() implies name_fault(
        (#[trigger] policy.environment.inherit@[k])@,
    ) is None && (host.environment@.contains_key(policy.environment.inherit@[k]@) ==> value_fault(
        policy.environment.inherit@[k]@,
        host.environment@[policy.environment.inherit@[k]@]@,
    ) is None) by {
        let name = policy.environment.inherit@[k]@;
        assert(texts(policy.environment.inherit@)[k] == name);
        assert(!is_bad_inherited(policy, host, name));
    }
}

proof fn lemma_accepted_roots(policy: SandboxPolicy, host: HostFacts)
    requires
        policy_fault(policy, host) is None,
    ensures
        protected_fault(host.platform, policy.filesystem.protected_roots@) is None,
{
    let faults = seq![
        shape_fault(policy),
        protected_fault(host.platform, policy.filesystem.protected_roots@),
        mounts_fault(policy, host),
        executables_fault(policy, host),
        names_fault(policy.environment.allow_set@),
        names_fault(policy.environment.inherit@),
        inherited_fault(policy, host),
        serialization_fault(host),
    ];
    lemma_all_passed(faults, 1);
}

/// A policy of which all this holds is accepted: there is no other ground on which one is refused.
pub proof fn law_good_policy_is_accepted(policy: SandboxPolicy, host: HostFacts)
    requires
        covers(policy, host),
        policy.schema_version == 1,
        1 <= policy.filesystem.mounts@.len() <= 16,
        1 <= policy.filesystem.temp_bytes <= 17_179_869_184,
        limits_fault(policy.limits) is None,
        forall|k: int|
            0 <= k < policy.filesystem.protected_roots@.len() ==> is_absolute(
                host.platform,
                (#[trigger] policy.filesystem.protected_roots@[k])@,
            ),
        forall|i: int|
            0 <= i < policy.filesystem.mounts@.len() ==> #[trigger] is_mountable(policy, host, i),
        forall|i: int, j: int|
            0 <= i < j < policy.filesystem.mounts@.len() ==> (
            #[trigger] policy.filesystem.mounts@[i]).name@ != (
            #[trigger] policy.filesystem.mounts@[j]).name@,
        forall|i: int|
            0 <= i < policy.execution.executables@.len() ==> #[trigger] is_declarable(
                policy,
                host,
                i,
            ),
        forall|i: int, j: int|
            0 <= i < j < policy.execution.executables@.len() ==> (
            #[trigger] policy.execution.executables@[i]).alias@ != (
            #[trigger] policy.execution.executables@[j]).alias@,
        policy.environment.allow_set@.len() <= 128,
        policy.environment.inherit@.len() <= 128,
        forall|k: int|
            0 <= k < policy.environment.allow_set@.len() ==> name_fault(
                (#[trigger] policy.environment.allow_set@[k])@,
            ) is None,
        forall|k: int|
            0 <= k < policy.environment.inherit@.len() ==> name_fault(
                (#[trigger] policy.environment.inherit@[k])@,
            ) is None && (host.environment@.contains_key(policy.environment.inherit@[k]@)
                ==> value_fault(
                policy.environment.inherit@[k]@,
                host.environment@[policy.environment.inherit@[k]@]@,
            ) is None),
        host.canonical_policy is Ok,
    ensures
        policy_fault(policy, host) is None,
{
    law_lists_of_names(policy.environment.allow_set@);
    law_lists_of_names(policy.environment.inherit@);
    lemma_no_fault(
        policy.filesystem.protected_roots@.map_values(
            |root: String| root_fault(host.platform, root@),
        ),
    );
    let mounts = Seq::new(policy.filesystem.mounts@.len(), |i: int| mount_fault(policy, host, i));
    assert forall|i: int| 0 <= i < mounts.len() implies mounts[i] is None by {
        lemma_mountable_passes(policy, host, i);
    }
    lemma_no_fault(mounts);
    let executables = Seq::new(
        policy.execution.executables@.len(),
        |i: int| executable_fault(policy, host, i),
    );
    assert forall|i: int| 0 <= i < executables.len() implies executables[i] is None by {
        assert(is_declarable(policy, host, i));
        if exists|j: int| 0 <= j < i && #[trigger] alias_of(policy, j) == alias_of(policy, i) {
            let j = choose|j: int|
                0 <= j < i && #[trigger] alias_of(policy, j) == alias_of(policy, i);
            assert(policy.execution.executables@[j].alias@
                != policy.execution.executables@[i].alias@);
        }
    }
    lemma_no_fault(executables);
    assert forall|name: Seq<char>| !is_bad_inherited(policy, host, name) by {
        if is_bad_inherited(policy, host, name) {
            let list = texts(policy.environment.inherit@);
            let k = choose|k: int| 0 <= k < list.len() && list[k] == name;
            assert(policy.environment.inherit@[k]@ == name);
        }
    }
    let faults = seq![
        shape_fault(policy),
        protected_fault(host.platform, policy.filesystem.protected_roots@),
        mounts_fault(policy, host),
        executables_fault(policy, host),
        names_fault(policy.environment.allow_set@),
        names_fault(policy.environment.inherit@),
        inherited_fault(policy, host),
        serialization_fault(host),
    ];
    assert forall|i: int| 0 <= i < faults.len() implies faults[i] is None by {}
    lemma_no_fault(faults);
}

proof fn lemma_mountable_passes(policy: SandboxPolicy, host: HostFacts, i: int)
    requires
        covers(policy, host),
        0 <= i < policy.filesystem.mounts@.len(),
        is_mountable(policy, host, i),
        forall|i: int, j: int|
            0 <= i < j < policy.filesystem.mounts@.len() ==> (
            #[trigger] policy.filesystem.mounts@[i]).name@ != (
            #[trigger] policy.filesystem.mounts@[j]).name@,
    ensures
        mount_fault(policy, host, i) is None,
{
    let mount = policy.filesystem.mounts@[i];
    let facts = host.mounts@[i];
    let source = facts.canonical->Ok_0@;
    let roots = protected_paths(policy.filesystem.protected_roots@, host.protected_roots@);
    assert(is_mount_name(mount.name@));
    if exists|j: int| 0 <= j < i && #[trigger] mount_name(policy, j) == mount.name@ {
        let j = choose|j: int| 0 <= j < i && #[trigger] mount_name(policy, j) == mount.name@;
        assert(policy.filesystem.mounts@[j].name@ != mount.name@);
    }
    if has_link(facts.ancestors@) {
        let k = choose|k: int|
            0 <= k < facts.ancestors@.len() && (#[trigger] facts.ancestors@[k] matches Some(f) && (
            f.is_symlink || is_reparse(f.attributes)));
        assert(facts.ancestors@[k] is Some);
    }
    if overlaps_any(host.platform, source, roots) {
        let k = choose|k: int|
            0 <= k < roots.len() && overlap(host.platform, source, #[trigger] roots[k]);
        assert(roots[k] == root_path(policy, host, k));
        assert(are_apart(host.platform, source, root_path(policy, host, k)));
        law_overlap_has_no_direction(host.platform, source, roots[k]);
    }
}

/// A validated policy is the one that was asked for. Each of its mounts leads to the place that the
/// host knows, with the access that the policy gives, and appears at the place of its name; and
/// each of its executables is the file that the host knows. It has no others. The variables that
/// may be set, and those that are inherited with the host's values, are the policy's.
pub proof fn law_validated_policy_is_the_one_asked_for(
    validated: ValidatedPolicy,
    policy: SandboxPolicy,
    host: HostFacts,
)
    requires
        covers(policy, host),
        policy_fault(policy, host) is None,
        validates(validated, policy, host),
    ensures
        validated.original == policy,
        validated.platform == host.platform,
        forall|i: int|
            0 <= i < policy.filesystem.mounts@.len() ==> {
                let asked = #[trigger] policy.filesystem.mounts@[i];
                let mount = validated.mounts@[asked.name@];
                &&& validated.mounts@.contains_key(asked.name@)
                &&& mount.access == asked.access
                &&& Ok::<Seq<char>, ()>(mount.source@) == match host.mounts@[i].canonical {
                    Ok(path) => Ok(path@),
                    Err(_) => Err(()),
                }
                &&& mount.destination@ == "mount://"@ + asked.name@
            },
        forall|key: Seq<char>| #[trigger]
            validated.mounts@.contains_key(key) ==> exists|i: int|
                0 <= i < policy.filesystem.mounts@.len() && (
                #[trigger] policy.filesystem.mounts@[i]).name@ == key,
        forall|i: int|
            0 <= i < policy.execution.executables@.len() ==> {
                let asked = #[trigger] policy.execution.executables@[i];
                let found = validated.executables@[asked.alias@];
                &&& validated.executables@.contains_key(asked.alias@)
                &&& found.sha256@ == asked.sha256@
                &&& Ok::<Seq<char>, ()>(found.path@) == match host.executables@[i].canonical {
                    Ok(path) => Ok(path@),
                    Err(_) => Err(()),
                }
            },
        forall|key: Seq<char>| #[trigger]
            validated.executables@.contains_key(key) ==> exists|i: int|
                0 <= i < policy.execution.executables@.len() && (
                #[trigger] policy.execution.executables@[i]).alias@ == key,
        forall|key: Seq<char>| #[trigger]
            validated.allowed_environment@.contains_key(key) <==> exists|i: int|
                0 <= i < policy.environment.allow_set@.len() && (
                #[trigger] policy.environment.allow_set@[i])@ == key,
        forall|key: Seq<char>| #[trigger]
            validated.inherited_environment@.contains_key(key) <==> host.environment@.contains_key(
                key,
            ) && exists|i: int|
                0 <= i < policy.environment.inherit@.len() && (
                #[trigger] policy.environment.inherit@[i])@ == key,
        forall|key: Seq<char>| #[trigger]
            validated.inherited_environment@.contains_key(key)
                ==> validated.inherited_environment@[key]@ == host.environment@[key]@,
{
    assert forall|i: int| 0 <= i < policy.filesystem.mounts@.len() implies ({
        let asked = #[trigger] policy.filesystem.mounts@[i];
        let mount = validated.mounts@[asked.name@];
        &&& validated.mounts@.contains_key(asked.name@)
        &&& mount.access == asked.access
        &&& Ok::<Seq<char>, ()>(mount.source@) == match host.mounts@[i].canonical {
            Ok(path) => Ok(path@),
            Err(_) => Err(()),
        }
        &&& mount.destination@ == "mount://"@ + asked.name@
    }) by {
        assert(mount_name(policy, i) == policy.filesystem.mounts@[i].name@);
    }
    assert forall|i: int| 0 <= i < policy.execution.executables@.len() implies ({
        let asked = #[trigger] policy.execution.executables@[i];
        let found = validated.executables@[asked.alias@];
        &&& validated.executables@.contains_key(asked.alias@)
        &&& found.sha256@ == asked.sha256@
        &&& Ok::<Seq<char>, ()>(found.path@) == match host.executables@[i].canonical {
            Ok(path) => Ok(path@),
            Err(_) => Err(()),
        }
    }) by {
        assert(alias_of(policy, i) == policy.execution.executables@[i].alias@);
    }
    assert forall|key: Seq<char>| #[trigger] validated.mounts@.contains_key(key) implies exists|
        i: int,
    |
        0 <= i < policy.filesystem.mounts@.len() && (#[trigger] policy.filesystem.mounts@[i]).name@
            == key by {
        let i = choose|i: int|
            0 <= i < policy.filesystem.mounts@.len() && #[trigger] mount_name(policy, i) == key;
        assert(policy.filesystem.mounts@[i].name@ == key);
    }
    assert forall|key: Seq<char>| #[trigger] validated.executables@.contains_key(key) implies exists|
        i: int,
    |
        0 <= i < policy.execution.executables@.len() && (
        #[trigger] policy.execution.executables@[i]).alias@ == key by {
        let i = choose|i: int|
            0 <= i < policy.execution.executables@.len() && #[trigger] alias_of(policy, i) == key;
        assert(policy.execution.executables@[i].alias@ == key);
    }
    assert forall|key: Seq<char>| #[trigger]
        validated.allowed_environment@.contains_key(key) <==> exists|i: int|
        0 <= i < policy.environment.allow_set@.len() && (
        #[trigger] policy.environment.allow_set@[i])@ == key by {
        lemma_listed(policy.environment.allow_set@, key);
    }
    assert forall|key: Seq<char>| #[trigger]
        validated.inherited_environment@.contains_key(key) <==> host.environment@.contains_key(key)
        && exists|i: int|
        0 <= i < policy.environment.inherit@.len() && (#[trigger] policy.environment.inherit@[i])@
            == key by {
        lemma_listed(policy.environment.inherit@, key);
    }
}

proof fn lemma_listed(list: Seq<String>, key: Seq<char>)
    ensures
        texts(list).contains(key) <==> exists|i: int|
            0 <= i < list.len() && (#[trigger] list[i])@ == key,
{
    if texts(list).contains(key) {
        let i = choose|i: int| 0 <= i < texts(list).len() && texts(list)[i] == key;
        assert(list[i]@ == key);
    }
    if exists|i: int| 0 <= i < list.len() && (#[trigger] list[i])@ == key {
        let i = choose|i: int| 0 <= i < list.len() && (#[trigger] list[i])@ == key;
        assert(texts(list)[i] == key);
    }
}

/// When an execution is admitted: its mount is one of the policy's, its directory is no way out of
/// it, its program is a declared alias with arguments that hold no NUL, or its script is not empty,
/// has at most a mebibyte and holds no NUL, it sets only variables that may be set to values that
/// are passed on, and asks for no limit beyond the policy's. Then, and only then.
pub proof fn law_admitted_executions(
    policy: ValidatedPolicy,
    command: CommandSpec,
    cwd: LogicalPath,
    environment: StringMap<String>,
    limits: ExecutionLimits,
)
    requires
        policy.wf(),
        environment.wf(),
    ensures
        policy.execution_fault(command, cwd, environment, limits) is None <==> {
            &&& policy.mounts@.contains_key(cwd.mount@)
            &&& cwd_fault(policy.platform, cwd.path@) is None
            &&& match command {
                CommandSpec::Exec { program, args } => policy.executables@.contains_key(program@)
                    && forall|i: int|
                    0 <= i < args@.len() ==> !(#[trigger] args@[i])@.contains('\0'),
                CommandSpec::Shell { script, .. } => 1 <= script@.len() && encode_utf8(
                    script@,
                ).len() <= 1_048_576 && !script@.contains('\0'),
            }
            &&& forall|key: Seq<char>| #[trigger]
                environment@.contains_key(key) ==> policy.allowed_environment@.contains_key(key)
                    && value_fault(key, environment@[key]@) is None
            &&& narrow_fault(policy.original.limits, limits) is None
        },
{
    let pairs = environment.pairs();
    let faults = pairs.map_values(
        |entry: (Seq<char>, String)| policy.entry_fault(entry.0, entry.1@),
    );
    if policy.environment_fault(pairs) is None {
        assert forall|key: Seq<char>| #[trigger] environment@.contains_key(key) implies
            policy.allowed_environment@.contains_key(key) && value_fault(key, environment@[key]@)
            is None by {
            let i = position(pairs, key);
            assert(pairs[i].0 == key);
            lemma_pair_in_map(pairs, i);
            lemma_all_passed(faults, i);
        }
    } else if forall|key: Seq<char>| #[trigger]
        environment@.contains_key(key) ==> policy.allowed_environment@.contains_key(key)
            && value_fault(key, environment@[key]@) is None {
        assert forall|i: int| 0 <= i < faults.len() implies faults[i] is None by {
            lemma_pair_in_map(pairs, i);
            assert(environment@.contains_key(pairs[i].0));
        }
        lemma_no_fault(faults);
    }
}

/// What an execution is granted is the command as it was given, every variable with the value that
/// was asked for, or else the inherited one, and no others, exactly the limits that it named, and
/// the place of its mount, or behind that and a slash the directory that it named.
pub proof fn law_granted_execution(
    policy: ValidatedPolicy,
    execution: ValidatedExecution,
    command: CommandSpec,
    cwd: LogicalPath,
    environment: StringMap<String>,
    limits: ExecutionLimits,
)
    requires
        policy.wf(),
        policy.execution_fault(command, cwd, environment, limits) is None,
        policy.grants(execution, command, cwd, environment, limits),
    ensures
        execution.command == command,
        forall|key: Seq<char>| #[trigger]
            execution.environment@.contains_key(key) <==> environment@.contains_key(key)
                || policy.inherited_environment@.contains_key(key),
        forall|key: Seq<char>| #[trigger]
            environment@.contains_key(key) ==> execution.environment@[key] == environment@[key],
        forall|key: Seq<char>| #[trigger]
            policy.inherited_environment@.contains_key(key) && !environment@.contains_key(key)
                ==> execution.environment@[key] == policy.inherited_environment@[key],
        (limits.wall_time_ms matches Some(v) ==> execution.limits.wall_time_ms == v && 1 <= v
            <= policy.original.limits.wall_time_ms),
        (limits.cpu_time_ms matches Some(v) ==> execution.limits.cpu_time_ms == v && 1 <= v
            <= policy.original.limits.cpu_time_ms),
        (limits.memory_bytes matches Some(v) ==> execution.limits.memory_bytes == v && 1 <= v
            <= policy.original.limits.memory_bytes),
        (limits.processes matches Some(v) ==> execution.limits.processes == v && 1 <= v
            <= policy.original.limits.processes),
        (limits.output_bytes matches Some(v) ==> execution.limits.output_bytes == v && 1 <= v
            <= policy.original.limits.output_bytes),
        limits == (ExecutionLimits {
            wall_time_ms: None,
            cpu_time_ms: None,
            memory_bytes: None,
            processes: None,
            output_bytes: None,
        }) ==> execution.limits == policy.original.limits,
        cwd.path@ == "."@ || cwd.path@.len() == 0 ==> execution.workdir@ == "mount://"@
            + cwd.mount@,
        (forall|i: int|
            0 <= i < segments(Platform::Windows, cwd.path@).len() ==> is_kept(
                #[trigger] segments(Platform::Windows, cwd.path@)[i],
            )) ==> execution.workdir@ == "mount://"@ + cwd.mount@ + "/"@ + replaced(
            cwd.path@,
            '\\',
            '/',
        ),
{
    law_each_named_limit_is_granted(policy.original.limits, limits);
    lemma_small_forms(policy.platform);
    reveal_strlit(".");
    assert("."@ =~= seq!['.']);
    assert(cwd.path@.len() == 0 ==> cwd.path@ =~= Seq::<char>::empty());
    let all = segments(Platform::Windows, cwd.path@);
    if forall|i: int| 0 <= i < all.len() ==> is_kept(#[trigger] all[i]) {
        law_leaving_path_is_refused(policy.platform, cwd.path@);
        assert(!all.contains(seq!['.', '.']));
        if policy.platform == Platform::Unix && has_drive(cwd.path@) {
            law_plain_path_is_its_own_form(cwd.path@);
        } else {
            law_plain_path_is_kept(policy.platform, cwd.path@);
        }
        lemma_nonempty_form(policy.platform, cwd.path@);
    }
}

} // verus!
