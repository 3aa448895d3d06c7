//! The Linux backend: namespaces from bubblewrap, paths from Landlock, limits from a control
//! group, and a socket filter.
use vstd::prelude::*;
use vstd::string::*;

use seccompiler::SeccompAction::{Allow, Errno};
use seccompiler::SeccompCmpArgLen::{Dword, Qword};
use seccompiler::{
    BackendError, BpfProgram, SeccompCmpOp, SeccompCondition, SeccompFilter, SeccompRule,
};

use crate::error::{failure, Fault, SandboxError};
use crate::limits::{cgroup_quota, quota, CGROUP_PERIOD};
use crate::lines::{
    law_numbers_are_read_back, lines_of, number_of, parse_number, split_lines,
};
use crate::path::{find_there, first_there, join_unix, unix_join};
use crate::policy::{ValidatedExecution, ValidatedPolicy};
use crate::protocol::{
    CapabilityReport, CommandSpec, EnforcementStatus, FeatureState, NetworkMode, ResourceLimits,
};
use crate::string_map::StringMap;
use crate::text::{
    concat, concat3, decimal, decimal_text, has_prefix, same_text, skip_chars, texts, trim_start,
    trimmed_start,
};
use crate::unix_launch::{
    arguments_for, command_line, native_workdir, program_of, unix_start, writable_paths,
    write_paths,
};
use crate::windows_backend::program_fault;
use crate::windows_user_backend::push_all;
use crate::workdir::{named_place, unix_fault};

use FilterOperator::{Equal, NotEqual};
use FilterWidth::{LowHalf, Whole};

verus! {

/// The socket domains that are closed where the network is denied: IPv4, IPv6 and raw packets.
pub const AF_INET: u64 = 2;

pub const AF_INET6: u64 = 10;

pub const AF_PACKET: u64 = 17;

/// The error that a closed domain is answered with: operation not permitted.
pub const EPERM: u32 = 1;

/// What the backend enforces.
pub fn report() -> (r: CapabilityReport)
    ensures
        r.platform@ == "linux"@,
        r.backend@ == "linux-bwrap-landlock-cgroup2"@,
        r.status == EnforcementStatus::Enforced,
        r.features@ == enforced_features(),
        texts(r.reasons@) == seq![
            "bubblewrap supplies user, PID, mount, and network namespaces"@,
            "Landlock preserves the policy read/write mount boundary inside the namespace"@,
            "delegated cgroup v2 supplies tree memory, process, CPU, and kill controls"@,
        ],
{
    let reasons = vec![
        "bubblewrap supplies user, PID, mount, and network namespaces".to_owned(),
        "Landlock preserves the policy read/write mount boundary inside the namespace".to_owned(),
        "delegated cgroup v2 supplies tree memory, process, CPU, and kill controls".to_owned(),
    ];
    assert(texts(reasons@) =~= seq![
        "bubblewrap supplies user, PID, mount, and network namespaces"@,
        "Landlock preserves the policy read/write mount boundary inside the namespace"@,
        "delegated cgroup v2 supplies tree memory, process, CPU, and kill controls"@,
    ]);
    CapabilityReport {
        platform: "linux".to_owned(),
        backend: "linux-bwrap-landlock-cgroup2".to_owned(),
        status: EnforcementStatus::Enforced,
        features: feature_table(),
        reasons,
    }
}

/// Everything is enforced but access to files through the daemon, which there is not.
pub open spec fn enforced_features() -> Map<Seq<char>, FeatureState> {
    Map::<Seq<char>, FeatureState>::empty().insert(
        "filesystemReadBoundary"@,
        FeatureState::Enforced,
    ).insert("filesystemWriteBoundary"@, FeatureState::Enforced).insert(
        "networkDeny"@,
        FeatureState::Enforced,
    ).insert("processTree"@, FeatureState::Enforced).insert(
        "memoryLimit"@,
        FeatureState::Enforced,
    ).insert("cpuLimit"@, FeatureState::Enforced).insert(
        "processLimit"@,
        FeatureState::Enforced,
    ).insert("filesystemRpc"@, FeatureState::Unavailable)
}

/// The features of a backend that enforces everything.
pub fn feature_table() -> (r: StringMap<FeatureState>)
    ensures
        r@ == enforced_features(),
{
    let mut features: StringMap<FeatureState> = StringMap::new();
    features.insert("filesystemReadBoundary".to_owned(), FeatureState::Enforced);
    features.insert("filesystemWriteBoundary".to_owned(), FeatureState::Enforced);
    features.insert("networkDeny".to_owned(), FeatureState::Enforced);
    features.insert("processTree".to_owned(), FeatureState::Enforced);
    features.insert("memoryLimit".to_owned(), FeatureState::Enforced);
    features.insert("cpuLimit".to_owned(), FeatureState::Enforced);
    features.insert("processLimit".to_owned(), FeatureState::Enforced);
    features.insert("filesystemRpc".to_owned(), FeatureState::Unavailable);
    features
}

/// The sandbox helper: the one that is configured, where it is a file, or the first one on the
/// search path.
pub fn choose_bwrap(configured: Option<(String, bool)>, candidates: &Vec<(String, bool)>) -> (r:
    Result<String, SandboxError>)
    ensures
        match configured {
            Some((path, true)) => r matches Ok(chosen) && chosen@ == path@,
            _ => match first_there(candidates@) {
                Some(place) => r matches Ok(chosen) && chosen@ == place,
                None => failure(r) == Some(
                    Fault::BackendUnavailable(
                        "bubblewrap is unavailable; install or stage the bwrap sandbox helper"@,
                    ),
                ),
            },
        },
{
    match configured {
        Some((path, is_file)) => {
            if is_file {
                return Ok(path);
            }
        },
        None => {},
    }
    match find_there(candidates) {
        Some(place) => Ok(place),
        None => Err(
            SandboxError::backend_unavailable(
                "bubblewrap is unavailable; install or stage the bwrap sandbox helper",
            ),
        ),
    }
}

/// The arguments with which the helper shows that it can create the namespaces it is needed for.
pub fn probe_arguments() -> (r: Vec<String>)
    ensures
        texts(r@) == seq![
            "--die-with-parent"@,
            "--unshare-user"@,
            "--unshare-pid"@,
            "--unshare-net"@,
            "--ro-bind"@,
            "/"@,
            "/"@,
            "--proc"@,
            "/proc"@,
            "--dev"@,
            "/dev"@,
            "--"@,
            "/bin/true"@,
        ],
{
    let options = vec![
        "--die-with-parent".to_owned(),
        "--unshare-user".to_owned(),
        "--unshare-pid".to_owned(),
        "--unshare-net".to_owned(),
        "--ro-bind".to_owned(),
        "/".to_owned(),
        "/".to_owned(),
        "--proc".to_owned(),
        "/proc".to_owned(),
        "--dev".to_owned(),
        "/dev".to_owned(),
        "--".to_owned(),
        "/bin/true".to_owned(),
    ];
    assert(texts(options@) =~= seq![
        "--die-with-parent"@,
        "--unshare-user"@,
        "--unshare-pid"@,
        "--unshare-net"@,
        "--ro-bind"@,
        "/"@,
        "/"@,
        "--proc"@,
        "/proc"@,
        "--dev"@,
        "/dev"@,
        "--"@,
        "/bin/true"@,
    ]);
    options
}

/// What is written into the files of a control group to see whether its limits can be set.
pub fn probe_settings() -> (r: Vec<(String, String)>)
    ensures
        r@.map_values(|s: (String, String)| (s.0@, s.1@)) == seq![
            ("memory.max"@, "67108864"@),
            ("pids.max"@, "4"@),
            ("cpu.max"@, "10000 100000"@),
        ],
{
    let settings = vec![
        ("memory.max".to_owned(), "67108864".to_owned()),
        ("pids.max".to_owned(), "4".to_owned()),
        ("cpu.max".to_owned(), "10000 100000".to_owned()),
    ];
    assert(settings@.map_values(|s: (String, String)| (s.0@, s.1@)) =~= seq![
        ("memory.max"@, "67108864"@),
        ("pids.max"@, "4"@),
        ("cpu.max"@, "10000 100000"@),
    ]);
    settings
}

/// The first line that begins with a text, without it.
pub open spec fn first_after(lines: Seq<Seq<char>>, front: Seq<char>) -> Option<Seq<char>>
    decreases lines.len(),
{
    if lines.len() == 0 {
        None
    } else if front.is_prefix_of(lines[0]) {
        Some(lines[0].skip(front.len() as int))
    } else {
        first_after(lines.drop_first(), front)
    }
}

/// The directory of the control group that a process is in, from the system's list of its groups.
pub fn current_cgroup_path(groups: &str) -> (r: Result<String, SandboxError>)
    ensures
        match first_after(lines_of(groups@), "0::"@) {
            Some(relative) => r matches Ok(path) && path@ == unix_join(
                "/sys/fs/cgroup"@,
                trimmed_start(relative, |c: char| c == '/'),
            ),
            None => failure(r) == Some(
                Fault::BackendUnavailable("cannot discover the current unified cgroup v2 path"@),
            ),
        },
{
    let lines = split_lines(groups);
    let ghost all = lines_of(groups@);
    let mut i: usize = 0;
    proof {
        assert(all.skip(0) =~= all);
    }
    while i < lines.len()
        invariant
            i <= lines@.len(),
            texts(lines@) == all,
            all == lines_of(groups@),
            first_after(all, "0::"@) == first_after(all.skip(i as int), "0::"@),
        decreases lines@.len() - i,
    {
        proof {
            assert(all.skip(i as int)[0] == lines@[i as int]@);
            assert(all.skip(i as int).drop_first() =~= all.skip(i + 1));
        }
        if has_prefix(&lines[i], "0::") {
            let marker: usize = "0::".unicode_len();
            let relative = skip_chars(&lines[i], marker);
            return Ok(join_unix("/sys/fs/cgroup", &trim_start(&relative, '/')));
        }
        i = i + 1;
    }
    Err(SandboxError::backend_unavailable("cannot discover the current unified cgroup v2 path"))
}

/// Whether a control group can be used, given what the host says of it.
pub fn check_cgroup_root(root: &str, is_directory: bool, has_controllers: bool) -> (r: Result<
    (),
    SandboxError,
>)
    ensures
        failure(r) == if is_directory && has_controllers {
            None
        } else {
            Some(
                Fault::BackendUnavailable(
                    "delegated cgroup v2 root is unavailable at "@ + root@
                        + "; configure AGENT_SANDBOX_CGROUP_ROOT"@,
                ),
            )
        },
{
    if is_directory && has_controllers {
        Ok(())
    } else {
        Err(
            SandboxError::BackendUnavailable(
                concat3(
                    "delegated cgroup v2 root is unavailable at ",
                    root,
                    "; configure AGENT_SANDBOX_CGROUP_ROOT",
                ),
            ),
        )
    }
}

/// The files of a control group and what goes into them.
pub open spec fn cgroup_settings_of(limits: ResourceLimits) -> Seq<(Seq<char>, Seq<char>)> {
    seq![
        ("memory.max"@, decimal(limits.memory_bytes as nat)),
        ("pids.max"@, decimal(limits.processes as nat)),
        (
            "cpu.max"@,
            decimal(quota(limits) as nat) + " "@ + decimal(CGROUP_PERIOD as nat),
        ),
    ]
}

/// The files of a control group and what goes into them: the memory, the number of processes and
/// the share of processor time that the group may use.
pub fn cgroup_settings(limits: &ResourceLimits) -> (r: Vec<(String, String)>)
    ensures
        r@.map_values(|s: (String, String)| (s.0@, s.1@)) == cgroup_settings_of(*limits),
{
    let share: u64 = cgroup_quota(limits);
    let settings = vec![
        ("memory.max".to_owned(), decimal_text(limits.memory_bytes)),
        ("pids.max".to_owned(), decimal_text(limits.processes as u64)),
        (
            "cpu.max".to_owned(),
            concat3(&decimal_text(share), " ", &decimal_text(CGROUP_PERIOD)),
        ),
    ];
    assert(settings@.map_values(|s: (String, String)| (s.0@, s.1@)) =~= cgroup_settings_of(
        *limits,
    ));
    settings
}

/// What a line of a control group's statistics says of the time used, if it says anything.
pub open spec fn usage_in(line: Seq<char>) -> Option<u64> {
    let name = "usage_usec"@ + " "@;
    if name.is_prefix_of(line) {
        number_of(line.skip(name.len() as int))
    } else {
        None
    }
}

pub open spec fn first_usage(lines: Seq<Seq<char>>) -> Option<u64>
    decreases lines.len(),
{
    if lines.len() == 0 {
        None
    } else if usage_in(lines[0]) is Some {
        usage_in(lines[0])
    } else {
        first_usage(lines.drop_first())
    }
}

/// The processor time that a control group has used, in microseconds, from its statistics.
pub fn cpu_usage_usec(statistics: &str) -> (r: Option<u64>)
    ensures
        r == first_usage(lines_of(statistics@)),
{
    let lines = split_lines(statistics);
    let ghost all = lines_of(statistics@);
    let name = concat("usage_usec", " ");
    let mut i: usize = 0;
    proof {
        assert(all.skip(0) =~= all);
    }
    while i < lines.len()
        invariant
            i <= lines@.len(),
            texts(lines@) == all,
            all == lines_of(statistics@),
            name@ == "usage_usec"@ + " "@,
            first_usage(all) == first_usage(all.skip(i as int)),
        decreases lines@.len() - i,
    {
        proof {
            assert(all.skip(i as int)[0] == lines@[i as int]@);
            assert(all.skip(i as int).drop_first() =~= all.skip(i + 1));
        }
        if has_prefix(&lines[i], &name) {
            let marker: usize = name.as_str().unicode_len();
            let rest = skip_chars(&lines[i], marker);
            match parse_number(&rest) {
                Some(usage) => {
                    return Some(usage);
                },
                None => {},
            }
        }
        i = i + 1;
    }
    None
}

/// The paths that a process may write through Landlock: those that it may write, and what it
/// needs to set up its user namespace.
pub fn landlock_write_paths(policy: &ValidatedPolicy, temp_dir: &str) -> (r: Vec<String>)
    ensures
        texts(r@) == writable_paths(*policy, temp_dir@) + seq![
            "/proc/self/uid_map"@,
            "/proc/self/gid_map"@,
            "/proc/self/setgroups"@,
        ],
{
    let mut paths = write_paths(policy, temp_dir);
    let ghost before = texts(paths@);
    paths.push("/proc/self/uid_map".to_owned());
    paths.push("/proc/self/gid_map".to_owned());
    paths.push("/proc/self/setgroups".to_owned());
    assert(texts(paths@) =~= before + seq![
        "/proc/self/uid_map"@,
        "/proc/self/gid_map"@,
        "/proc/self/setgroups"@,
    ]);
    paths
}

/// A kind of access to files.
#[derive(Debug, Clone, Copy, PartialEq, Eq, Structural)]
pub enum FileAccess {
    ReadFile,
    ReadDir,
    Execute,
    WriteFile,
    MakeChar,
    MakeDir,
    MakeReg,
    MakeSock,
    MakeFifo,
    MakeBlock,
    MakeSym,
    RemoveFile,
    RemoveDir,
    Refer,
    Truncate,
}

/// The kinds of access that change nothing.
pub open spec fn only_reads(access: FileAccess) -> bool {
    access == FileAccess::ReadFile || access == FileAccess::ReadDir || access
        == FileAccess::Execute
}

/// The access that is given on a path that may be read.
pub open spec fn read_rights(is_directory: bool) -> Seq<FileAccess> {
    if is_directory {
        seq![FileAccess::ReadFile, FileAccess::ReadDir, FileAccess::Execute]
    } else {
        seq![FileAccess::ReadFile, FileAccess::Execute]
    }
}

/// The access that is given on a path that may be written.
pub open spec fn write_rights() -> Seq<FileAccess> {
    seq![
        FileAccess::ReadFile,
        FileAccess::ReadDir,
        FileAccess::Execute,
        FileAccess::WriteFile,
        FileAccess::MakeChar,
        FileAccess::MakeDir,
        FileAccess::MakeReg,
        FileAccess::MakeSock,
        FileAccess::MakeFifo,
        FileAccess::MakeBlock,
        FileAccess::MakeSym,
        FileAccess::RemoveFile,
        FileAccess::RemoveDir,
        FileAccess::Refer,
        FileAccess::Truncate,
    ]
}

/// The access that is given on a path that may be read.
pub fn read_access(is_directory: bool) -> (r: Vec<FileAccess>)
    ensures
        r@ == read_rights(is_directory),
{
    let access = if is_directory {
        vec![FileAccess::ReadFile, FileAccess::ReadDir, FileAccess::Execute]
    } else {
        vec![FileAccess::ReadFile, FileAccess::Execute]
    };
    assert(access@ =~= read_rights(is_directory));
    access
}

/// The access that is given on a path that may be written.
pub fn write_access() -> (r: Vec<FileAccess>)
    ensures
        r@ == write_rights(),
{
    let access = vec![
        FileAccess::ReadFile,
        FileAccess::ReadDir,
        FileAccess::Execute,
        FileAccess::WriteFile,
        FileAccess::MakeChar,
        FileAccess::MakeDir,
        FileAccess::MakeReg,
        FileAccess::MakeSock,
        FileAccess::MakeFifo,
        FileAccess::MakeBlock,
        FileAccess::MakeSym,
        FileAccess::RemoveFile,
        FileAccess::RemoveDir,
        FileAccess::Refer,
        FileAccess::Truncate,
    ];
    assert(access@ =~= write_rights());
    access
}

/// A path that may only be read is given no access by which it is changed; one that may be written
/// is given every kind of access.
pub proof fn law_reading_changes_nothing(is_directory: bool, access: FileAccess)
    ensures
        read_rights(is_directory).contains(access) ==> only_reads(access),
        write_rights().contains(access),
{
    match access {
        FileAccess::ReadFile => assert(write_rights()[0] == access),
        FileAccess::ReadDir => assert(write_rights()[1] == access),
        FileAccess::Execute => assert(write_rights()[2] == access),
        FileAccess::WriteFile => assert(write_rights()[3] == access),
        FileAccess::MakeChar => assert(write_rights()[4] == access),
        FileAccess::MakeDir => assert(write_rights()[5] == access),
        FileAccess::MakeReg => assert(write_rights()[6] == access),
        FileAccess::MakeSock => assert(write_rights()[7] == access),
        FileAccess::MakeFifo => assert(write_rights()[8] == access),
        FileAccess::MakeBlock => assert(write_rights()[9] == access),
        FileAccess::MakeSym => assert(write_rights()[10] == access),
        FileAccess::RemoveFile => assert(write_rights()[11] == access),
        FileAccess::RemoveDir => assert(write_rights()[12] == access),
        FileAccess::Refer => assert(write_rights()[13] == access),
        FileAccess::Truncate => assert(write_rights()[14] == access),
    }
}

pub open spec fn rule_texts(rules: Seq<(String, Vec<FileAccess>)>) -> Seq<
    (Seq<char>, Seq<FileAccess>),
> {
    rules.map_values(|rule: (String, Vec<FileAccess>)| (rule.0@, rule.1@))
}

/// The access that is given on each path: the paths that may be read, each with whether it is
/// opened as a directory, then those that may be written.
pub open spec fn landlock_list(readable: Seq<(String, bool)>, writable: Seq<String>) -> Seq<
    (Seq<char>, Seq<FileAccess>),
> {
    readable.map_values(|place: (String, bool)| (place.0@, read_rights(place.1)))
        + writable.map_values(|path: String| (path@, write_rights()))
}

/// The access that is given on each path. `readable` says of each path whether it is opened as a
/// directory.
pub fn landlock_rules(readable: &Vec<(String, bool)>, writable: &Vec<String>) -> (r: Vec<
    (String, Vec<FileAccess>),
>)
    ensures
        rule_texts(r@) == landlock_list(readable@, writable@),
{
    let ghost wanted = landlock_list(readable@, writable@);
    let mut rules: Vec<(String, Vec<FileAccess>)> = Vec::new();
    let mut i: usize = 0;
    while i < readable.len()
        invariant
            i <= readable@.len(),
            wanted == landlock_list(readable@, writable@),
            rule_texts(rules@) == wanted.take(i as int),
        decreases readable@.len() - i,
    {
        let ghost before = rule_texts(rules@);
        let rule = (readable[i].0.clone(), read_access(readable[i].1));
        rules.push(rule);
        proof {
            assert(rule_texts(rules@) =~= before.push((rule.0@, rule.1@)));
            assert(rule_texts(rules@) =~= wanted.take(i + 1));
        }
        i = i + 1;
    }
    let mut k: usize = 0;
    while k < writable.len()
        invariant
            k <= writable@.len(),
            wanted == landlock_list(readable@, writable@),
            rule_texts(rules@) == wanted.take(readable@.len() + k),
        decreases writable@.len() - k,
    {
        let ghost before = rule_texts(rules@);
        let rule = (writable[k].clone(), write_access());
        rules.push(rule);
        proof {
            assert(rule_texts(rules@) =~= before.push((rule.0@, rule.1@)));
            assert(rule_texts(rules@) =~= wanted.take(readable@.len() + k + 1));
        }
        k = k + 1;
    }
    assert(rule_texts(rules@) =~= wanted);
    rules
}

/// The paths of the system that every process may read, where they exist.
pub fn system_paths() -> (r: Vec<String>)
    ensures
        texts(r@) == seq![
            "/bin"@,
            "/usr/bin"@,
            "/lib"@,
            "/lib64"@,
            "/usr/lib"@,
            "/usr/lib64"@,
            "/etc/ssl"@,
            "/etc/pki"@,
            "/etc/ca-certificates"@,
            "/etc/ld.so.cache"@,
            "/dev/null"@,
            "/dev/urandom"@,
            "/proc/sys/kernel/overflowuid"@,
            "/proc/sys/kernel/overflowgid"@,
        ],
{
    let paths = vec![
        "/bin".to_owned(),
        "/usr/bin".to_owned(),
        "/lib".to_owned(),
        "/lib64".to_owned(),
        "/usr/lib".to_owned(),
        "/usr/lib64".to_owned(),
        "/etc/ssl".to_owned(),
        "/etc/pki".to_owned(),
        "/etc/ca-certificates".to_owned(),
        "/etc/ld.so.cache".to_owned(),
        "/dev/null".to_owned(),
        "/dev/urandom".to_owned(),
        "/proc/sys/kernel/overflowuid".to_owned(),
        "/proc/sys/kernel/overflowgid".to_owned(),
    ];
    assert(texts(paths@) =~= seq![
        "/bin"@,
        "/usr/bin"@,
        "/lib"@,
        "/lib64"@,
        "/usr/lib"@,
        "/usr/lib64"@,
        "/etc/ssl"@,
        "/etc/pki"@,
        "/etc/ca-certificates"@,
        "/etc/ld.so.cache"@,
        "/dev/null"@,
        "/dev/urandom"@,
        "/proc/sys/kernel/overflowuid"@,
        "/proc/sys/kernel/overflowgid"@,
    ]);
    paths
}

/// How the helper is told to make paths writable, all but the temporary directory.
pub open spec fn bind_options(paths: Seq<Seq<char>>, temp_dir: Seq<char>) -> Seq<Seq<char>>
    decreases paths.len(),
{
    if paths.len() == 0 {
        Seq::empty()
    } else {
        let before = bind_options(paths.drop_last(), temp_dir);
        if paths.last() == temp_dir {
            before
        } else {
            before + seq!["--bind"@, paths.last(), paths.last()]
        }
    }
}

/// What the helper is told: its own namespaces, the whole file system to read, and the writable
/// paths over it; then, behind a mark that ends the options, the program with its arguments.
pub open spec fn bwrap_options(
    sync_fd: nat,
    temp_dir: Seq<char>,
    deny_network: bool,
    writable: Seq<Seq<char>>,
    workdir: Seq<char>,
    program: Seq<char>,
    args: Seq<Seq<char>>,
) -> Seq<Seq<char>> {
    let isolation = seq![
        "--die-with-parent"@,
        "--new-session"@,
        "--unshare-user"@,
        "--unshare-pid"@,
        "--sync-fd"@,
        decimal(sync_fd),
        "--ro-bind"@,
        "/"@,
        "/"@,
        "--proc"@,
        "/proc"@,
        "--dev"@,
        "/dev"@,
        "--bind"@,
        temp_dir,
        temp_dir,
    ];
    let network = if deny_network {
        seq!["--unshare-net"@]
    } else {
        Seq::empty()
    };
    isolation + network + bind_options(writable, temp_dir) + seq![
        "--chdir"@,
        workdir,
        "--"@,
        program,
    ] + args
}

/// Why an execution cannot be launched.
pub open spec fn launch_fault(policy: ValidatedPolicy, execution: ValidatedExecution) -> Option<
    Fault,
> {
    let place = unix_fault(policy, execution.workdir@, "logical cwd mount unavailable"@);
    if place is Some {
        place
    } else {
        program_fault(policy, execution.command)
    }
}

/// The arguments with which the helper runs an execution. It waits on `sync_fd` until it is in
/// its control group.
pub fn bwrap_arguments(
    policy: &ValidatedPolicy,
    execution: &ValidatedExecution,
    temp_dir: &str,
    sync_fd: u32,
) -> (r: Result<Vec<String>, SandboxError>)
    ensures
        failure(r) == launch_fault(*policy, *execution),
        r matches Ok(options) ==> texts(options@) == bwrap_options(
            sync_fd as nat,
            temp_dir@,
            policy.original.network.mode == NetworkMode::Deny,
            writable_paths(*policy, temp_dir@),
            unix_start(*policy, execution.workdir@),
            program_of(*policy, execution.command),
            arguments_for(execution.command),
        ),
{
    let workdir = match native_workdir(policy, &execution.workdir) {
        Ok(workdir) => workdir,
        Err(error) => {
            return Err(error);
        },
    };
    let (program, args) = match command_line(policy, &execution.command) {
        Ok(parts) => parts,
        Err(error) => {
            return Err(error);
        },
    };
    let writable = write_paths(policy, temp_dir);
    let mut options = vec![
        "--die-with-parent".to_owned(),
        "--new-session".to_owned(),
        "--unshare-user".to_owned(),
        "--unshare-pid".to_owned(),
        "--sync-fd".to_owned(),
        decimal_text(sync_fd as u64),
        "--ro-bind".to_owned(),
        "/".to_owned(),
        "/".to_owned(),
        "--proc".to_owned(),
        "/proc".to_owned(),
        "--dev".to_owned(),
        "/dev".to_owned(),
        "--bind".to_owned(),
        temp_dir.to_owned(),
        temp_dir.to_owned(),
    ];
    assert(texts(options@) =~= seq![
        "--die-with-parent"@,
        "--new-session"@,
        "--unshare-user"@,
        "--unshare-pid"@,
        "--sync-fd"@,
        decimal(sync_fd as nat),
        "--ro-bind"@,
        "/"@,
        "/"@,
        "--proc"@,
        "/proc"@,
        "--dev"@,
        "/dev"@,
        "--bind"@,
        temp_dir@,
        temp_dir@,
    ]);
    let ghost isolation = texts(options@);
    if policy.original.network.mode == NetworkMode::Deny {
        options.push("--unshare-net".to_owned());
        assert(texts(options@) =~= isolation + seq!["--unshare-net"@]);
    } else {
        assert(texts(options@) =~= isolation + Seq::<Seq<char>>::empty());
    }
    push_binds(&mut options, &writable, temp_dir);
    let ghost before = texts(options@);
    options.push("--chdir".to_owned());
    options.push(workdir);
    options.push("--".to_owned());
    options.push(program);
    assert(texts(options@) =~= before + seq!["--chdir"@, workdir@, "--"@, program@]);
    push_all(&mut options, &args);
    Ok(options)
}

fn push_binds(options: &mut Vec<String>, paths: &Vec<String>, temp_dir: &str)
    ensures
        texts(final(options)@) == texts(old(options)@) + bind_options(texts(paths@), temp_dir@),
{
    let ghost start = texts(options@);
    let ghost all = texts(paths@);
    let mut i: usize = 0;
    proof {
        assert(all.take(0) =~= Seq::<Seq<char>>::empty());
        assert(texts(options@) =~= start + bind_options(all.take(0), temp_dir@));
    }
    while i < paths.len()
        invariant
            i <= paths@.len(),
            all == texts(paths@),
            texts(options@) == start + bind_options(all.take(i as int), temp_dir@),
        decreases paths@.len() - i,
    {
        let ghost before = texts(options@);
        proof {
            assert(all.take(i + 1).drop_last() =~= all.take(i as int));
        }
        if !same_text(&paths[i], temp_dir) {
            options.push("--bind".to_owned());
            options.push(paths[i].clone());
            options.push(paths[i].clone());
            proof {
                let path = paths@[i as int]@;
                assert(texts(options@) =~= before + seq!["--bind"@, path, path]);
                assert(texts(options@) =~= start + bind_options(all.take(i + 1), temp_dir@));
            }
        }
        i = i + 1;
    }
    proof {
        assert(all.take(i as int) =~= all);
    }
}

/// The program with its arguments is the end of what the helper is told, behind the mark that
/// ends the options; nothing that the program gets is read as an option.
pub proof fn law_options_end_before_the_program(
    sync_fd: nat,
    temp_dir: Seq<char>,
    deny_network: bool,
    writable: Seq<Seq<char>>,
    workdir: Seq<char>,
    program: Seq<char>,
    args: Seq<Seq<char>>,
)
    ensures
        ({
            let options = bwrap_options(
                sync_fd,
                temp_dir,
                deny_network,
                writable,
                workdir,
                program,
                args,
            );
            let at = options.len() - args.len() - 2;
            &&& options[at as int] == "--"@
            &&& options.skip(at as int + 1) == seq![program] + args
            &&& deny_network ==> options.take(at as int).contains("--unshare-net"@)
        }),
{
    let options = bwrap_options(
        sync_fd,
        temp_dir,
        deny_network,
        writable,
        workdir,
        program,
        args,
    );
    let at = options.len() - args.len() - 2;
    assert(options.skip(at as int + 1) =~= seq![program] + args);
    if deny_network {
        assert(options.take(at as int)[16] == "--unshare-net"@);
    }
}

/// How much of an argument a filter compares.
#[derive(Debug, Clone, Copy, PartialEq, Eq, Structural)]
pub enum FilterWidth {
    LowHalf,
    Whole,
}

/// How a filter compares an argument with a value.
#[derive(Debug, Clone, Copy, PartialEq, Eq, Structural)]
pub enum FilterOperator {
    Equal,
    NotEqual,
}

/// A comparison of an argument of a system call with a value.
#[derive(Debug, Clone, Copy, PartialEq, Eq, Structural)]
pub struct FilterCondition {
    pub argument: u8,
    pub width: FilterWidth,
    pub operator: FilterOperator,
    pub value: u64,
}

/// What a filter does with a system call.
#[derive(Debug, Clone, Copy, PartialEq, Eq, Structural)]
pub enum FilterAction {
    Allow,
    Errno(u32),
}

/// An instruction of a compiled filter.
#[derive(Debug, Clone, Copy, PartialEq, Eq)]
pub struct FilterStep {
    pub code: u16,
    pub jump_true: u8,
    pub jump_false: u8,
    pub value: u32,
}

/// A rule of a filter. It matches where all of its conditions hold.
#[verifier::external_type_specification]
#[verifier::external_body]
pub struct ExSeccompRule(SeccompRule);

/// The conditions that a rule holds, in order.
pub uninterp spec fn conditions_of(rule: SeccompRule) -> Seq<FilterCondition>;

/// The conditions of rules.
pub open spec fn rule_conditions(rules: Seq<SeccompRule>) -> Seq<Seq<FilterCondition>> {
    rules.map_values(|rule: SeccompRule| conditions_of(rule))
}

/// The greatest number of conditions that a rule is compiled with.
pub const MAX_CONDITIONS: usize = 4096;

/// The last argument of a system call.
pub const LAST_ARGUMENT: u8 = 5;

/// `seccompiler::SeccompRule::new`, of the conditions that `SeccompCondition::new` makes: a rule
/// that holds these conditions. It refuses only a rule without conditions, and a condition on an
/// argument that no system call has.
#[verifier::external_body]
fn filter_rule(conditions: &Vec<FilterCondition>) -> (r: SeccompRule)
    requires
        0 < conditions@.len() <= MAX_CONDITIONS,
        forall|i: int|
            0 <= i < conditions@.len() ==> (#[trigger] conditions@[i]).argument <= LAST_ARGUMENT,
    ensures
        conditions_of(r) == conditions@,
{
    let condition = |c: &FilterCondition| {
        let width = match c.width { LowHalf => Dword, Whole => Qword };
        let operator = match c.operator { Equal => SeccompCmpOp::Eq, NotEqual => SeccompCmpOp::Ne };
        SeccompCondition::new(c.argument, width, operator, c.value).unwrap()
    };
    SeccompRule::new(conditions.iter().map(condition).collect()).unwrap()
}

/// The program that `seccompiler` compiles for a filter of one system call: `matched` where one of
/// the rules matches, `mismatched` otherwise; what it says where it refuses to.
pub uninterp spec fn compiled_filter(
    system_call: u32,
    rules: Seq<Seq<FilterCondition>>,
    mismatched: FilterAction,
    matched: FilterAction,
    architecture: Seq<char>,
) -> Result<Seq<FilterStep>, Seq<char>>;

/// `seccompiler::SeccompFilter::new`, and the conversion of the filter to a `BpfProgram`. The
/// program, or the text of the refusal, is a function of the arguments alone; of a rule, only the
/// conditions that it holds matter.
#[verifier::external_body]
fn compile_filter(
    system_call: u32,
    rules: Vec<SeccompRule>,
    mismatched: FilterAction,
    matched: FilterAction,
    architecture: &str,
) -> (r: Result<Vec<FilterStep>, String>)
    requires
        forall|i: int|
            0 <= i < rules@.len() ==> conditions_of(#[trigger] rules@[i]).len() <= MAX_CONDITIONS,
    ensures
        compiled_filter(
            system_call,
            rule_conditions(rules@),
            mismatched,
            matched,
            architecture@,
        ) == match r {
            Ok(steps) => Ok(steps@),
            Err(reason) => Err(reason@),
        },
{
    let action = |a| match a { FilterAction::Allow => Allow, FilterAction::Errno(e) => Errno(e) };
    let build = || {
        let all = [(system_call.into(), rules)].into();
        let target = architecture.try_into()?;
        BpfProgram::try_from(SeccompFilter::new(all, action(mismatched), action(matched), target)?)
    };
    let program = build().map_err(|e: BackendError| e.to_string())?;
    Ok(program
        .iter()
        .map(|s| FilterStep { code: s.code, jump_true: s.jt, jump_false: s.jf, value: s.k })
        .collect())
}

/// The condition under which a socket call asks for a domain: the low half of its first argument
/// is the domain.
pub open spec fn asks_for(domain: u64) -> FilterCondition {
    FilterCondition {
        argument: 0,
        width: FilterWidth::LowHalf,
        operator: FilterOperator::Equal,
        value: domain,
    }
}

/// The rules of the filter that closes the network: one for each domain of the internet, and one
/// for raw packets.
pub open spec fn network_rules() -> Seq<Seq<FilterCondition>> {
    seq![seq![asks_for(AF_INET)], seq![asks_for(AF_INET6)], seq![asks_for(AF_PACKET)]]
}

fn domain_rule(domain: u64) -> (r: SeccompRule)
    ensures
        conditions_of(r) == seq![asks_for(domain)],
{
    let conditions = vec![
        FilterCondition {
            argument: 0,
            width: FilterWidth::LowHalf,
            operator: FilterOperator::Equal,
            value: domain,
        },
    ];
    assert(conditions@ =~= seq![asks_for(domain)]);
    filter_rule(&conditions)
}

/// The filter that closes the network: sockets for IPv4, IPv6 and raw packets are refused with the
/// error that the operation is not permitted, and every other call is allowed. `socket_call` is
/// the number of the system call that opens a socket.
pub fn network_filter(socket_call: u32, architecture: &str) -> (r: Result<Vec<FilterStep>, String>)
    ensures
        match compiled_filter(
            socket_call,
            network_rules(),
            FilterAction::Allow,
            FilterAction::Errno(EPERM),
            architecture@,
        ) {
            Ok(steps) => r matches Ok(program) && program@ == steps,
            Err(said) => r matches Err(reason) && reason@ == said,
        },
{
    let rules = vec![domain_rule(AF_INET), domain_rule(AF_INET6), domain_rule(AF_PACKET)];
    assert(rule_conditions(rules@) =~= network_rules());
    compile_filter(
        socket_call,
        rules,
        FilterAction::Allow,
        FilterAction::Errno(EPERM),
        architecture,
    )
}

/// A control group is told the memory and the number of processes as numbers that read back as the
/// limits, and the share of processor time as so many microseconds of every hundred thousand.
pub proof fn law_control_group_is_told_the_limits(limits: ResourceLimits)
    ensures
        ({
            let settings = cgroup_settings_of(limits);
            &&& settings.len() == 3
            &&& settings[0].0 == "memory.max"@ && number_of(settings[0].1) == Some(
                limits.memory_bytes,
            )
            &&& settings[1].0 == "pids.max"@ && number_of(settings[1].1) == Some(
                limits.processes as u64,
            )
            &&& settings[2].0 == "cpu.max"@ && settings[2].1 == decimal(quota(limits) as nat)
                + seq![' '] + decimal(100_000)
        }),
{
    law_numbers_are_read_back(limits.memory_bytes);
    law_numbers_are_read_back(limits.processes as u64);
    reveal_strlit(" ");
    assert(" "@ =~= seq![' ']);
}

/// The time that a control group has used is read from the first line that says it, wherever it
/// stands.
pub proof fn law_used_time_is_read(front: Seq<Seq<char>>, n: u64, behind: Seq<Seq<char>>)
    requires
        forall|i: int| 0 <= i < front.len() ==> !"usage_usec"@.is_prefix_of(#[trigger] front[i]),
    ensures
        first_usage(front + seq!["usage_usec"@ + seq![' '] + decimal(n as nat)] + behind) == Some(
            n,
        ),
        first_usage(front) is None,
    decreases front.len(),
{
    let name = "usage_usec"@ + " "@;
    let line = "usage_usec"@ + seq![' '] + decimal(n as nat);
    reveal_strlit(" ");
    assert(" "@ =~= seq![' ']);
    let whole = front + seq![line] + behind;
    if front.len() == 0 {
        law_numbers_are_read_back(n);
        assert(line.subrange(0, name.len() as int) =~= name);
        assert(line.skip(name.len() as int) =~= decimal(n as nat));
        assert(whole[0] == line);
    } else {
        let rest = front.drop_first();
        assert forall|i: int| 0 <= i < rest.len() implies !"usage_usec"@.is_prefix_of(
            #[trigger] rest[i],
        ) by {
            assert(rest[i] == front[i + 1]);
        }
        law_used_time_is_read(rest, n, behind);
        assert(whole[0] == front[0]);
        assert(whole.drop_first() =~= rest + seq![line] + behind);
        assert(usage_in(front[0]) is None) by {
            if name.is_prefix_of(front[0]) {
                assert(front[0].subrange(0, "usage_usec"@.len() as int) =~= "usage_usec"@) by {
                    assert(front[0].subrange(0, name.len() as int).subrange(
                        0,
                        "usage_usec"@.len() as int,
                    ) =~= front[0].subrange(0, "usage_usec"@.len() as int));
                    assert(name.subrange(0, "usage_usec"@.len() as int) =~= "usage_usec"@);
                }
            }
        }
    }
}

/// What is found is what stands behind the text in the first line that begins with it.
pub proof fn law_first_line_is_found(
    before: Seq<Seq<char>>,
    found: Seq<char>,
    behind: Seq<Seq<char>>,
    front: Seq<char>,
)
    requires
        forall|i: int| 0 <= i < before.len() ==> !front.is_prefix_of(#[trigger] before[i]),
    ensures
        first_after(before + seq![front + found] + behind, front) == Some(found),
        first_after(before, front) is None,
    decreases before.len(),
{
    let whole = before + seq![front + found] + behind;
    if before.len() == 0 {
        assert(whole[0] == front + found);
        assert((front + found).subrange(0, front.len() as int) =~= front);
        assert((front + found).skip(front.len() as int) =~= found);
    } else {
        let rest = before.drop_first();
        assert forall|i: int| 0 <= i < rest.len() implies !front.is_prefix_of(
            #[trigger] rest[i],
        ) by {
            assert(rest[i] == before[i + 1]);
        }
        law_first_line_is_found(rest, found, behind, front);
        assert(whole[0] == before[0]);
        assert(whole.drop_first() =~= rest + seq![front + found] + behind);
    }
}

/// A path that may be read is given reading and running, and looking into where it is a directory;
/// every rule of the list is for its own path, the readable ones first.
pub proof fn law_rules_are_for_their_paths(
    readable: Seq<(String, bool)>,
    writable: Seq<String>,
    i: int,
)
    ensures
        landlock_list(readable, writable).len() == readable.len() + writable.len(),
        0 <= i < readable.len() ==> {
            let rule = landlock_list(readable, writable)[i];
            &&& rule.0 == readable[i].0@
            &&& rule.1.contains(FileAccess::ReadFile) && rule.1.contains(FileAccess::Execute)
            &&& rule.1.contains(FileAccess::ReadDir) <==> readable[i].1
            &&& !rule.1.contains(FileAccess::WriteFile)
            &&& rule.1.len() == if readable[i].1 {
                3nat
            } else {
                2
            }
        },
        0 <= i < writable.len() ==> {
            let rule = landlock_list(readable, writable)[readable.len() + i];
            rule.0 == writable[i]@ && rule.1 == write_rights()
        },
{
    if 0 <= i < readable.len() {
        let rights = read_rights(readable[i].1);
        assert(rights[0] == FileAccess::ReadFile);
        assert(rights[rights.len() - 1] == FileAccess::Execute);
        if readable[i].1 {
            assert(rights[1] == FileAccess::ReadDir);
        }
    }
}

proof fn lemma_bound(paths: Seq<Seq<char>>, temp_dir: Seq<char>, path: Seq<char>, k: int)
    ensures
        bind_options(paths, temp_dir).len() % 3 == 0,
        0 <= k && 3 * k < bind_options(paths, temp_dir).len() ==> {
            let options = bind_options(paths, temp_dir);
            &&& options[3 * k] == "--bind"@
            &&& options[3 * k + 1] == options[3 * k + 2]
            &&& paths.contains(options[3 * k + 1])
            &&& options[3 * k + 1] != temp_dir
        },
        paths.contains(path) && path != temp_dir ==> exists|j: int|
            0 <= j && 3 * j < bind_options(paths, temp_dir).len() && (#[trigger] bind_options(
                paths,
                temp_dir,
            )[3 * j + 1]) == path,
    decreases paths.len(),
{
    if paths.len() > 0 {
        let fewer = paths.drop_last();
        let before = bind_options(fewer, temp_dir);
        let options = bind_options(paths, temp_dir);
        lemma_bound(fewer, temp_dir, path, k);
        assert(paths.contains(paths.last())) by {
            assert(paths[paths.len() - 1] == paths.last());
        }
        if 0 <= k && 3 * k < before.len() {
            assert(options[3 * k] == before[3 * k]);
            assert(options[3 * k + 1] == before[3 * k + 1]);
            assert(options[3 * k + 2] == before[3 * k + 2]);
            let p = choose|p: int| 0 <= p < fewer.len() && fewer[p] == before[3 * k + 1];
            assert(paths[p] == before[3 * k + 1]);
        }
        if paths.contains(path) && path != temp_dir {
            let p = choose|p: int| 0 <= p < paths.len() && paths[p] == path;
            if p < fewer.len() {
                assert(fewer[p] == path);
                let j = choose|j: int|
                    0 <= j && 3 * j < before.len() && (#[trigger] before[3 * j + 1]) == path;
                assert(options[3 * j + 1] == path);
            } else {
                let j = before.len() as int / 3;
                assert(options[3 * j + 1] == path);
            }
        }
    }
}

/// The helper gets namespaces of its own, sees the whole file system but only to read, and may
/// write to the temporary directory and to the writable paths, every one of them and no other. It
/// has the network exactly where that is not denied, and starts in the working directory.
pub proof fn law_helper_is_told_what_is_writable(
    sync_fd: u32,
    temp_dir: Seq<char>,
    deny_network: bool,
    writable: Seq<Seq<char>>,
    workdir: Seq<char>,
    program: Seq<char>,
    args: Seq<Seq<char>>,
    path: Seq<char>,
    k: int,
)
    ensures
        ({
            let options = bwrap_options(
                sync_fd as nat,
                temp_dir,
                deny_network,
                writable,
                workdir,
                program,
                args,
            );
            let first: int = if deny_network {
                17
            } else {
                16
            };
            let end = options.len() - args.len() - 4;
            &&& options[0] == "--die-with-parent"@ && options[1] == "--new-session"@
            &&& options[2] == "--unshare-user"@ && options[3] == "--unshare-pid"@
            &&& options[4] == "--sync-fd"@ && number_of(options[5]) == Some(sync_fd as u64)
            &&& options[6] == "--ro-bind"@ && options[7] == "/"@ && options[8] == "/"@
            &&& options[9] == "--proc"@ && options[11] == "--dev"@
            &&& options[13] == "--bind"@ && options[14] == temp_dir && options[15] == temp_dir
            &&& deny_network ==> options[16] == "--unshare-net"@
            &&& (end - first) % 3 == 0
            &&& 0 <= k && first + 3 * k < end ==> options[first + 3 * k] == "--bind"@
                && options[first + 3 * k + 1] == options[first + 3 * k + 2] && writable.contains(
                options[first + 3 * k + 1],
            )
            &&& writable.contains(path) && path != temp_dir ==> exists|at: int|
                first < at < end && (at - first) % 3 == 1 && (#[trigger] options[at]) == path
            &&& options[end] == "--chdir"@ && options[end + 1] == workdir && options[end + 2]
                == "--"@ && options[end + 3] == program
        }),
{
    let options = bwrap_options(
        sync_fd as nat,
        temp_dir,
        deny_network,
        writable,
        workdir,
        program,
        args,
    );
    let first: int = if deny_network {
        17
    } else {
        16
    };
    let bound = bind_options(writable, temp_dir);
    let end = first + bound.len();
    law_numbers_are_read_back(sync_fd as u64);
    lemma_bound(writable, temp_dir, path, k);
    assert(options.len() == end + 4 + args.len());
    assert forall|i: int| 0 <= i < bound.len() implies options[first + i] == #[trigger] bound[i] by {}
    if 0 <= k && first + 3 * k < end {
        assert(options[first + (3 * k)] == bound[3 * k]);
        assert(options[first + (3 * k + 1)] == bound[3 * k + 1]);
        assert(options[first + (3 * k + 2)] == bound[3 * k + 2]);
    }
    if writable.contains(path) && path != temp_dir {
        let j = choose|j: int| 0 <= j && 3 * j < bound.len() && (#[trigger] bound[3 * j + 1])
            == path;
        let at = first + (3 * j + 1);
        assert(options[at] == bound[3 * j + 1]);
        assert((at - first) % 3 == 1);
        assert(first < at < end && options[at] == path);
    }
    assert(options[9] == "--proc"@ && options[11] == "--dev"@ && options[13] == "--bind"@);
    assert(options[end as int] == "--chdir"@ && options[end + 1] == workdir && options[end + 2]
        == "--"@ && options[end + 3] == program);
}

/// The network is closed to the domains of the internet, of both versions, and to raw packets, and
/// what is looked at is the domain that a socket is asked for.
pub proof fn law_closed_domains(i: int)
    ensures
        network_rules().len() == 3,
        0 <= i < 3 ==> network_rules()[i].len() == 1 && network_rules()[i][0].argument == 0
            && network_rules()[i][0].operator == FilterOperator::Equal
            && network_rules()[i][0].width == FilterWidth::LowHalf,
        network_rules()[0][0].value == 2,
        network_rules()[1][0].value == 10,
        network_rules()[2][0].value == 17,
{
}

/// An execution is launched exactly where its working directory names a mount of the policy, and
/// its program, where it has one, is declared.
pub proof fn law_launched_executions(policy: ValidatedPolicy, execution: ValidatedExecution)
    ensures
        launch_fault(policy, execution) is None <==> {
            &&& named_place(execution.workdir@) matches Some((name, _))
                && policy.mounts@.contains_key(name)
            &&& execution.command matches CommandSpec::Exec { program, .. }
                ==> policy.executables@.contains_key(program@)
        },
{
}

/// Every feature is enforced, but for access to files through the daemon.
pub proof fn law_enforced_features(name: Seq<char>)
    ensures
        name != "filesystemRpc"@ && enforced_features().contains_key(name)
            ==> enforced_features()[name] == FeatureState::Enforced,
        enforced_features()["filesystemRpc"@] == FeatureState::Unavailable,
        enforced_features().contains_key("filesystemReadBoundary"@),
        enforced_features().contains_key("filesystemWriteBoundary"@),
        enforced_features().contains_key("networkDeny"@),
        enforced_features().contains_key("processTree"@),
        enforced_features().contains_key("memoryLimit"@),
        enforced_features().contains_key("cpuLimit"@),
        enforced_features().contains_key("processLimit"@),
{
}

} // verus!
