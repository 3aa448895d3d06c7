use agent_sandbox::error::SandboxError;
use agent_sandbox::limits::{cgroup_quota, cpu_seconds, cpu_time_used_up, job_limits};
use agent_sandbox::lines::{parse_number, split_lines};
use agent_sandbox::linux_backend::{
    self, bwrap_arguments, cgroup_settings, check_cgroup_root, choose_bwrap, cpu_usage_usec,
    current_cgroup_path, landlock_rules, landlock_write_paths, network_filter, probe_arguments,
    probe_settings, read_access, write_access, FileAccess, FilterStep,
};
use agent_sandbox::macos_backend::{self, process_tree, watch, ProcessSnapshot};
use agent_sandbox::path::Platform;
use agent_sandbox::policy::{
    ValidatedExecutable, ValidatedExecution, ValidatedMount, ValidatedPolicy,
};
use agent_sandbox::protocol::{
    BackendPreference, CommandSpec, EnforcementStatus, EnvironmentPolicy, ExecutionPolicy,
    FeatureState, FilesystemPolicy, MountAccess, NetworkMode, NetworkPolicy, ResourceLimits,
    SandboxPolicy, ShellChoice,
};
use agent_sandbox::seatbelt::seatbelt_escape;
use agent_sandbox::string_map::StringMap;
use agent_sandbox::unix_backend::{self, process_limits, UnixSystem};
use agent_sandbox::unix_launch::{
    command_line, denies_network, exit_code, native_workdir, process_environment,
    runtime_read_paths, search_entries, system_path, temp_directory_name, write_paths,
};

fn strings(list: &[&str]) -> Vec<String> {
    list.iter().map(|s| s.to_string()).collect()
}

fn policy(network: NetworkMode) -> ValidatedPolicy {
    let mut mounts = StringMap::new();
    for (name, source, access) in [
        ("ws", "/work", MountAccess::ReadWrite),
        ("tools", "/opt/tools", MountAccess::ReadOnly),
    ] {
        mounts.insert(
            name.to_string(),
            ValidatedMount {
                name: name.into(),
                source: source.into(),
                access,
                destination: format!("mount://{name}"),
            },
        );
    }
    let mut executables = StringMap::new();
    executables.insert(
        "node".to_string(),
        ValidatedExecutable {
            alias: "node".into(),
            path: "/opt/tools/node".into(),
            sha256: "00".into(),
        },
    );
    ValidatedPolicy {
        original: SandboxPolicy {
            schema_version: 1,
            backend: BackendPreference::Auto,
            filesystem: FilesystemPolicy::default(),
            network: NetworkPolicy { mode: network },
            environment: EnvironmentPolicy::default(),
            execution: ExecutionPolicy::default(),
            limits: ResourceLimits::default(),
        },
        platform: Platform::Unix,
        mounts,
        executables,
        allowed_environment: StringMap::new(),
        inherited_environment: StringMap::new(),
        fingerprint: "sha256:f".into(),
    }
}

fn limits(wall: u64, cpu: u64) -> ResourceLimits {
    ResourceLimits {
        wall_time_ms: wall,
        cpu_time_ms: cpu,
        memory_bytes: 1000,
        processes: 2,
        output_bytes: 100,
    }
}

fn execution(command: CommandSpec, workdir: &str) -> ValidatedExecution {
    let mut environment = StringMap::new();
    environment.insert("CI".to_string(), "1".to_string());
    environment.insert("TMPDIR".to_string(), "/elsewhere".to_string());
    ValidatedExecution {
        command,
        workdir: workdir.into(),
        environment,
        limits: limits(1_000, 500),
    }
}

fn node(args: &[&str]) -> CommandSpec {
    CommandSpec::Exec { program: "node".into(), args: strings(args) }
}

#[test]
fn working_directories_on_unix() {
    let policy = policy(NetworkMode::Deny);
    assert_eq!(native_workdir(&policy, "mount://ws/a/b").unwrap(), "/work/a/b");
    assert_eq!(native_workdir(&policy, "mount://ws").unwrap(), "/work/");
    assert_eq!(unix_backend::native_workdir(&policy, "mount://ws").unwrap(), "/work");
    assert_eq!(
        native_workdir(&policy, "ws/a").unwrap_err(),
        SandboxError::InvalidPolicy("invalid logical cwd".into())
    );
    assert_eq!(
        native_workdir(&policy, "mount://none/a").unwrap_err(),
        SandboxError::InvalidPolicy("logical cwd mount unavailable".into())
    );
    assert_eq!(
        unix_backend::native_workdir(&policy, "mount://none").unwrap_err(),
        SandboxError::InvalidPolicy("logical cwd mount is unavailable".into())
    );
}

#[test]
fn commands_on_unix() {
    let policy = policy(NetworkMode::Deny);
    assert_eq!(
        command_line(&policy, &node(&["-v"])).unwrap(),
        ("/opt/tools/node".to_string(), strings(&["-v"]))
    );
    let shell = CommandSpec::Shell { shell: ShellChoice::Default, script: "ls".into() };
    assert_eq!(
        command_line(&policy, &shell).unwrap(),
        ("/bin/sh".to_string(), strings(&["-c", "ls"]))
    );
    let unknown = CommandSpec::Exec { program: "rm".into(), args: Vec::new() };
    assert!(matches!(command_line(&policy, &unknown), Err(SandboxError::Process(_))));
}

#[test]
fn environment_and_paths_on_unix() {
    let policy = policy(NetworkMode::Deny);
    let environment = process_environment(&execution(node(&[]), "mount://ws"), "/tmp/x");
    assert_eq!(environment.len(), 2);
    assert_eq!(environment.get("TMPDIR").unwrap(), "/tmp/x");
    assert_eq!(write_paths(&policy, "/tmp/x"), strings(&["/work", "/tmp/x"]));
    assert_eq!(
        landlock_write_paths(&policy, "/tmp/x"),
        strings(&[
            "/work", "/tmp/x", "/proc/self/uid_map", "/proc/self/gid_map", "/proc/self/setgroups",
        ])
    );
    let readable = runtime_read_paths(
        &policy,
        &vec![Some("/usr/bin".into()), None],
        Some("/opt/tools".into()),
        &vec![None, Some("/home/bin".into())],
    );
    let paths: Vec<&String> = (0..readable.len()).map(|i| readable.key_at(i)).collect();
    assert_eq!(paths, ["/home/bin", "/opt/tools", "/usr/bin", "/work"]);
    assert!(denies_network(&policy));
    assert_eq!(temp_directory_name("ab-c_1"), "agent-sandbox-abc1");
}

#[test]
fn search_paths_and_system_paths() {
    let mut environment = StringMap::new();
    assert!(search_entries(&environment).is_empty());
    environment.insert("PATH".to_string(), "/usr/bin::/opt/x".to_string());
    assert_eq!(search_entries(&environment), strings(&["/usr/bin", "", "/opt/x"]));
    environment.insert("PATH".to_string(), String::new());
    assert_eq!(search_entries(&environment), strings(&[""]));

    assert_eq!(system_path("/lib", false, Some("/usr/lib".into())), None);
    assert_eq!(system_path("/lib", true, Some("/usr/lib".into())), Some("/usr/lib".into()));
    assert_eq!(system_path("/lib", true, None), Some("/lib".into()));
    assert_eq!(linux_backend::system_paths().len(), 14);
    assert!(linux_backend::system_paths().contains(&"/etc/ssl".to_string()));
    assert_eq!(unix_backend::system_paths().len(), 9);
    assert!(!unix_backend::system_paths().contains(&"/etc/ssl".to_string()));
    assert!(macos_backend::system_paths().contains(&"/System/Library".to_string()));
    assert_eq!(probe_arguments().last().map(String::as_str), Some("/bin/true"));
    assert_eq!(probe_settings()[1], ("pids.max".to_string(), "4".to_string()));
}

#[test]
fn exit_codes_of_signals() {
    assert_eq!(exit_code(Some(3), None), 3);
    assert_eq!(exit_code(None, Some(9)), 137);
    assert_eq!(exit_code(None, None), 128);
}

#[test]
fn bubblewrap_arguments() {
    let deny = policy(NetworkMode::Deny);
    let run = execution(node(&["--bind"]), "mount://ws/a");
    assert_eq!(
        bwrap_arguments(&deny, &run, "/tmp/x", 7).unwrap(),
        strings(&[
            "--die-with-parent", "--new-session", "--unshare-user", "--unshare-pid", "--sync-fd",
            "7", "--ro-bind", "/", "/", "--proc", "/proc", "--dev", "/dev", "--bind", "/tmp/x",
            "/tmp/x", "--unshare-net", "--bind", "/work", "/work", "--chdir", "/work/a", "--",
            "/opt/tools/node", "--bind",
        ])
    );
    let host = policy(NetworkMode::Host);
    let open = bwrap_arguments(&host, &run, "/tmp/x", 7).unwrap();
    assert!(!open.contains(&"--unshare-net".to_string()));
    let lost = execution(node(&[]), "elsewhere");
    assert!(bwrap_arguments(&deny, &lost, "/tmp/x", 7).is_err());
}

#[test]
fn linux_facts_are_read() {
    assert_eq!(
        current_cgroup_path("1:cpu:/x\n0::/user.slice/a\n").unwrap(),
        "/sys/fs/cgroup/user.slice/a"
    );
    assert_eq!(current_cgroup_path("0::/").unwrap(), "/sys/fs/cgroup/");
    assert_eq!(
        current_cgroup_path("1:cpu:/x\n").unwrap_err(),
        SandboxError::BackendUnavailable(
            "cannot discover the current unified cgroup v2 path".into()
        )
    );
    assert_eq!(cpu_usage_usec("user_usec 5\nusage_usec 42\nusage_usec 43\n"), Some(42));
    assert_eq!(cpu_usage_usec("usage_usec x\nusage_usec 7"), Some(7));
    assert_eq!(cpu_usage_usec("usage_usec18 7\n"), None);
    assert_eq!(
        choose_bwrap(Some(("/b".into(), true)), &vec![("/c".into(), true)]).unwrap(),
        "/b"
    );
    assert_eq!(
        choose_bwrap(Some(("/b".into(), false)), &vec![("/c".into(), true)]).unwrap(),
        "/c"
    );
    assert!(choose_bwrap(None, &vec![("/c".into(), false)]).is_err());
    assert!(check_cgroup_root("/r", true, true).is_ok());
    assert_eq!(
        check_cgroup_root("/r", true, false).unwrap_err(),
        SandboxError::BackendUnavailable(
            "delegated cgroup v2 root is unavailable at /r; configure AGENT_SANDBOX_CGROUP_ROOT"
                .into()
        )
    );
    assert_eq!(linux_backend::report().status, EnforcementStatus::Enforced);
}

#[test]
fn lines_and_numbers() {
    assert_eq!(split_lines("a\r\nb\n\nc\r"), strings(&["a", "b", "", "c\r"]));
    assert!(split_lines("").is_empty());
    assert_eq!(parse_number("18446744073709551615"), Some(u64::MAX));
    assert_eq!(parse_number("18446744073709551616"), None);
    assert_eq!(parse_number("+12"), Some(12));
    assert_eq!(parse_number("+"), None);
    assert_eq!(parse_number(""), None);
    assert_eq!(parse_number("-1"), None);
    assert_eq!(parse_number("1 "), None);
}

#[test]
fn control_group_settings() {
    assert_eq!(
        cgroup_settings(&limits(1_000, 500)),
        vec![
            ("memory.max".to_string(), "1000".to_string()),
            ("pids.max".to_string(), "2".to_string()),
            ("cpu.max".to_string(), "50000 100000".to_string()),
        ]
    );
    assert_eq!(cgroup_quota(&limits(1_000_000, 1)), 1_000);
    assert_eq!(cgroup_quota(&limits(1, 1_000_000)), 100_000);
    assert_eq!(cgroup_quota(&limits(0, 0)), 1_000);
    assert_eq!(cpu_seconds(&limits(1, 1_001)), 2);
    assert_eq!(cpu_seconds(&limits(1, 1_000)), 1);
    assert_eq!(process_limits(&limits(1, 2_500)).cpu_seconds, 3);
    assert_eq!(process_limits(&limits(1, 2_500)).address_space, 1000);
    assert!(cpu_time_used_up(Some(5_000), 5));
    assert!(!cpu_time_used_up(Some(4_999), 5));
    assert!(!cpu_time_used_up(None, 5));
    assert_eq!(job_limits(&limits(1_000, 1)).cpu_rate_percent, 1);
    assert_eq!(job_limits(&limits(1_000, 5_000)).cpu_rate_percent, 100);
}

#[test]
fn landlock_access() {
    assert_eq!(
        read_access(true),
        vec![FileAccess::ReadFile, FileAccess::ReadDir, FileAccess::Execute]
    );
    assert_eq!(read_access(false), vec![FileAccess::ReadFile, FileAccess::Execute]);
    assert_eq!(write_access().len(), 15);
    assert!(write_access().contains(&FileAccess::Truncate));
    assert_eq!(
        landlock_rules(
            &vec![("/bin".to_string(), true), ("/dev/null".to_string(), false)],
            &strings(&["/work"])
        ),
        vec![
            ("/bin".to_string(), read_access(true)),
            ("/dev/null".to_string(), read_access(false)),
            ("/work".to_string(), write_access()),
        ]
    );
}

/// Runs a socket filter on a system call and returns its verdict.
fn verdict(program: &[FilterStep], arch: u32, call: u32, argument: u64) -> u32 {
    let mut accumulator: u32 = 0;
    let mut at = 0;
    loop {
        let step = program[at];
        at += 1;
        match step.code {
            0x20 => {
                accumulator = match step.value {
                    0 => call,
                    4 => arch,
                    16 => argument as u32,
                    20 => (argument >> 32) as u32,
                    other => panic!("load at {other}"),
                }
            }
            0x15 => at += usize::from(if accumulator == step.value { step.jump_true } else { step.jump_false }),
            0x05 => at += step.value as usize,
            0x06 => return step.value,
            other => panic!("instruction {other:#x}"),
        }
    }
}

#[test]
fn network_filters_close_internet_sockets() {
    const X86_64: u32 = 0xc000_003e;
    const ALLOW: u32 = 0x7fff_0000;
    const DENY: u32 = 0x0005_0001;
    let program = network_filter(41, "x86_64").unwrap();
    for domain in [2, 10, 17] {
        assert_eq!(verdict(&program, X86_64, 41, domain), DENY);
    }
    assert_eq!(verdict(&program, X86_64, 41, 1), ALLOW);
    assert_eq!(verdict(&program, X86_64, 42, 2), ALLOW);
    assert!(network_filter(41, "vax").is_err());
}

#[test]
fn seatbelt_profiles() {
    assert_eq!(seatbelt_escape("/a\\b\"c").unwrap(), "/a\\\\b\\\"c");
    assert_eq!(
        seatbelt_escape("/a\nb").unwrap_err(),
        "Seatbelt path contains control characters"
    );
    assert!(seatbelt_escape("/a\u{85}b").is_err());
    let profile =
        macos_backend::seatbelt_profile(&strings(&["/r"]), &strings(&["/w"]), true).unwrap();
    assert!(profile.starts_with("(version 1)\n(deny default)\n(allow process-exec*)\n"));
    assert!(profile.ends_with(
        "(allow file-read* (literal \"/\"))\n(allow file-read* (subpath \"/r\"))\n(allow file-map-executable (subpath \"/r\"))\n(allow file-read* file-write* (subpath \"/w\"))\n"
    ));
    let open = macos_backend::seatbelt_profile(&Vec::new(), &Vec::new(), false).unwrap();
    assert!(open.ends_with("(allow network*)\n(allow system-socket)\n"));
    assert!(macos_backend::seatbelt_profile(&strings(&["/\0"]), &Vec::new(), true).is_err());
    assert_eq!(
        unix_backend::seatbelt_profile(&strings(&["/r"]), &strings(&["/w"]), false).unwrap(),
        "(version 1)\n(deny default)\n(allow process*)\n(allow signal (target self))\n(allow file-read-metadata)\n(allow file-read* (subpath \"/r\"))\n(allow file-read* file-write* (subpath \"/w\"))\n(allow network*)\n"
    );
}

fn snapshot(pid: i32, ppid: i32) -> ProcessSnapshot {
    ProcessSnapshot { pid, ppid, resident_size: 400, user_time: 1, system_time: 2 }
}

#[test]
fn watchdog_follows_descendants() {
    let processes =
        vec![snapshot(30, 20), snapshot(20, 10), snapshot(10, 1), snapshot(99, 1), snapshot(40, 30)];
    let mut tree = process_tree(vec![10], &processes);
    tree.sort();
    assert_eq!(tree, [10, 20, 30, 40]);
    let (mut kept, exceeded) = watch(vec![20, 77], &processes, &limits(1, 1_000));
    kept.sort();
    assert_eq!(kept, [20, 30, 40]);
    assert!(exceeded);
    let small = vec![snapshot(10, 1), snapshot(20, 10)];
    assert!(!watch(vec![10], &small, &limits(1, 1_000)).1);
    let mut greedy = limits(1, 1_000);
    greedy.memory_bytes = 799;
    assert!(watch(vec![10], &small, &greedy).1);
    let mut busy = small.clone();
    busy[0].user_time = u64::MAX;
    assert!(watch(vec![10], &busy, &limits(1, 1_000)).1);
}

#[test]
fn unix_reports() {
    assert_eq!(unix_backend::report(UnixSystem::Linux).backend, "linux-landlock-seccomp");
    let report = unix_backend::report(UnixSystem::Macos);
    assert_eq!(report.platform, "macos");
    assert_eq!(report.features.get("processLimit"), Some(&FeatureState::Limited));
    assert_eq!(macos_backend::report().backend, "macos-seatbelt-libproc-watchdog");
}
