use agent_sandbox::error::SandboxError;
use agent_sandbox::path::Platform;
use agent_sandbox::policy::{
    ExecutableFacts, FileFacts, HostFacts, MountFacts, ValidatedPolicy, REPARSE_POINT,
};
use agent_sandbox::protocol::{
    BackendPreference, CommandSpec, EnvironmentPolicy, ErrorCategory, ExecutablePolicy,
    ExecutionLimits, ExecutionPolicy, FilesystemLeaseMode, FilesystemLeasePolicy, FilesystemPolicy,
    LogicalPath, MountAccess, MountPolicy, NetworkMode, NetworkPolicy, ResourceLimits,
    SandboxPolicy, ShellChoice,
};
use agent_sandbox::string_map::StringMap;

const NODE_DIGEST: &str = "8fa24749dfde768195b5417d92c739b5447816fc70f8a6df44adc201570b9e2f";

fn policy_for(path: &str) -> SandboxPolicy {
    SandboxPolicy {
        schema_version: 1,
        backend: BackendPreference::Native,
        filesystem: FilesystemPolicy {
            mounts: vec![MountPolicy {
                name: "workspace".into(),
                source: path.into(),
                access: MountAccess::ReadWrite,
            }],
            protected_roots: Vec::new(),
            temp_bytes: 1024 * 1024,
            lease: FilesystemLeasePolicy::default(),
        },
        network: NetworkPolicy::default(),
        environment: EnvironmentPolicy { inherit: Vec::new(), allow_set: vec!["CI".into()] },
        execution: ExecutionPolicy::default(),
        limits: ResourceLimits::default(),
    }
}

fn mount_facts(path: &str) -> MountFacts {
    MountFacts {
        ancestors: vec![
            Some(FileFacts { is_symlink: false, attributes: 0 }),
            None,
            Some(FileFacts { is_symlink: false, attributes: 0x10 }),
        ],
        canonical: Ok(path.into()),
        is_directory: true,
    }
}

fn host_for(path: &str) -> HostFacts {
    HostFacts {
        platform: Platform::Unix,
        protected_roots: Vec::new(),
        mounts: vec![mount_facts(path)],
        executables: Vec::new(),
        environment: StringMap::new(),
        canonical_policy: Ok(b"{}".to_vec()),
    }
}

fn exec(program: &str) -> CommandSpec {
    CommandSpec::Exec { program: program.into(), args: Vec::new() }
}

fn at(mount: &str, path: &str) -> LogicalPath {
    LogicalPath { mount: mount.into(), path: path.into() }
}

fn message(error: &SandboxError) -> String {
    match error {
        SandboxError::InvalidPolicy(text) => text.clone(),
        other => panic!("unexpected family: {other:?}"),
    }
}

fn refused(policy: SandboxPolicy, host: &HostFacts) -> String {
    message(&ValidatedPolicy::new(policy, host).unwrap_err())
}

#[test]
fn execution_cannot_expand_limits_or_escape_cwd() {
    let root = "/tmp";
    let policy = ValidatedPolicy::new(policy_for(root), &host_for(root)).expect("valid policy");
    let expanded = policy.validate_execution(
        CommandSpec::Exec { program: "node".into(), args: Vec::new() },
        LogicalPath { mount: "workspace".into(), path: ".".into() },
        StringMap::new(),
        ExecutionLimits {
            memory_bytes: Some(policy.original.limits.memory_bytes + 1),
            ..ExecutionLimits::default()
        },
    );
    assert!(expanded.is_err());

    let escaped = policy.validate_execution(
        CommandSpec::Exec { program: "node".into(), args: Vec::new() },
        LogicalPath { mount: "workspace".into(), path: "../outside".into() },
        StringMap::new(),
        ExecutionLimits::default(),
    );
    assert!(escaped.is_err());
}

#[test]
fn sensitive_environment_is_rejected() {
    let root = "/tmp";
    let mut input = policy_for(root);
    input.environment.allow_set.push("OPENAI_API_KEY".into());
    assert!(ValidatedPolicy::new(input, &host_for(root)).is_err());
}

#[test]
fn protected_root_cannot_be_mounted() {
    let root = "/tmp";
    let mut input = policy_for(root);
    input.filesystem.protected_roots = vec![root.into()];
    let mut host = host_for(root);
    host.protected_roots = vec![Some(root.into())];
    assert!(ValidatedPolicy::new(input, &host).is_err());
}

#[test]
fn valid_policy_has_a_fingerprint_and_places() {
    let policy = ValidatedPolicy::new(policy_for("/tmp"), &host_for("/tmp")).unwrap();
    assert_eq!(
        policy.fingerprint,
        "sha256:44136fa355b3678a1146ad16f7e8649e94fb4fc21fe77e8310c060f61caaff8a"
    );
    let mounts = policy.logical_mounts();
    assert_eq!(mounts.len(), 1);
    assert_eq!(mounts.get("workspace").map(String::as_str), Some("mount://workspace"));
    assert_eq!(policy.mounts.get("workspace").unwrap().source, "/tmp");
    assert!(policy.allowed_environment.contains_key("CI"));
    assert_eq!(policy.writable_mounts(), vec!["/tmp".to_string()]);
}

#[test]
fn every_policy_check_has_its_message() {
    let mut policy = policy_for("/tmp");
    policy.schema_version = 2;
    assert_eq!(refused(policy, &host_for("/tmp")), "only policy schema version 1 is supported");

    let mut policy = policy_for("/tmp");
    policy.filesystem.temp_bytes = 0;
    assert_eq!(refused(policy, &host_for("/tmp")), "tempBytes is outside the supported range");

    let mut policy = policy_for("/tmp");
    policy.filesystem.temp_bytes = 16 * 1024 * 1024 * 1024 + 1;
    assert_eq!(refused(policy, &host_for("/tmp")), "tempBytes is outside the supported range");

    let mut policy = policy_for("/tmp");
    policy.filesystem.mounts.clear();
    let mut host = host_for("/tmp");
    host.mounts.clear();
    assert_eq!(
        refused(policy, &host),
        "filesystem mounts must contain between 1 and 16 entries"
    );

    let mut policy = policy_for("/tmp");
    policy.filesystem.protected_roots = vec!["relative".into()];
    let mut host = host_for("/tmp");
    host.protected_roots = vec![None];
    assert_eq!(refused(policy, &host), "protected roots must be absolute");

    let mut policy = policy_for("/tmp");
    policy.filesystem.mounts[0].name = "work space".into();
    assert_eq!(
        refused(policy, &host_for("/tmp")),
        "mount names must use 1-64 ASCII letters, digits, '-' or '_'"
    );

    let mut policy = policy_for("/tmp");
    policy.filesystem.mounts.push(policy.filesystem.mounts[0].clone());
    let mut host = host_for("/tmp");
    host.mounts.push(mount_facts("/tmp"));
    assert_eq!(refused(policy, &host), "duplicate mount name: workspace");

    assert_eq!(
        refused(policy_for("tmp"), &host_for("tmp")),
        "mount workspace source must be absolute"
    );

    let mut host = host_for("/tmp");
    host.mounts[0].ancestors.push(Some(FileFacts { is_symlink: true, attributes: 0 }));
    assert_eq!(
        refused(policy_for("/tmp"), &host),
        "mount source contains a symbolic link or reparse point"
    );

    let mut host = host_for("/tmp");
    host.mounts[0].ancestors.push(Some(FileFacts { is_symlink: false, attributes: REPARSE_POINT | 1 }));
    assert_eq!(
        refused(policy_for("/tmp"), &host),
        "mount source contains a symbolic link or reparse point"
    );

    let mut host = host_for("/tmp");
    host.mounts[0].canonical = Err("gone".into());
    assert_eq!(
        refused(policy_for("/tmp"), &host),
        "mount workspace source is unavailable: gone"
    );

    let mut host = host_for("/tmp");
    host.mounts[0].is_directory = false;
    assert_eq!(
        refused(policy_for("/tmp"), &host),
        "mount workspace source must be a directory"
    );

    assert_eq!(
        refused(policy_for("/a,b"), &host_for("/a,b")),
        "mount workspace source contains an unsupported comma"
    );

    let mut policy = policy_for("/tmp/project");
    policy.filesystem.protected_roots = vec!["/link".into()];
    let mut host = host_for("/tmp/project");
    host.protected_roots = vec![Some("/tmp".into())];
    assert_eq!(refused(policy, &host), "mount workspace overlaps a protected root");

    let mut host = host_for("/tmp");
    host.canonical_policy = Err("not serializable".into());
    let error = ValidatedPolicy::new(policy_for("/tmp"), &host).unwrap_err();
    assert_eq!(error, SandboxError::Internal("not serializable".into()));
}

#[test]
fn protected_roots_are_compared_by_component_on_unix() {
    let mut policy = policy_for("/tmp/project");
    policy.filesystem.protected_roots = vec!["/tmp/proj".into()];
    let mut host = host_for("/tmp/project");
    host.protected_roots = vec![None];
    assert!(ValidatedPolicy::new(policy, &host).is_ok());
}

#[test]
fn protected_roots_are_compared_without_case_on_windows() {
    let mut policy = policy_for("C:\\Work\\Project");
    policy.filesystem.protected_roots = vec!["c:\\work".into()];
    let mut host = host_for("C:\\Work\\Project");
    host.platform = Platform::Windows;
    host.protected_roots = vec![None];
    assert_eq!(refused(policy, &host), "mount workspace overlaps a protected root");
}

#[test]
fn environment_is_checked_and_inherited() {
    let mut policy = policy_for("/tmp");
    policy.environment.inherit = vec!["LANG".into(), "HOME".into(), "ABSENT".into()];
    let mut host = host_for("/tmp");
    host.environment.insert("LANG".into(), "C".into());
    host.environment.insert("HOME".into(), "/root".into());
    host.environment.insert("SECRET".into(), "x".into());
    let validated = ValidatedPolicy::new(policy.clone(), &host).unwrap();
    assert_eq!(validated.inherited_environment.len(), 2);
    assert_eq!(validated.inherited_environment.get("LANG").unwrap(), "C");

    host.environment.insert("LANG".into(), "a\0b".into());
    host.environment.insert("HOME".into(), "a\0b".into());
    assert_eq!(
        refused(policy, &host),
        "environment variable HOME is too large or contains NUL"
    );
}

fn declared() -> (SandboxPolicy, HostFacts) {
    let mut policy = policy_for("/work");
    policy.filesystem.mounts.push(MountPolicy {
        name: "tools".into(),
        source: "/opt/tools".into(),
        access: MountAccess::ReadOnly,
    });
    policy.execution.executables = vec![ExecutablePolicy {
        alias: "node".into(),
        path: "/opt/tools/node".into(),
        sha256: NODE_DIGEST.into(),
    }];
    let mut host = host_for("/work");
    host.mounts.push(mount_facts("/opt/tools"));
    host.executables = vec![ExecutableFacts {
        canonical: Ok("/opt/tools/node".into()),
        is_file: true,
        contents: b"node binary".to_vec(),
    }];
    (policy, host)
}

#[test]
fn executables_are_bound_to_their_contents() {
    let (policy, host) = declared();
    let validated = ValidatedPolicy::new(policy, &host).unwrap();
    assert_eq!(validated.resolve_executable("node").unwrap().path, "/opt/tools/node");
    assert_eq!(
        validated.resolve_executable("sh").unwrap_err(),
        SandboxError::Process("program sh is not a declared executable".into())
    );
}

#[test]
fn drive_letters_have_no_case() {
    let declared_on = |file: &str| {
        let (mut policy, mut host) = declared();
        host.platform = Platform::Windows;
        for (mount, root) in [(0, "C:\\work"), (1, "C:\\tools")] {
            policy.filesystem.mounts[mount].source = root.into();
            host.mounts[mount].canonical = Ok(root.into());
        }
        policy.execution.executables[0].path = file.into();
        host.executables[0].canonical = Ok(file.into());
        ValidatedPolicy::new(policy, &host)
    };
    assert!(declared_on("C:\\tools\\node.exe").is_ok());
    assert!(declared_on("c:\\tools\\node.exe").is_ok());
    for file in ["c:\\Tools\\node.exe", "d:\\tools\\node.exe", "\\\\?\\C:\\tools\\node.exe"] {
        assert_eq!(
            declared_on(file).unwrap_err(),
            SandboxError::InvalidPolicy("executable node must be inside a read-only mount".into()),
            "{file}"
        );
    }
}

#[test]
fn fingerprints_are_those_of_the_policy() {
    let (policy, host) = declared();
    let first = ValidatedPolicy::new(policy.clone(), &host).unwrap();
    let (_, mut elsewhere) = declared();
    elsewhere.environment.insert("LANG".into(), "C".into());
    elsewhere.mounts[0].canonical = Ok("/volumes/work".into());
    let second = ValidatedPolicy::new(policy.clone(), &elsewhere).unwrap();
    assert_eq!(first.fingerprint, second.fingerprint);
    let digits = first.fingerprint.strip_prefix("sha256:").unwrap();
    assert_eq!(digits.len(), 64);
    assert!(digits.chars().all(|c| c.is_ascii_digit() || ('a'..='f').contains(&c)));
    elsewhere.canonical_policy = Ok(b"{\"schemaVersion\":1}".to_vec());
    assert_ne!(
        ValidatedPolicy::new(policy, &elsewhere).unwrap().fingerprint,
        first.fingerprint
    );
}

#[test]
fn every_executable_check_has_its_message() {
    let (mut policy, host) = declared();
    policy.execution.executables[0].alias = "bin/node".into();
    assert_eq!(refused(policy, &host), "executable aliases must be bare executable names");

    let (mut policy, mut host) = declared();
    policy.execution.executables.push(policy.execution.executables[0].clone());
    host.executables.push(ExecutableFacts {
        canonical: Ok("/opt/tools/node".into()),
        is_file: true,
        contents: b"node binary".to_vec(),
    });
    assert_eq!(refused(policy, &host), "duplicate executable alias: node");

    let (mut policy, host) = declared();
    policy.execution.executables[0].path = "node".into();
    assert_eq!(refused(policy, &host), "executable node path must be absolute");

    let (policy, mut host) = declared();
    host.executables[0].canonical = Err("missing".into());
    assert_eq!(refused(policy, &host), "executable node is unavailable: missing");

    let (policy, mut host) = declared();
    host.executables[0].is_file = false;
    assert_eq!(refused(policy, &host), "executable node must be a file");

    let (policy, mut host) = declared();
    host.executables[0].canonical = Ok("/work/node".into());
    assert_eq!(refused(policy, &host), "executable node must be inside a read-only mount");

    let (policy, mut host) = declared();
    host.executables[0].contents = b"another binary".to_vec();
    assert_eq!(refused(policy, &host), "executable node does not match its SHA-256 digest");
}

#[test]
fn executions_are_granted_what_they_ask_for() {
    let (mut policy, mut host) = declared();
    policy.environment.inherit = vec!["LANG".into()];
    host.environment.insert("LANG".into(), "C".into());
    let validated = ValidatedPolicy::new(policy, &host).unwrap();
    let mut environment = StringMap::new();
    environment.insert("CI".into(), "1".into());
    let granted = validated
        .validate_execution(
            exec("node"),
            at("workspace", "./a//b/"),
            environment,
            ExecutionLimits { processes: Some(4), ..ExecutionLimits::default() },
        )
        .unwrap();
    assert_eq!(granted.command, exec("node"));
    assert_eq!(granted.workdir, "mount://workspace/a/b");
    assert_eq!(granted.environment.len(), 2);
    assert_eq!(granted.environment.get("CI").unwrap(), "1");
    assert_eq!(granted.environment.get("LANG").unwrap(), "C");
    assert_eq!(granted.limits.processes, 4);
    assert_eq!(granted.limits.wall_time_ms, 600_000);
    let root = validated
        .validate_execution(
            exec("node"),
            at("workspace", "."),
            StringMap::new(),
            ExecutionLimits::default(),
        )
        .unwrap();
    assert_eq!(root.workdir, "mount://workspace");
}

#[test]
fn executions_only_narrow_limits() {
    let (policy, host) = declared();
    let validated = ValidatedPolicy::new(policy, &host).unwrap();
    let limits = validated.original.limits.clone();
    let ask = |asked: ExecutionLimits| {
        validated
            .validate_execution(exec("node"), at("workspace", "."), StringMap::new(), asked)
            .map(|granted| granted.limits)
    };
    let memory = |bytes: u64| ExecutionLimits {
        memory_bytes: Some(bytes),
        ..ExecutionLimits::default()
    };
    assert_eq!(ask(ExecutionLimits::default()).unwrap(), limits);
    assert_eq!(ask(memory(limits.memory_bytes)).unwrap().memory_bytes, limits.memory_bytes);
    assert_eq!(ask(memory(1024)).unwrap().memory_bytes, 1024);
    for bytes in [0, limits.memory_bytes + 1] {
        assert_eq!(
            message(&ask(memory(bytes)).unwrap_err()),
            "execution memory_bytes must be non-zero and cannot exceed the sandbox limit"
        );
    }
    let processes = limits.processes + 1;
    assert_eq!(
        message(
            &ask(ExecutionLimits { processes: Some(processes), ..ExecutionLimits::default() })
                .unwrap_err()
        ),
        "execution processes must be non-zero and cannot exceed the sandbox limit"
    );
}

#[test]
fn every_execution_check_has_its_message() {
    let (policy, host) = declared();
    let validated = ValidatedPolicy::new(policy, &host).unwrap();
    let check = |command: CommandSpec, cwd: LogicalPath, name: &str, value: &str| {
        let mut environment = StringMap::new();
        if !name.is_empty() {
            environment.insert(name.into(), value.into());
        }
        message(
            &validated
                .validate_execution(command, cwd, environment, ExecutionLimits::default())
                .unwrap_err(),
        )
    };
    assert_eq!(
        check(exec("node"), at("other", "."), "", ""),
        "execution cwd references an unknown mount"
    );
    assert_eq!(
        check(exec("node"), at("workspace", "/etc"), "", ""),
        "execution cwd must be relative"
    );
    assert_eq!(
        check(exec("node"), at("workspace", "a/../../b"), "", ""),
        "execution cwd cannot escape its mount"
    );
    assert_eq!(
        check(exec("node"), at("workspace", "a\\..\\..\\b"), "", ""),
        "execution cwd cannot escape its mount"
    );
    for program in ["", "bin/node", "bin\\node", "a\0b"] {
        assert_eq!(
            check(exec(program), at("workspace", "."), "", ""),
            "exec program must be a bare executable name"
        );
    }
    assert_eq!(
        check(exec("python"), at("workspace", "."), "", ""),
        "program python is not a declared executable"
    );
    let nul = CommandSpec::Exec { program: "node".into(), args: vec!["ok".into(), "a\0".into()] };
    assert_eq!(check(nul, at("workspace", "."), "", ""), "exec arguments cannot contain NUL");
    for script in [String::new(), "x".repeat(1024 * 1024 + 1), "a\0b".into()] {
        let shell = CommandSpec::Shell { shell: ShellChoice::Default, script };
        assert_eq!(
            check(shell, at("workspace", "."), "", ""),
            "shell script is empty, too large, or contains NUL"
        );
    }
    assert_eq!(
        check(exec("node"), at("workspace", "."), "PATH", "/bin"),
        "environment variable PATH is not allowed"
    );
    assert_eq!(
        check(exec("node"), at("workspace", "."), "CI", "a\0b"),
        "environment variable CI is too large or contains NUL"
    );
}

#[test]
fn windows_working_directories_cannot_name_a_drive() {
    let mut host = host_for("C:\\work");
    host.platform = Platform::Windows;
    let validated = ValidatedPolicy::new(policy_for("C:\\work"), &host).unwrap();
    for path in ["C:x", "\\x", "..\\x", "a\\..\\..\\b"] {
        let refused = validated.validate_execution(
            CommandSpec::Shell { shell: ShellChoice::Default, script: "dir".into() },
            at("workspace", path),
            StringMap::new(),
            ExecutionLimits::default(),
        );
        assert!(refused.is_err(), "{path}");
    }
    let granted = validated
        .validate_execution(
            CommandSpec::Shell { shell: ShellChoice::Default, script: "dir".into() },
            at("workspace", "src\\lib"),
            StringMap::new(),
            ExecutionLimits::default(),
        )
        .unwrap();
    assert_eq!(granted.workdir, "mount://workspace/src/lib");
}

#[test]
fn policy_defaults_are_restrictive() {
    let policy = SandboxPolicy {
        schema_version: 1,
        backend: BackendPreference::default(),
        filesystem: FilesystemPolicy::default(),
        network: NetworkPolicy::default(),
        environment: EnvironmentPolicy::default(),
        execution: ExecutionPolicy::default(),
        limits: ResourceLimits::default(),
    };
    assert!(policy.filesystem.mounts.is_empty());
    assert_eq!(policy.backend, BackendPreference::Auto);
    assert_eq!(policy.network.mode, NetworkMode::Deny);
    assert!(policy.environment.inherit.is_empty());
    assert!(policy.environment.allow_set.is_empty());
}

#[test]
fn parts_of_a_policy_have_defaults() {
    assert_eq!(FilesystemLeasePolicy::default().mode, FilesystemLeaseMode::Ephemeral);
    assert!(ExecutionPolicy::default().executables.is_empty());
    assert_eq!(FilesystemPolicy::default().temp_bytes, 2 * 1024 * 1024 * 1024);
    assert_eq!(
        ResourceLimits::default(),
        ResourceLimits {
            wall_time_ms: 600_000,
            cpu_time_ms: 480_000,
            memory_bytes: 2 * 1024 * 1024 * 1024,
            processes: 128,
            output_bytes: 50 * 1024 * 1024,
        }
    );
}

#[test]
fn errors_have_stable_codes() {
    let families = [
        (SandboxError::InvalidPolicy("m".into()), "SANDBOX_POLICY_INVALID", ErrorCategory::PolicyViolation),
        (SandboxError::CapabilityUnavailable("m".into()), "SANDBOX_CAPABILITY_UNAVAILABLE", ErrorCategory::Capability),
        (SandboxError::BackendUnavailable("m".into()), "SANDBOX_BACKEND_UNAVAILABLE", ErrorCategory::Capability),
        (SandboxError::Process("m".into()), "SANDBOX_PROCESS_FAILED", ErrorCategory::Process),
        (SandboxError::Protocol("m".into()), "SANDBOX_PROTOCOL_ERROR", ErrorCategory::Protocol),
        (SandboxError::Internal("m".into()), "SANDBOX_INTERNAL_ERROR", ErrorCategory::Internal),
    ];
    for (error, code, category) in families {
        let told = error.protocol_error();
        assert_eq!(error.code(), code);
        assert_eq!(told.code, code);
        assert_eq!(told.category, category);
        assert!(told.details.len() == 0);
        assert_eq!(told.message, error.message());
        assert_eq!(
            told.retryable,
            code == "SANDBOX_BACKEND_UNAVAILABLE" || code == "SANDBOX_PROCESS_FAILED"
        );
    }
}

#[test]
fn errors_say_what_failed() {
    assert_eq!(
        SandboxError::Protocol("bad line".into()).message(),
        "protocol error: bad line"
    );
    assert_eq!(
        SandboxError::Internal("lost".into()).message(),
        "internal sandbox error: lost"
    );
}
