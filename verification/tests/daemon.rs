use agent_sandbox::authorization::AuthorizationSpec;
use agent_sandbox::closing::{shutdown_outcome, ClosingAction, ClosingOutcome, ClosingStage};
use agent_sandbox::daemon::{
    cancel_reason, close_outcome, drain_step, revocation_outcome, CancelReason, Daemon,
    DaemonAction, DrainStep, ExecutionOutcome,
};
use agent_sandbox::digest::{decode_base64, digest_text, encode_base64, fingerprint};
use agent_sandbox::environment::{
    sensitive_environment_name, validate_environment_keys, validate_environment_value,
};
use agent_sandbox::error::SandboxError;
use agent_sandbox::execution::{Run, RunInput, RunStage};
use agent_sandbox::identifier::{new_sandbox_id, validate_identifier};
use agent_sandbox::native::{NativeBackend, PlaceFacts, PreparedSandbox, ProfileSpec};
use agent_sandbox::output::{OutputProgress, OutputStep};
use agent_sandbox::path::Platform;
use agent_sandbox::policy::{FileFacts, HostFacts, MountFacts, ValidatedPolicy};
use agent_sandbox::protocol::{
    BackendPreference, ClientInfo, ClientMessage, CommandSpec, EnforcementStatus,
    EnvironmentPolicy, ExecutionLimits, ExecutionPolicy, FeatureState, FilesystemLeaseMode,
    FilesystemPolicy, LogicalPath, MountAccess, MountPolicy, NetworkPolicy, OutputStream,
    ProtocolVersion, ResourceLimits, SandboxMetadata, SandboxPolicy, ServerMessage, ShellChoice,
    SignalKind, StdinMode,
};
use agent_sandbox::session::{
    greet, invalid_message, is_parent_pid, read_control_line, Greeting, SessionEnd, SessionInput,
    SessionStage,
};
use agent_sandbox::string_map::StringMap;
use agent_sandbox::windows_backend::PreparedWindowsSandbox;

fn windows() -> NativeBackend {
    NativeBackend::discover(Platform::Windows, "windows", true, Ok(())).unwrap()
}

fn sandbox_policy() -> SandboxPolicy {
    SandboxPolicy {
        schema_version: 1,
        backend: BackendPreference::Native,
        filesystem: FilesystemPolicy {
            mounts: vec![MountPolicy {
                name: "workspace".into(),
                source: "C:\\work".into(),
                access: MountAccess::ReadWrite,
            }],
            ..FilesystemPolicy::default()
        },
        network: NetworkPolicy::default(),
        environment: EnvironmentPolicy { inherit: Vec::new(), allow_set: vec!["CI".into()] },
        execution: ExecutionPolicy::default(),
        limits: ResourceLimits::default(),
    }
}

fn host() -> HostFacts {
    HostFacts {
        platform: Platform::Windows,
        protected_roots: Vec::new(),
        mounts: vec![MountFacts {
            ancestors: vec![Some(FileFacts { is_symlink: false, attributes: 0x10 })],
            canonical: Ok("\\\\?\\C:\\work".into()),
            is_directory: true,
        }],
        executables: Vec::new(),
        environment: StringMap::new(),
        canonical_policy: Ok(b"{}".to_vec()),
    }
}

fn container() -> PreparedWindowsSandbox {
    PreparedWindowsSandbox {
        profile_name: "agent.sandbox.abc".into(),
        sid: "S-1-15-2-1".into(),
        journal: Some("C:\\s\\abc.json".into()),
        mounts: vec!["\\\\?\\C:\\work".into()],
        acl_strategy: 1,
    }
}

fn grant() -> AuthorizationSpec {
    AuthorizationSpec { tenant_id: "tenant".into(), authorization_id: "grant".into() }
}

fn prepared() -> PreparedSandbox {
    let policy = ValidatedPolicy::new(sandbox_policy(), &host()).unwrap();
    let profile = ProfileSpec::trusted("system-minimal").unwrap();
    windows().prepare("abc", policy, profile, &grant(), container()).unwrap()
}

fn daemon() -> Daemon {
    let mut daemon = Daemon::new(Ok(windows()), "windows");
    let event = daemon.create_sandbox("r0".into(), "box".into(), "tenant", "grant", prepared());
    assert!(matches!(event, ServerMessage::SandboxCreated { .. }));
    daemon
}

fn shell() -> CommandSpec {
    CommandSpec::Shell { shell: ShellChoice::Default, script: "dir".into() }
}

fn spawn(sandbox: &str, execution: &str) -> ClientMessage {
    ClientMessage::Spawn {
        request_id: "r".into(),
        sandbox_id: sandbox.into(),
        execution_id: execution.into(),
        command: shell(),
        cwd: LogicalPath { mount: "workspace".into(), path: ".".into() },
        env: StringMap::new(),
        stdin: StdinMode::Pipe,
        limits: ExecutionLimits::default(),
    }
}

fn stdin(sequence: u64, text: &str) -> ClientMessage {
    ClientMessage::Stdin { execution_id: "x".into(), sequence, base64: text.into() }
}

fn complaint(action: DaemonAction) -> String {
    match action {
        DaemonAction::Reply(ServerMessage::Error { error, .. }) => error.message,
        other => panic!("no error: {other:?}"),
    }
}

#[test]
fn digests_and_base64() {
    assert_eq!(
        digest_text(b"abc"),
        "ba7816bf8f01cfea414140de5dae2223b00361a396177a9cb410ff61f20015ad"
    );
    assert_eq!(
        fingerprint(b"abc"),
        "sha256:ba7816bf8f01cfea414140de5dae2223b00361a396177a9cb410ff61f20015ad"
    );
    assert_eq!(encode_base64(b"hello"), "aGVsbG8=");
    assert_eq!(decode_base64("aGVsbG8="), Some(b"hello".to_vec()));
    assert_eq!(decode_base64("aGVsbG8"), None);
    assert_eq!(decode_base64("***"), None);
}

#[test]
fn random_identifiers_have_their_form() {
    let id = new_sandbox_id();
    assert_eq!(id.len(), 36);
    for (i, c) in id.chars().enumerate() {
        if [8, 13, 18, 23].contains(&i) {
            assert_eq!(c, '-');
        } else {
            assert!(c.is_ascii_digit() || ('a'..='f').contains(&c));
        }
    }
    assert_eq!(id.as_bytes()[14], b'4');
    assert!(b"89ab".contains(&id.as_bytes()[19]));
    assert_ne!(id, new_sandbox_id());
}

#[test]
fn identifiers_are_bounded_lines() {
    assert!(validate_identifier("tenantId", "a").is_ok());
    assert!(validate_identifier("tenantId", &"a".repeat(256)).is_ok());
    for bad in ["", "a\nb", "a\rb", "a\0b", &"a".repeat(257)] {
        assert_eq!(
            validate_identifier("tenantId", bad).unwrap_err(),
            SandboxError::Protocol("invalid tenantId".into())
        );
    }
}

#[test]
fn sensitive_names_are_found() {
    for name in
        ["OPENAI_API_KEY", "MY_API_KEY", "DB_PASSWORD", "PASSWD", "GITHUB_TOKEN", "DYLD_X", "ENV"]
    {
        assert!(sensitive_environment_name(name), "{name}");
    }
    for name in ["CI", "LANG", "TOKENS", "PATH", "KEYS", "MYKEY"] {
        assert!(!sensitive_environment_name(name), "{name}");
    }
    let names = validate_environment_keys(&vec!["CI".into(), "CI".into(), "LANG".into()]).unwrap();
    assert_eq!(names.len(), 2);
    assert!(validate_environment_keys(&vec!["A-B".into()]).is_err());
    assert!(validate_environment_keys(&vec!["A".into(); 129]).is_err());
    assert!(validate_environment_value("A", &"x".repeat(64 * 1024)).is_ok());
    assert!(validate_environment_value("A", &"x".repeat(64 * 1024 + 1)).is_err());
}

#[test]
fn profiles_are_reserved_names() {
    for id in ["system-minimal", "node-default", "python-default", "rust-default"] {
        assert_eq!(ProfileSpec::trusted(id).unwrap().id, id);
    }
    assert_eq!(
        ProfileSpec::trusted("root").unwrap_err(),
        SandboxError::InvalidPolicy("unknown trusted profile: root".into())
    );
}

#[test]
fn hosts_without_a_backend_fail_closed() {
    let error = NativeBackend::discover(Platform::Unix, "linux", true, Ok(())).unwrap_err();
    assert_eq!(
        error,
        SandboxError::BackendUnavailable(
            "the native backend for linux is not implemented in this build".into()
        )
    );
    assert!(NativeBackend::discover(Platform::Windows, "windows", false, Ok(())).is_err());
    let stuck = SandboxError::BackendUnavailable("stuck".into());
    assert_eq!(
        NativeBackend::discover(Platform::Windows, "windows", true, Err(stuck.clone())).unwrap_err(),
        stuck
    );
    let mut daemon = Daemon::new(Err(error), "linux");
    assert_eq!(daemon.report.status, EnforcementStatus::Unavailable);
    assert_eq!(daemon.report.platform, "linux");
    assert_eq!(daemon.report.features.len(), 8);
    assert_eq!(daemon.report.features.get("networkDeny"), Some(&FeatureState::Unavailable));
    let refused = daemon.receive(ClientMessage::CreateSandbox {
        request_id: "r".into(),
        tenant_id: "t".into(),
        profile: "system-minimal".into(),
        authorization_id: "a".into(),
        policy: sandbox_policy(),
        metadata: SandboxMetadata::default(),
    });
    assert!(complaint(refused).contains("is not implemented in this build"));
    assert!(complaint(daemon.receive(spawn("box", "x"))).contains("isolation backend is unavailable"));
}

#[test]
fn sandboxes_are_created_with_a_fingerprint() {
    let ready = prepared();
    assert_eq!(
        ready.fingerprint,
        "sha256:4940a8751a74dadfb6e30a106479e2ebd01e206f29949e5ddab5a15d500362a2"
    );
    let mut daemon = Daemon::new(Ok(windows()), "windows");
    let event = daemon.create_sandbox("r".into(), "box".into(), "tenant", "grant", ready.clone());
    match event {
        ServerMessage::SandboxCreated {
            request_id,
            sandbox_id,
            status,
            mounts,
            policy_fingerprint,
            capabilities,
        } => {
            assert_eq!(request_id, "r");
            assert_eq!(sandbox_id, "box");
            assert_eq!(status, EnforcementStatus::Limited);
            assert_eq!(mounts.get("workspace").unwrap(), "mount://workspace");
            let text = format!("{}tenantgrant", ready.fingerprint);
            assert_eq!(policy_fingerprint, fingerprint(text.as_bytes()));
            assert_eq!(capabilities, ready.report);
        }
        other => panic!("{other:?}"),
    }
    assert!(daemon.sandboxes.contains_key("box"));
}

#[test]
fn requests_for_sandboxes_are_validated() {
    let daemon = Daemon::new(Ok(windows()), "windows");
    let begin = |tenant: &str, profile: &str, policy: SandboxPolicy| {
        daemon.begin_sandbox(tenant, profile, "grant", policy, &host())
    };
    assert!(begin("t", "system-minimal", sandbox_policy()).is_ok());
    assert_eq!(
        begin("", "system-minimal", sandbox_policy()).unwrap_err(),
        SandboxError::Protocol("invalid tenantId".into())
    );
    assert!(matches!(
        begin("t", "other", sandbox_policy()).unwrap_err(),
        SandboxError::InvalidPolicy(_)
    ));
    let mut old = sandbox_policy();
    old.schema_version = 0;
    assert!(begin("t", "system-minimal", old).is_err());
}

fn persistent_policy() -> ValidatedPolicy {
    let mut policy = sandbox_policy();
    policy.filesystem.lease.mode = FilesystemLeaseMode::Persistent;
    ValidatedPolicy::new(policy, &host()).unwrap()
}

fn stable_container() -> PreparedWindowsSandbox {
    PreparedWindowsSandbox {
        profile_name: "agent.sandbox.036e8e87bb5e5c67cf8f38b3d70f74d9d13d753614fe775e".into(),
        journal: None,
        mounts: Vec::new(),
        ..container()
    }
}

#[test]
fn every_lease_is_prepared_as_a_container() {
    let prepare = |id: &str, policy: &ValidatedPolicy, platform: PreparedWindowsSandbox| {
        let profile = ProfileSpec::trusted("system-minimal").unwrap();
        windows().prepare(id, policy.clone(), profile, &grant(), platform)
    };
    let leased = ValidatedPolicy::new(sandbox_policy(), &host()).unwrap();
    let kept = persistent_policy();
    assert!(windows().check_backend(&leased).is_ok());
    assert!(windows().check_backend(&kept).is_ok());
    for prepared in [
        prepare("abc", &leased, container()).unwrap(),
        prepare("abc", &kept, stable_container()).unwrap(),
        prepare("xyz", &kept, stable_container()).unwrap(),
    ] {
        assert_eq!(prepared.report, windows().report());
        assert_eq!(prepared.report.backend, "windows-appcontainer");
    }
    let other =
        SandboxError::Internal("the sandbox was not prepared with its policy's lease".into());
    let unjournaled = PreparedWindowsSandbox { journal: None, ..container() };
    let journaled = PreparedWindowsSandbox { journal: container().journal, ..stable_container() };
    for (id, policy, platform) in [
        ("abc", &leased, stable_container()),
        ("abc", &leased, unjournaled),
        ("xyz", &leased, container()),
        ("abc", &kept, container()),
        ("abc", &kept, journaled),
    ] {
        assert_eq!(prepare(id, policy, platform).unwrap_err(), other);
    }
    let linux = NativeBackend { platform: Platform::Unix, os: "linux".into() };
    let refused = SandboxError::BackendUnavailable("native backend unavailable".into());
    assert_eq!(linux.check_backend(&kept).unwrap_err(), refused);
    let profile = ProfileSpec::trusted("system-minimal").unwrap();
    assert_eq!(
        linux.prepare("abc", kept, profile, &grant(), stable_container()).unwrap_err(),
        refused
    );
}

#[test]
fn persistent_sandboxes_run_shells_with_input() {
    let profile = ProfileSpec::trusted("system-minimal").unwrap();
    let sandbox = windows()
        .prepare("abc", persistent_policy(), profile, &grant(), stable_container())
        .unwrap();
    let run = sandbox
        .policy
        .validate_execution(
            shell(),
            LogicalPath { mount: "workspace".into(), path: ".".into() },
            StringMap::new(),
            ExecutionLimits::default(),
        )
        .unwrap();
    let place = PlaceFacts { canonical: Ok("\\\\?\\C:\\work".into()), is_directory: true };
    let launch = windows().spawn(&sandbox, &run, &place, &StringMap::new()).unwrap();
    assert_eq!(launch.command_line, "/D /S /C dir");
    assert!(windows().cleanup(&sandbox).is_empty());
}

#[test]
fn spawn_and_cleanup_plans() {
    let sandbox = prepared();
    let run = sandbox
        .policy
        .validate_execution(
            shell(),
            LogicalPath { mount: "workspace".into(), path: "src".into() },
            StringMap::new(),
            ExecutionLimits::default(),
        )
        .unwrap();
    let place = PlaceFacts { canonical: Ok("\\\\?\\C:\\work\\src".into()), is_directory: true };
    let launch = windows().spawn(&sandbox, &run, &place, &StringMap::new()).unwrap();
    assert_eq!(launch.cwd, "C:\\work\\src");
    assert_eq!(launch.command_line, "/D /S /C dir");
    let away = PlaceFacts { canonical: Ok("\\\\?\\C:\\other".into()), is_directory: true };
    assert!(windows().spawn(&sandbox, &run, &away, &StringMap::new()).is_err());
    assert_eq!(windows().cleanup(&sandbox).len(), 3);
    let linux = NativeBackend { platform: Platform::Unix, os: "linux".into() };
    assert!(linux.spawn(&sandbox, &run, &place, &StringMap::new()).is_err());
    assert!(linux.cleanup(&sandbox).is_empty());
}

#[test]
fn executions_are_queued_once() {
    let mut daemon = daemon();
    match daemon.receive(spawn("box", "x")) {
        DaemonAction::Run { event, execution_id, execution, stdin, .. } => {
            assert_eq!(
                event,
                ServerMessage::Queued { request_id: "r".into(), execution_id: "x".into(), position: 0 }
            );
            assert_eq!(execution_id, "x");
            assert_eq!(execution.workdir, "mount://workspace");
            assert_eq!(stdin, StdinMode::Pipe);
        }
        other => panic!("{other:?}"),
    }
    assert_eq!(complaint(daemon.receive(spawn("box", "x"))), "protocol error: duplicate execution ID");
    assert_eq!(
        complaint(daemon.receive(spawn("none", "y"))),
        "protocol error: unknown or closed sandbox ID"
    );
    assert_eq!(complaint(daemon.receive(spawn("box", ""))), "protocol error: invalid executionId");
    let mut bad = spawn("box", "z");
    if let ClientMessage::Spawn { cwd, .. } = &mut bad {
        cwd.path = "..".into();
    }
    assert!(complaint(daemon.receive(bad)).contains("cannot escape its mount"));
    assert_eq!(daemon.executions.len(), 1);
}

#[test]
fn input_is_taken_in_order() {
    let mut daemon = daemon();
    daemon.receive(spawn("box", "x"));
    let text = encode_base64(b"one");
    assert_eq!(
        complaint(daemon.receive(stdin(1, &text))),
        "protocol error: execution stdin is closed"
    );
    let started = daemon.execution_started(
        "x".into(),
        StdinMode::Pipe,
        EnforcementStatus::Limited,
        Ok(true),
    );
    assert_eq!(
        started,
        ServerMessage::Started { execution_id: "x".into(), status: EnforcementStatus::Limited }
    );
    assert!(matches!(daemon.receive(stdin(1, &text)), DaemonAction::Write { bytes, .. } if bytes == b"one"));
    assert!(daemon.stdin_written(&"x".into(), Ok(())).is_none());
    assert_eq!(
        complaint(daemon.receive(stdin(1, &text))),
        "protocol error: stdin sequence mismatch: expected 2"
    );
    assert!(matches!(daemon.receive(stdin(2, &text)), DaemonAction::Write { .. }));
    let failed = daemon.stdin_written(&"x".into(), Err("broken pipe".into())).unwrap();
    match failed {
        ServerMessage::Error { error, .. } => {
            assert!(error.message.ends_with("failed to write stdin: broken pipe"))
        }
        other => panic!("{other:?}"),
    }
    assert_eq!(
        complaint(daemon.receive(stdin(2, "%"))),
        "protocol error: invalid or oversized stdin chunk"
    );
    let big = encode_base64(&vec![0; 64 * 1024 + 1]);
    assert_eq!(
        complaint(daemon.receive(stdin(2, &big))),
        "protocol error: invalid or oversized stdin chunk"
    );
    let close = ClientMessage::CloseStdin { execution_id: "x".into() };
    assert!(matches!(daemon.receive(close.clone()), DaemonAction::CloseInput { .. }));
    assert!(matches!(daemon.receive(close), DaemonAction::Ignore));
    let unknown = ClientMessage::Stdin { execution_id: "y".into(), sequence: 1, base64: text };
    assert_eq!(complaint(daemon.receive(unknown)), "protocol error: unknown execution ID");
}

#[test]
fn endings_are_reported() {
    let mut daemon = daemon();
    daemon.receive(spawn("box", "x"));
    let fine = daemon.execution_ended(&"x".into(), ExecutionOutcome::Status(Ok(3)));
    assert_eq!((fine.code, fine.signal, fine.terminate), (Some(3), None, false));
    let lost = daemon.execution_ended(
        &"x".into(),
        ExecutionOutcome::Status(Err(SandboxError::Process("gone".into()))),
    );
    assert_eq!(lost.signal.as_deref(), Some("wait-failed"));
    assert!(lost.event.is_some());
    let stopped =
        daemon.execution_ended(&"x".into(), ExecutionOutcome::Cancelled(CancelReason::Timeout));
    assert!(stopped.terminate);
    assert_eq!(stopped.signal.as_deref(), Some("timeout"));
    match daemon.execution_exited("x".into(), None, stopped.signal, 17) {
        ServerMessage::Exit { execution_id, code, signal, usage } => {
            assert_eq!(execution_id, "x");
            assert_eq!(code, None);
            assert_eq!(signal.as_deref(), Some("timeout"));
            assert_eq!(usage.get("outputBytes"), Some(&17));
        }
        other => panic!("{other:?}"),
    }
    assert!(daemon.is_idle());
    daemon.receive(spawn("box", "y"));
    let failed = daemon.execution_started(
        "y".into(),
        StdinMode::Closed,
        EnforcementStatus::Limited,
        Err(SandboxError::Process("no exe".into())),
    );
    assert!(matches!(failed, ServerMessage::Error { .. }));
    assert!(daemon.is_idle());
}

#[test]
fn reasons_have_names() {
    let names: Vec<&str> = [
        CancelReason::Terminate,
        CancelReason::Kill,
        CancelReason::Timeout,
        CancelReason::OutputLimit,
        CancelReason::SandboxClosed,
        CancelReason::ClientClosed,
    ]
    .iter()
    .map(|reason| reason.signal())
    .collect();
    assert_eq!(
        names,
        ["terminate", "kill", "timeout", "output-limit", "sandbox-closed", "client-closed"]
    );
    assert_eq!(cancel_reason(true, Some(CancelReason::Kill)), CancelReason::Kill);
    assert_eq!(cancel_reason(true, None), CancelReason::ClientClosed);
    assert_eq!(cancel_reason(false, Some(CancelReason::Kill)), CancelReason::ClientClosed);
}

#[test]
fn signals_stop_executions() {
    let mut daemon = daemon();
    daemon.receive(spawn("box", "x"));
    let signal = |id: &str| ClientMessage::Signal { execution_id: id.into(), signal: SignalKind::Kill };
    assert!(matches!(
        daemon.receive(signal("x")),
        DaemonAction::Stop { reason: CancelReason::Kill, .. }
    ));
    assert_eq!(daemon.executions.get("x").unwrap().cancel, Some(CancelReason::Kill));
    assert!(matches!(daemon.receive(signal("y")), DaemonAction::Ignore));
}

#[test]
fn closing_a_sandbox_stops_its_executions() {
    let mut daemon = daemon();
    daemon.create_sandbox("r".into(), "other".into(), "tenant", "grant", prepared());
    daemon.receive(spawn("box", "x"));
    daemon.receive(spawn("other", "y"));
    let close = ClientMessage::CloseSandbox { request_id: "c".into(), sandbox_id: "box".into() };
    match daemon.receive(close.clone()) {
        DaemonAction::Close { closing, .. } => assert_eq!(closing.cancelled, ["x"]),
        other => panic!("{other:?}"),
    }
    assert_eq!(daemon.executions.get("x").unwrap().cancel, Some(CancelReason::SandboxClosed));
    assert_eq!(daemon.executions.get("y").unwrap().cancel, None);
    assert!(!daemon.sandbox_is_idle("box"));
    daemon.execution_exited("x".into(), None, None, 0);
    assert!(daemon.sandbox_is_idle("box"));
    assert_eq!(
        complaint(daemon.receive(close)),
        "protocol error: unknown or already closed sandbox ID"
    );
    assert_eq!(
        complaint(daemon.receive(spawn("box", "z"))),
        "protocol error: unknown or closed sandbox ID"
    );
}

#[test]
fn closing_is_reported() {
    assert_eq!(
        close_outcome("r".into(), "box".into(), true, Ok(())),
        ServerMessage::SandboxClosed { request_id: "r".into(), sandbox_id: "box".into() }
    );
    for (idle, cleanup) in [(false, Ok(())), (true, Err(SandboxError::Internal("x".into())))] {
        assert!(matches!(
            close_outcome("r".into(), "box".into(), idle, cleanup),
            ServerMessage::Error { .. }
        ));
    }
    assert_eq!(drain_step(0, false, false), DrainStep::Wait);
    assert_eq!(drain_step(99, true, false), DrainStep::Idle);
    assert_eq!(drain_step(100, true, false), DrainStep::GiveUp);
    assert_eq!(drain_step(100, true, true), DrainStep::Idle);
}

#[test]
fn shutdown_stops_everything() {
    let mut daemon = daemon();
    daemon.receive(spawn("box", "x"));
    daemon.receive(spawn("box", "y"));
    match daemon.receive(ClientMessage::Shutdown { request_id: "s".into() }) {
        DaemonAction::Shutdown { request_id, closedown } => {
            assert_eq!(request_id.as_deref(), Some("s"));
            assert_eq!(closedown.records.len(), 1);
            assert_eq!(closedown.records[0].0, "box");
            assert_eq!(closedown.cancelled, ["x", "y"]);
        }
        other => panic!("{other:?}"),
    }
    assert_eq!(daemon.sandboxes.len(), 0);
    assert!(!daemon.is_idle());
    daemon.execution_exited("x".into(), None, None, 0);
    daemon.execution_exited("y".into(), None, None, 0);
    assert!(daemon.is_idle());
}

fn told(run: &mut Run, daemon: &mut Daemon, input: RunInput) -> Option<ServerMessage> {
    run.advance(daemon, input).event
}

fn output(text: &str) -> RunInput {
    RunInput::Output { stream: OutputStream::Stdout, chunk: text.as_bytes().to_vec() }
}

#[test]
fn executions_are_told_in_order() {
    let mut daemon = daemon();
    daemon.receive(spawn("box", "x"));
    let mut run = Run::start("x".into(), StdinMode::Pipe, EnforcementStatus::Limited, 5);
    assert_eq!(told(&mut run, &mut daemon, output("early")), None);
    assert!(matches!(
        told(&mut run, &mut daemon, RunInput::Spawned(Ok(true))),
        Some(ServerMessage::Started { .. })
    ));
    assert_eq!(told(&mut run, &mut daemon, RunInput::Spawned(Ok(true))), None);
    assert!(matches!(
        told(&mut run, &mut daemon, output("ab")),
        Some(ServerMessage::Output { sequence: 1, .. })
    ));
    let step = run.advance(&mut daemon, RunInput::Outcome(ExecutionOutcome::Status(Ok(0))));
    assert!(step.event.is_none() && !step.terminate);
    assert_eq!(run.stage, RunStage::Draining { code: Some(0), signal: None });
    assert!(matches!(
        told(&mut run, &mut daemon, output("cd")),
        Some(ServerMessage::Output { sequence: 2, .. })
    ));
    let step = run.advance(&mut daemon, output("ef"));
    assert!(step.event.is_none());
    assert_eq!(step.cancel, Some(CancelReason::OutputLimit));
    assert_eq!(told(&mut run, &mut daemon, output("")), None);
    assert!(!daemon.is_idle());
    match told(&mut run, &mut daemon, RunInput::OutputEnded) {
        Some(ServerMessage::Exit { code, signal, usage, .. }) => {
            assert_eq!((code, signal), (Some(0), None));
            assert_eq!(usage.get("outputBytes"), Some(&5));
        }
        other => panic!("{other:?}"),
    }
    assert!(daemon.is_idle());
    assert_eq!(run.stage, RunStage::Over);
    assert_eq!(told(&mut run, &mut daemon, RunInput::OutputEnded), None);
    assert_eq!(told(&mut run, &mut daemon, output("late")), None);
}

#[test]
fn executions_that_do_not_start_are_over() {
    let mut daemon = daemon();
    daemon.receive(spawn("box", "x"));
    let mut run = Run::start("x".into(), StdinMode::Closed, EnforcementStatus::Limited, 5);
    let failed = RunInput::Spawned(Err(SandboxError::Process("no exe".into())));
    assert!(matches!(
        told(&mut run, &mut daemon, failed),
        Some(ServerMessage::Error { .. })
    ));
    assert_eq!(run.stage, RunStage::Over);
    assert!(daemon.is_idle());
    let stop = RunInput::Outcome(ExecutionOutcome::Cancelled(CancelReason::Kill));
    assert_eq!(told(&mut run, &mut daemon, stop), None);
}

#[test]
fn executions_are_stopped_when_nobody_listens() {
    let mut daemon = daemon();
    daemon.receive(spawn("box", "x"));
    let mut run = Run::start("x".into(), StdinMode::Closed, EnforcementStatus::Limited, 5);
    run.advance(&mut daemon, RunInput::Spawned(Ok(false)));
    run.advance(&mut daemon, output("a"));
    let step = run.advance(&mut daemon, RunInput::Undelivered);
    assert_eq!(step.cancel, Some(CancelReason::ClientClosed));
    let stop = RunInput::Outcome(ExecutionOutcome::Cancelled(CancelReason::ClientClosed));
    assert!(run.advance(&mut daemon, stop).terminate);
    match told(&mut run, &mut daemon, RunInput::OutputEnded) {
        Some(ServerMessage::Exit { code, signal, usage, .. }) => {
            assert_eq!((code, signal.as_deref()), (None, Some("client-closed")));
            assert_eq!(usage.get("outputBytes"), Some(&1));
        }
        other => panic!("{other:?}"),
    }
}

#[test]
fn sandboxes_are_undone_after_their_executions() {
    let mut stage = ClosingStage::start();
    assert_eq!(stage.action(), ClosingAction::Look);
    stage = stage.advance(ClosingOutcome::CleanedUp(Ok(())), 1, false);
    assert_eq!(stage.action(), ClosingAction::Look);
    stage = stage.advance(ClosingOutcome::Looked(false), 1, false);
    assert_eq!(stage.action(), ClosingAction::Wait);
    stage = stage.advance(ClosingOutcome::Waited, 1, false);
    stage = stage.advance(ClosingOutcome::Looked(true), 1, false);
    assert_eq!(stage.action(), ClosingAction::CleanUp(0));
    stage = stage.advance(ClosingOutcome::CleanedUp(Ok(())), 1, false);
    assert!(matches!(stage, ClosingStage::Closed { idle: true, cleanup: Ok(()) }));
}

#[test]
fn closing_gives_up_after_a_while() {
    for whole in [false, true] {
        let mut stage = ClosingStage::start();
        for _ in 0..100 {
            stage = stage.advance(ClosingOutcome::Looked(false), 1, whole);
            stage = stage.advance(ClosingOutcome::Waited, 1, whole);
        }
        stage = stage.advance(ClosingOutcome::Looked(true), 1, whole);
        if whole {
            assert_eq!(stage.action(), ClosingAction::CleanUp(0));
        } else {
            assert!(matches!(stage, ClosingStage::Closed { idle: false, cleanup: Ok(()) }));
            assert_eq!(stage.action(), ClosingAction::Finish);
        }
    }
}

#[test]
fn failures_to_undo_end_a_close_and_not_a_shutdown() {
    let failed = || ClosingOutcome::CleanedUp(Err(SandboxError::Internal("x".into())));
    let idle = || ClosingStage::start().advance(ClosingOutcome::Looked(true), 2, true);
    let one = idle().advance(failed(), 2, false);
    assert!(matches!(one, ClosingStage::Closed { idle: true, cleanup: Err(_) }));
    let all = idle().advance(failed(), 2, true);
    assert_eq!(all.action(), ClosingAction::CleanUp(1));
    let all = all.advance(failed(), 2, true);
    assert!(matches!(all, ClosingStage::Closed { idle: true, cleanup: Ok(()) }));
    assert_eq!(
        shutdown_outcome(Some("s".into())),
        Some(ServerMessage::ShutdownAck { request_id: "s".into() })
    );
    assert_eq!(shutdown_outcome(None), None);
}

fn greeting(major: u16) -> SessionInput {
    SessionInput::Message(ClientMessage::Hello {
        protocol: ProtocolVersion { major, minor: 2 },
        client: ClientInfo { name: "c".into(), version: "1".into() },
        nonce: "n".into(),
    })
}

fn turn(
    stage: SessionStage,
    daemon: &mut Daemon,
    input: SessionInput,
) -> (SessionStage, DaemonAction) {
    stage.take(daemon, input, "0.1.0", "windows")
}

#[test]
fn sessions_serve_until_their_end() {
    let mut daemon = daemon();
    let (stage, action) = turn(SessionStage::Greeting, &mut daemon, greeting(1));
    assert!(matches!(
        action,
        DaemonAction::Reply(ServerMessage::HelloAck { nonce, .. }) if nonce == "n"
    ));
    let (stage, action) = turn(stage, &mut daemon, SessionInput::NotMessage("eof".into()));
    assert_eq!(complaint(action), "invalid control message: eof");
    let (stage, action) = turn(stage, &mut daemon, greeting(1));
    assert_eq!(complaint(action), "protocol error: hello cannot be repeated");
    let (stage, action) = turn(stage, &mut daemon, SessionInput::Message(spawn("box", "x")));
    assert!(matches!(action, DaemonAction::Run { .. }));
    let shutdown = ClientMessage::Shutdown { request_id: "s".into() };
    let (stage, action) = turn(stage, &mut daemon, SessionInput::Message(shutdown));
    match action {
        DaemonAction::Shutdown { request_id, .. } => assert_eq!(
            shutdown_outcome(request_id),
            Some(ServerMessage::ShutdownAck { request_id: "s".into() })
        ),
        other => panic!("{other:?}"),
    }
    assert!(matches!(stage, SessionStage::Ended(SessionEnd::Finished)));
    let (stage, action) = turn(stage, &mut daemon, SessionInput::Message(spawn("box", "y")));
    assert!(matches!(action, DaemonAction::Ignore));
    assert!(matches!(stage, SessionStage::Ended(SessionEnd::Finished)));
}

#[test]
fn clients_that_leave_shut_the_daemon_down() {
    let mut daemon = daemon();
    daemon.receive(spawn("box", "x"));
    let (stage, action) = turn(SessionStage::Serving, &mut daemon, SessionInput::End);
    assert!(matches!(stage, SessionStage::Ended(SessionEnd::Finished)));
    match action {
        DaemonAction::Shutdown { request_id: None, closedown } => {
            assert_eq!(closedown.cancelled, ["x"]);
            assert_eq!(closedown.records.len(), 1);
        }
        other => panic!("{other:?}"),
    }
}

#[test]
fn sessions_fail_on_broken_lines() {
    let failed = |stage: SessionStage| match stage {
        SessionStage::Ended(SessionEnd::Failed(reason)) => reason,
        other => panic!("{other:?}"),
    };
    let mut daemon = daemon();
    let (stage, _) = turn(SessionStage::Greeting, &mut daemon, SessionInput::End);
    assert!(matches!(stage, SessionStage::Ended(SessionEnd::Silent)));
    let probe = SessionInput::Message(ClientMessage::Probe { request_id: "p".into() });
    let (stage, action) = turn(SessionStage::Greeting, &mut daemon, probe);
    assert_eq!(failed(stage), "the first protocol message must be hello");
    assert!(matches!(action, DaemonAction::Ignore));
    let (stage, action) = turn(SessionStage::Greeting, &mut daemon, greeting(2));
    assert_eq!(failed(stage), "protocol major version mismatch");
    assert_eq!(complaint(action), "protocol major 2 is unsupported; expected 1");
    let (stage, _) =
        turn(SessionStage::Greeting, &mut daemon, SessionInput::NotMessage("eof".into()));
    assert_eq!(failed(stage), "eof");
    for stage in [SessionStage::Greeting, SessionStage::Serving] {
        let broken = SandboxError::Protocol("control message exceeds 1 MiB".into());
        let (stage, action) = turn(stage, &mut daemon, SessionInput::Broken(broken));
        assert_eq!(failed(stage), "protocol error: control message exceeds 1 MiB");
        assert!(matches!(action, DaemonAction::Ignore));
    }
}

#[test]
fn other_messages_are_answered() {
    let mut daemon = daemon();
    let hello = ClientMessage::Hello {
        protocol: ProtocolVersion::default(),
        client: ClientInfo { name: "c".into(), version: "1".into() },
        nonce: "n".into(),
    };
    assert_eq!(complaint(daemon.receive(hello)), "protocol error: hello cannot be repeated");
    match daemon.receive(ClientMessage::Probe { request_id: "p".into() }) {
        DaemonAction::Reply(ServerMessage::ProbeResult { request_id, report }) => {
            assert_eq!(request_id, "p");
            assert_eq!(report, daemon.report);
        }
        other => panic!("{other:?}"),
    }
    let revoke = ClientMessage::RevokeAuthorization {
        request_id: "v".into(),
        tenant_id: "t".into(),
        authorization_id: "a".into(),
    };
    match daemon.receive(revoke) {
        DaemonAction::Retire { authorization, .. } => assert_eq!(
            authorization,
            AuthorizationSpec { tenant_id: "t".into(), authorization_id: "a".into() }
        ),
        other => panic!("{other:?}"),
    }
    assert_eq!(
        revocation_outcome("v".into(), "a".into(), Ok(())),
        ServerMessage::AuthorizationRevoked { request_id: "v".into(), authorization_id: "a".into() }
    );
}

#[test]
fn output_is_numbered_and_limited() {
    let mut progress = OutputProgress::start();
    let id = "x".to_string();
    match progress.accept(&id, 5, OutputStream::Stdout, &b"abc".to_vec()) {
        OutputStep::Forward(ServerMessage::Output { sequence, base64, stream, .. }) => {
            assert_eq!(sequence, 1);
            assert_eq!(base64, "YWJj");
            assert_eq!(stream, OutputStream::Stdout);
        }
        other => panic!("{other:?}"),
    }
    progress.delivered();
    assert_eq!(progress.sequence, 2);
    assert!(matches!(
        progress.accept(&id, 5, OutputStream::Stderr, &b"def".to_vec()),
        OutputStep::LimitExceeded
    ));
    assert_eq!(progress.total(5), 5);
    assert_eq!(progress.total(100), 6);
    let mut last = OutputProgress { bytes: u64::MAX, sequence: u64::MAX };
    last.accept(&id, 5, OutputStream::Stderr, &b"x".to_vec());
    last.delivered();
    assert_eq!(last, OutputProgress { bytes: u64::MAX, sequence: 0 });
}

#[test]
fn lines_are_framed() {
    assert_eq!(read_control_line(Ok(Vec::new())).unwrap(), None);
    assert_eq!(read_control_line(Ok(b"{}\r\n".to_vec())).unwrap(), Some(b"{}".to_vec()));
    assert_eq!(
        read_control_line(Ok(b"\r\n".to_vec())).unwrap_err(),
        SandboxError::Protocol("empty control message".into())
    );
    assert!(read_control_line(Ok(vec![b'a'; 1024 * 1024])).is_ok());
    assert_eq!(
        read_control_line(Ok(vec![b'a'; 1024 * 1024 + 1])).unwrap_err(),
        SandboxError::Protocol("control message exceeds 1 MiB".into())
    );
    assert_eq!(
        read_control_line(Err("broken pipe".into())).unwrap_err(),
        SandboxError::Protocol("broken pipe".into())
    );
}

#[test]
fn sessions_begin_with_a_greeting() {
    let hello = |major: u16, name: &str| ClientMessage::Hello {
        protocol: ProtocolVersion { major, minor: 0 },
        client: ClientInfo { name: name.into(), version: "1".into() },
        nonce: "nonce".into(),
    };
    match greet(hello(1, "c"), "0.1.0", "windows", true) {
        Greeting::Welcome(ServerMessage::HelloAck {
            protocol,
            runtime_version,
            platform,
            features,
            nonce,
        }) => {
            assert_eq!(protocol, ProtocolVersion::default());
            assert_eq!(runtime_version, "0.1.0");
            assert_eq!(platform, "windows");
            assert_eq!(
                features,
                ["process.exec", "process.spawn", "network.deny", "filesystem.mounts"]
            );
            assert_eq!(nonce, "nonce");
        }
        other => panic!("{other:?}"),
    }
    match greet(hello(2, "c"), "0.1.0", "windows", true) {
        Greeting::Mismatch(ServerMessage::Error { error, .. }) => {
            assert_eq!(error.code, "SANDBOX_PROTOCOL_VERSION_MISMATCH");
            assert_eq!(error.message, "protocol major 2 is unsupported; expected 1");
        }
        other => panic!("{other:?}"),
    }
    assert!(matches!(
        greet(hello(1, ""), "0.1.0", "windows", true),
        Greeting::Refused(e) if e == SandboxError::Protocol("invalid client name".into())
    ));
    assert!(matches!(
        greet(ClientMessage::Probe { request_id: "p".into() }, "0.1.0", "windows", true),
        Greeting::NotHello
    ));
    match invalid_message("eof") {
        ServerMessage::Error { error, .. } => {
            assert_eq!(error.code, "SANDBOX_PROTOCOL_INVALID_MESSAGE");
            assert_eq!(error.message, "invalid control message: eof");
        }
        other => panic!("{other:?}"),
    }
    assert!(is_parent_pid(None));
    assert!(is_parent_pid(Some(1)));
    assert!(!is_parent_pid(Some(0)));
}

#[test]
fn string_maps_are_ordered() {
    let mut map = StringMap::new();
    for key in ["b", "a", "c", "b"] {
        map.insert(key.to_string(), key.len());
    }
    assert_eq!(map.len(), 3);
    assert_eq!(map.key_at(0), "a");
    assert_eq!(map.remove("b"), Some(1));
    assert_eq!(map.remove("b"), None);
    assert!(!map.contains_key("b"));
    let entries = map.drain();
    assert_eq!(entries.len(), 2);
    assert_eq!(map.len(), 0);
}
