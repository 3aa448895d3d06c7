use agent_sandbox::authorization::{
    authorization_file, authorization_hash, complete_authorization, enrolled_mounts,
    enrollment_outcome, inspection_outcome, mount_fingerprint, new_authorization,
    optional_read_grant, recover_enrollment, referenced_mounts, reuse_authorization,
    revocable_grants, validate_authorization, validate_record, walks_before_grant,
    writable_sources, AuthorizationSpec, EnrollAction, EnrollStage, EnrollmentRecovery, Grantee,
    PersistentAuthorization, PersistentMount,
};
use agent_sandbox::error::SandboxError;
use agent_sandbox::path::Platform;
use agent_sandbox::policy::{
    ValidatedExecutable, ValidatedExecution, ValidatedMount, ValidatedPolicy,
};
use agent_sandbox::protocol::{
    BackendPreference, CommandSpec, EnforcementStatus, EnvironmentPolicy, ExecutionPolicy,
    FeatureState, FilesystemLeaseMode, FilesystemPolicy, MountAccess, NetworkMode, NetworkPolicy,
    ResourceLimits, SandboxPolicy, ShellChoice,
};
use agent_sandbox::string_map::StringMap;
use agent_sandbox::upgrade::{upgrade_steps, UpgradeStep};
use agent_sandbox::windows_acl::{
    acl_mode, checked_tree, effective_rights_match, grant_root, grant_tree, link_name, revoke_root,
    revoke_tree, trim_link_name, update_outcome, volume_root, AclChange, AclMode, AliasFacts,
    EntryFacts, LinkFacts, TreeEntry, TreeFacts, VolumePrefix,
};
use agent_sandbox::windows_backend::{
    self, cleanup_outcome, cleanup_steps, command_line, grant_mask, journal_of, launch_plan,
    native_workdir, probe, profile_for, profile_names, recover_journal, revocation,
    stable_profile_name, state_directory, to_win32_process_path, workdir_target, AclJournal, PrepareAction, PrepareStage,
    PreparedWindowsSandbox, RecoveryStep, Revocation,
};
use agent_sandbox::windows_environment::{
    environment_block, host_variable_names, process_environment, sort_environment,
};
use agent_sandbox::windows_quoting::quote_windows_argument;
use agent_sandbox::windows_user_backend::{
    self, access_mask, check_network, choose_helper, cleanup_paths, helper_launch, is_persistent,
    lease_file, lease_record, recover_lease, validate_lease, validate_status, verify_egress,
    HelperStatus, HelperUser, HelperUserEnvelope, LeaseAction, LeaseProgress, LeaseRecord,
    PreparedUserSandbox,
};
use agent_sandbox::workdir::WorkdirTarget;

fn strings(list: &[&str]) -> Vec<String> {
    list.iter().map(|s| s.to_string()).collect()
}

fn sample_policy(network: NetworkMode) -> ValidatedPolicy {
    let mut mounts = StringMap::new();
    for (name, source, access) in [
        ("ws", "\\\\?\\C:\\work", MountAccess::ReadWrite),
        ("tools", "\\\\?\\C:\\tools", MountAccess::ReadOnly),
        ("wsx", "\\\\?\\D:\\other", MountAccess::ReadWrite),
    ] {
        mounts.insert(
            name.to_string(),
            ValidatedMount {
                name: name.into(),
                source: source.into(),
                access,
                destination: format!("mount://{name}"),
            },
        );
    }
    let mut executables = StringMap::new();
    executables.insert(
        "node".to_string(),
        ValidatedExecutable {
            alias: "node".into(),
            path: "\\\\?\\C:\\tools\\node.exe".into(),
            sha256: "00".into(),
        },
    );
    ValidatedPolicy {
        original: SandboxPolicy {
            schema_version: 1,
            backend: BackendPreference::Auto,
            filesystem: FilesystemPolicy::default(),
            network: NetworkPolicy { mode: network },
            environment: EnvironmentPolicy::default(),
            execution: ExecutionPolicy::default(),
            limits: ResourceLimits::default(),
        },
        platform: Platform::Windows,
        mounts,
        executables,
        allowed_environment: StringMap::new(),
        inherited_environment: StringMap::new(),
        fingerprint: "sha256:f".into(),
    }
}

fn node(args: &[&str]) -> CommandSpec {
    CommandSpec::Exec { program: "node".into(), args: strings(args) }
}

fn execution(command: CommandSpec, workdir: &str) -> ValidatedExecution {
    let mut environment = StringMap::new();
    environment.insert("CI".to_string(), "1".to_string());
    environment.insert("B".to_string(), "2".to_string());
    ValidatedExecution {
        command,
        workdir: workdir.into(),
        environment,
        limits: ResourceLimits {
            wall_time_ms: 1_000,
            cpu_time_ms: 500,
            memory_bytes: 4096,
            processes: 8,
            output_bytes: 100,
        },
    }
}

fn unavailable(text: &str) -> SandboxError {
    SandboxError::BackendUnavailable(text.into())
}

fn capability(text: &str) -> SandboxError {
    SandboxError::CapabilityUnavailable(text.into())
}

#[test]
fn quotes_windows_arguments_with_backslashes_and_quotes() {
    assert_eq!(quote_windows_argument("plain"), "\"plain\"");
    assert_eq!(quote_windows_argument("a b"), "\"a b\"");
    assert_eq!(quote_windows_argument("a\\\"b"), "\"a\\\\\\\"b\"");
    assert_eq!(quote_windows_argument("tail\\"), "\"tail\\\\\"");
}

#[test]
fn quotes_nothing_and_inner_backslashes() {
    assert_eq!(quote_windows_argument(""), "\"\"");
    assert_eq!(quote_windows_argument("C:\\a\\b"), "\"C:\\a\\b\"");
    assert_eq!(quote_windows_argument("\"\""), "\"\\\"\\\"\"");
}

#[test]
fn environment_is_ordered_without_case_and_stable() {
    let sorted = sort_environment(vec![
        ("beta".into(), "1".into()),
        ("ALPHA".into(), "2".into()),
        ("Beta".into(), "3".into()),
        ("alpha".into(), "4".into()),
        ("=C:".into(), "5".into()),
    ]);
    let names: Vec<&str> = sorted.iter().map(|e| e.0.as_str()).collect();
    let values: Vec<&[u8]> = sorted.iter().map(|e| e.1.as_slice()).collect();
    assert_eq!(names, ["=C:", "ALPHA", "alpha", "beta", "Beta"]);
    assert_eq!(values, [b"5", b"2", b"4", b"1", b"3"]);
}

#[test]
fn environment_blocks_add_host_and_drive() {
    let mut host = StringMap::new();
    host.insert("OS".to_string(), b"Windows_NT".to_vec());
    host.insert("PUBLIC".to_string(), b"C:\\\xed\xa0\x80".to_vec());
    host.insert("UNRELATED".to_string(), b"x".to_vec());
    let block = environment_block(vec![("CI".into(), "1".into())], &host, "c:\\work");
    assert_eq!(
        block,
        vec![
            ("=C:".to_string(), b"c:\\work".to_vec()),
            ("CI".to_string(), b"1".to_vec()),
            ("OS".to_string(), b"Windows_NT".to_vec()),
            ("PUBLIC".to_string(), b"C:\\\xed\xa0\x80".to_vec()),
        ]
    );
    let bare = environment_block(Vec::new(), &StringMap::new(), "\\\\server\\share");
    assert!(bare.is_empty());
    assert_eq!(host_variable_names().len(), 16);
}

#[test]
fn process_environments_are_minimal() {
    let essential = ["SystemRoot", "windir", "ComSpec", "PATHEXT", "TEMP", "TMP", "PATH"];
    let mut requested = StringMap::new();
    requested.insert("PATH".to_string(), "C:\\tools".to_string());
    requested.insert("CI".to_string(), "1".to_string());
    let mut host = StringMap::new();
    host.insert("OS".to_string(), b"Windows_NT".to_vec());
    let block = process_environment(&requested, &host, "D:\\work");
    let named = |name: &str| -> Vec<Vec<u8>> {
        block.iter().filter(|e| e.0 == name).map(|e| e.1.clone()).collect()
    };
    assert_eq!(named("PATH"), [b"C:\\tools".to_vec()]);
    assert_eq!(named("CI"), [b"1".to_vec()]);
    assert_eq!(named("OS"), [b"Windows_NT".to_vec()]);
    assert_eq!(named("=D:"), [b"D:\\work".to_vec()]);
    for (name, _) in &block {
        assert!(
            ["PATH", "CI", "OS", "=D:"].contains(&name.as_str())
                || essential.contains(&name.as_str())
        );
    }
    let inherited = process_environment(&StringMap::new(), &StringMap::new(), "work");
    assert_eq!(inherited.iter().filter(|e| e.0 == "PATH").count(), 1);
}

#[test]
fn appcontainer_report_is_limited() {
    let report = windows_backend::report();
    assert_eq!(report.status, EnforcementStatus::Limited);
    assert_eq!(report.backend, "windows-appcontainer");
    assert_eq!(report.features.get("cpuLimit"), Some(&FeatureState::Limited));
    assert_eq!(report.features.get("processLimit"), Some(&FeatureState::Unavailable));
    assert_eq!(report.features.len(), 8);
    assert_eq!(report.reasons.len(), 4);
    assert!(probe(true).is_ok());
    assert_eq!(
        probe(false).unwrap_err(),
        unavailable("required Windows AppContainer support tools are unavailable")
    );
}

#[test]
fn state_directories_are_chosen() {
    assert_eq!(state_directory(Some("D:\\s".into()), None).unwrap(), "D:\\s");
    assert_eq!(
        state_directory(Some("s".into()), Some("C:\\l".into())).unwrap_err(),
        unavailable("AGENT_SANDBOX_STATE_DIR must be absolute")
    );
    assert_eq!(
        state_directory(None, Some("C:\\l".into())).unwrap(),
        "C:\\l\\agent-sandbox\\state"
    );
    assert_eq!(
        state_directory(None, None).unwrap_err(),
        unavailable("LOCALAPPDATA is unavailable")
    );
    assert_eq!(
        windows_user_backend::state_directory(Some(String::new()), Some("C:\\l\\".into())).unwrap(),
        "C:\\l\\agent-sandbox"
    );
    assert_eq!(
        windows_user_backend::state_directory(None, None).unwrap_err(),
        unavailable("sandbox state directory is unavailable")
    );
}

fn journal() -> AclJournal {
    AclJournal {
        profile_name: "agent.sandbox.abc".into(),
        sid: "S-1-15-2-1".into(),
        mounts: strings(&["C:\\a", "C:\\b"]),
        acl_strategy: 1,
    }
}

#[test]
fn journals_are_undone_backwards() {
    assert_eq!(
        recover_journal(&journal()).unwrap(),
        vec![
            RecoveryStep::Revoke("C:\\b".into()),
            RecoveryStep::Revoke("C:\\a".into()),
            RecoveryStep::DeleteProfile,
            RecoveryStep::RemoveJournal,
        ]
    );
    let bad = unavailable("recovery journal failed integrity validation");
    for change in 0..3 {
        let mut record = journal();
        match change {
            0 => record.profile_name = "other".into(),
            1 => record.sid = "S-1-5-21-1".into(),
            _ => record.mounts.push("relative".into()),
        }
        assert_eq!(recover_journal(&record).unwrap_err(), bad);
    }
    assert_eq!(revocation(1).unwrap(), Revocation::Root);
    assert_eq!(revocation(0).unwrap(), Revocation::Tree);
    assert_eq!(revocation(2).unwrap_err(), capability("unknown ACL recovery strategy"));
}

#[test]
fn appcontainer_cleanup_reports_what_failed() {
    let sandbox = PreparedWindowsSandbox {
        profile_name: "agent.sandbox.abc".into(),
        sid: "S-1-15-2-1".into(),
        journal: Some("C:\\s\\abc.json".into()),
        mounts: strings(&["C:\\a"]),
        acl_strategy: 1,
    };
    assert_eq!(cleanup_steps(&sandbox).len(), 3);
    assert!(cleanup_steps(&PreparedWindowsSandbox { journal: None, ..sandbox }).is_empty());
    assert!(cleanup_outcome(&Vec::new()).is_ok());
    assert_eq!(
        cleanup_outcome(&strings(&["one", "two"])).unwrap_err(),
        SandboxError::Internal(
            "sandbox cleanup incomplete; recovery journal retained: one; two".into()
        )
    );
}

#[test]
fn profiles_are_named_after_their_sandbox() {
    let (profile, file) = profile_names("01234567-89ab-4cde-8f01-23456789abcd");
    assert_eq!(profile, "agent.sandbox.0123456789ab4cde8f0123456789abcd");
    assert_eq!(file, "0123456789ab4cde8f0123456789abcd.json");
    assert_eq!(profile_names(&"x".repeat(50)).0.len(), "agent.sandbox.".len() + 32);
    assert_eq!(
        lease_file("01234567-89ab-4cde-8f01-23456789abcd"),
        "0123456789ab4cde8f0123456789abcd.json"
    );
}

#[test]
fn journals_list_the_sources() {
    let record = journal_of("agent.sandbox.a", "S-1-15-2-9", &sample_policy(NetworkMode::Deny));
    assert_eq!(
        record.mounts,
        strings(&["\\\\?\\C:\\tools", "\\\\?\\C:\\work", "\\\\?\\D:\\other"])
    );
    assert_eq!(record.acl_strategy, 1);
}

#[test]
fn masks_follow_the_access() {
    assert_eq!(grant_mask(MountAccess::ReadOnly), 0x0012_0089);
    assert_eq!(grant_mask(MountAccess::ReadWrite), 0x0013_01DF);
    assert_eq!(access_mask(MountAccess::ReadOnly), 0x0012_00A9);
    assert_eq!(access_mask(MountAccess::ReadWrite), 0x0013_01FF);
}

#[test]
fn working_directories_are_found_and_checked() {
    let policy = sample_policy(NetworkMode::Deny);
    let target = workdir_target(&policy, "mount://ws/src/lib").unwrap();
    assert_eq!(
        target,
        WorkdirTarget { source: "\\\\?\\C:\\work".into(), relative: "src\\lib".into() }
    );
    assert_eq!(workdir_target(&policy, "mount://wsx").unwrap().source, "\\\\?\\D:\\other");
    assert_eq!(
        workdir_target(&policy, "mount://wsy").unwrap_err(),
        SandboxError::InvalidPolicy("execution cwd references an unknown mount".into())
    );
    assert_eq!(
        native_workdir(&target, &Ok("\\\\?\\C:\\work\\src\\lib".into()), true).unwrap(),
        "C:\\work\\src\\lib"
    );
    assert_eq!(
        native_workdir(&target, &Err("gone".into()), true).unwrap_err(),
        SandboxError::InvalidPolicy("execution cwd is unavailable: gone".into())
    );
    let escaped = SandboxError::InvalidPolicy(
        "execution cwd escaped its mount or is not a directory".into(),
    );
    assert_eq!(
        native_workdir(&target, &Ok("\\\\?\\C:\\workshop".into()), true).unwrap_err(),
        escaped
    );
    assert_eq!(
        native_workdir(&target, &Ok("\\\\?\\C:\\work\\f".into()), false).unwrap_err(),
        escaped
    );
    assert_eq!(to_win32_process_path("C:\\plain"), "C:\\plain");
}

#[test]
fn command_lines_are_quoted() {
    let policy = sample_policy(NetworkMode::Deny);
    assert_eq!(
        command_line(&policy, &node(&["a b", "c\\"])).unwrap(),
        (
            "C:\\tools\\node.exe".to_string(),
            "\"C:\\tools\\node.exe\" \"a b\" \"c\\\\\"".to_string()
        )
    );
    let shell = CommandSpec::Shell { shell: ShellChoice::Default, script: "dir /b".into() };
    assert_eq!(
        command_line(&policy, &shell).unwrap(),
        ("C:\\Windows\\System32\\cmd.exe".to_string(), "/D /S /C dir /b".to_string())
    );
    let unknown = CommandSpec::Exec { program: "cmd".into(), args: Vec::new() };
    assert_eq!(
        command_line(&policy, &unknown).unwrap_err(),
        SandboxError::Process("program cmd is not a declared executable".into())
    );
}

#[test]
fn launch_plans_carry_limits_and_network() {
    let run = execution(node(&[]), "mount://ws");
    let deny = launch_plan(
        &sample_policy(NetworkMode::Deny),
        &run,
        "C:\\work".into(),
        &StringMap::new(),
    )
    .unwrap();
    assert!(!deny.internet_client);
    assert_eq!(deny.cwd, "C:\\work");
    assert_eq!(deny.exe, "C:\\tools\\node.exe");
    assert!(deny.environment.contains(&("=C:".to_string(), b"C:\\work".to_vec())));
    assert_eq!(deny.job.cpu_rate_percent, 50);
    assert_eq!(deny.job.memory_bytes, 4096);
    assert!(deny.job.kill_on_job_close);
    let host = launch_plan(
        &sample_policy(NetworkMode::Host),
        &run,
        "C:\\work".into(),
        &StringMap::new(),
    )
    .unwrap();
    assert!(host.internet_client);
}

#[test]
fn failed_preparation_is_unwound() {
    let mut stage = PrepareStage::Profile;
    let mut actions = Vec::new();
    let mut failed = false;
    loop {
        let action = stage.action();
        actions.push(action);
        if action == PrepareAction::Finish {
            break;
        }
        let outcome = if action == PrepareAction::Grant(2) {
            failed = true;
            Err(capability("denied"))
        } else if failed {
            Err(capability("later"))
        } else {
            Ok(())
        };
        stage = stage.advance(outcome, 3);
    }
    assert_eq!(
        actions,
        vec![
            PrepareAction::EnsureProfile,
            PrepareAction::CreateDirectory,
            PrepareAction::WriteJournal,
            PrepareAction::Grant(0),
            PrepareAction::Grant(1),
            PrepareAction::Grant(2),
            PrepareAction::UndoGrant(2),
            PrepareAction::Revoke(1),
            PrepareAction::Revoke(0),
            PrepareAction::DeleteProfile,
            PrepareAction::RemoveJournal,
            PrepareAction::Finish,
        ]
    );
    assert!(matches!(stage, PrepareStage::Failed(e) if e == capability("denied")));
}

#[test]
fn preparation_grants_every_mount() {
    let mut stage = PrepareStage::Profile;
    let mut grants = 0;
    while stage.action() != PrepareAction::Finish {
        if let PrepareAction::Grant(i) = stage.action() {
            assert_eq!(i, grants);
            grants += 1;
        }
        stage = stage.advance(Ok(()), 2);
    }
    assert_eq!(grants, 2);
    assert!(matches!(stage, PrepareStage::Ready));
    let early = PrepareStage::Profile.advance(Err(unavailable("no profile")), 2);
    assert!(matches!(early, PrepareStage::Failed(_)));
}

fn found(path: &str, attributes: u32, is_file: bool) -> TreeEntry {
    TreeEntry {
        path: path.into(),
        attributes,
        is_file,
        is_dir: !is_file,
        target: Ok(path.into()),
        links: LinkFacts::Counted { count: 1, aliases: Vec::new() },
    }
}

fn tree(entry: TreeEntry) -> TreeFacts {
    TreeFacts {
        canonical: Ok("C:\\Work".into()),
        entries: vec![EntryFacts::Found(found("C:\\Work", 0x10, false)), EntryFacts::Found(entry)],
    }
}

#[test]
fn trees_are_checked_before_they_are_granted() {
    let plain = tree(found("C:\\Work\\f", 0, true));
    assert_eq!(
        checked_tree(&plain, true).unwrap(),
        vec![("C:\\Work".to_string(), true), ("C:\\Work\\f".to_string(), false)]
    );
    assert_eq!(
        grant_tree("C:\\Work", 7, &plain).unwrap(),
        AclChange { path: "C:\\Work".into(), access: Some(7), inheritance: 3 }
    );
    assert_eq!(grant_root("C:\\r", 1).inheritance, 3);

    let mut entry = found("C:\\Work\\link", 0x400, false);
    entry.target = Ok("c:/work/sub/".into());
    assert!(checked_tree(&tree(entry), true).is_ok());

    let mut entry = found("C:\\Work\\link", 0x400, false);
    entry.target = Ok("C:\\Workshop".into());
    let outside = tree(entry);
    assert_eq!(
        checked_tree(&outside, true).unwrap_err(),
        capability("mount contains a reparse target outside its boundary: C:\\Work\\link")
    );
    assert!(checked_tree(&outside, false).is_ok());

    let mut entry = found("C:\\Work\\link", 0x400, false);
    entry.target = Err("loop".into());
    assert_eq!(
        checked_tree(&tree(entry), true).unwrap_err(),
        capability("cannot resolve mount reparse target C:\\Work\\link: loop")
    );
}

#[test]
fn hard_links_must_stay_inside() {
    let linked = |aliases: Vec<AliasFacts>| {
        let mut entry = found("C:\\Work\\f", 0, true);
        entry.links = LinkFacts::Counted { count: 2, aliases };
        tree(entry)
    };
    let alias = |path: &str, canonical: Result<String, String>| AliasFacts {
        path: path.into(),
        canonical,
    };
    let inside = linked(vec![
        alias("C:\\Work\\f", Ok("C:\\Work\\f".into())),
        alias("C:\\Work\\g", Ok("C:\\WORK\\g".into())),
    ]);
    assert!(checked_tree(&inside, true).is_ok());
    let outside = linked(vec![
        alias("C:\\Work\\f", Ok("C:\\Work\\f".into())),
        alias("C:\\g", Ok("C:\\g".into())),
    ]);
    assert_eq!(
        checked_tree(&outside, true).unwrap_err(),
        capability("mount contains a hard-link alias outside its boundary: C:\\Work\\f")
    );
    let lost = linked(vec![alias("C:\\g", Err("denied".into()))]);
    assert_eq!(
        checked_tree(&lost, true).unwrap_err(),
        capability("cannot resolve mount hard-link alias C:\\g: denied")
    );
    let mut entry = found("C:\\Work\\f", 0, true);
    entry.links = LinkFacts::Unknown(capability("cannot open"));
    assert_eq!(checked_tree(&tree(entry), true).unwrap_err(), capability("cannot open"));
}

#[test]
fn unreadable_trees_are_refused() {
    let broken = |entries: Vec<EntryFacts>, canonical: Result<String, String>| {
        checked_tree(&TreeFacts { canonical, entries }, true).unwrap_err()
    };
    assert_eq!(
        broken(Vec::new(), Err("x".into())),
        capability("cannot resolve mount before ACL lease: x")
    );
    assert_eq!(
        broken(vec![EntryFacts::Unreadable("x".into())], Ok("C:\\".into())),
        capability("cannot inspect mount before ACL lease: x")
    );
    assert_eq!(
        broken(vec![EntryFacts::NoMetadata("x".into())], Ok("C:\\".into())),
        capability("cannot inspect mount object before ACL lease: x")
    );
}

#[test]
fn revocations_skip_what_is_gone() {
    assert_eq!(
        revoke_root("C:\\a", true),
        Some(AclChange { path: "C:\\a".into(), access: None, inheritance: 0 })
    );
    assert_eq!(revoke_root("C:\\a", false), None);
    let plain = tree(found("C:\\Work\\f", 0, true));
    assert_eq!(revoke_tree(&plain, true).unwrap().len(), 2);
    assert!(revoke_tree(&plain, false).unwrap().is_empty());
}

#[test]
fn refused_writes_pass_where_rights_suffice() {
    let grant = AclChange { path: "C:\\a".into(), access: Some(0b110), inheritance: 3 };
    assert!(update_outcome(&grant, 0, "ok", true, &Err("unused".into())).is_ok());
    assert!(update_outcome(&grant, 5, "denied", true, &Ok(0b111)).is_ok());
    assert_eq!(
        update_outcome(&grant, 5, "denied", true, &Ok(0b100)).unwrap_err(),
        capability("cannot update mount ACL for C:\\a: denied")
    );
    assert_eq!(
        update_outcome(&grant, 5, "denied", true, &Err("x".into())).unwrap_err(),
        capability("cannot validate inherited mount ACL rights: x")
    );
    assert_eq!(
        update_outcome(&grant, 87, "bad", true, &Ok(0b111)).unwrap_err(),
        capability("cannot update mount ACL for C:\\a: bad")
    );
    assert!(!effective_rights_match(false, &Ok(0), None).unwrap());
    assert!(effective_rights_match(true, &Ok(0), None).unwrap());
    assert!(!effective_rights_match(true, &Ok(1), None).unwrap());
    assert_eq!(acl_mode(Some(1), true), AclMode::Replace);
    assert_eq!(acl_mode(Some(1), false), AclMode::Grant);
    assert_eq!(acl_mode(None, true), AclMode::Revoke);
}

#[test]
fn revoking_undoes_granting() {
    let mut entries = vec![("S-1-5-18".to_string(), 0b111, 0u32)];
    let before = entries.clone();
    let mut apply = |change: &AclChange| {
        entries.retain(|entry| entry.0 != "S-1-15-2-1");
        match (acl_mode(change.access, true), change.access) {
            (AclMode::Replace, Some(access)) => {
                entries.push(("S-1-15-2-1".to_string(), access, change.inheritance));
            }
            (AclMode::Revoke, None) => {}
            other => panic!("{other:?}"),
        }
        entries.clone()
    };
    let granted = apply(&grant_root("C:\\work", 0b11));
    assert_eq!(granted[1], ("S-1-15-2-1".to_string(), 0b11, 3));
    let revocation = revoke_root("C:\\work", true).unwrap();
    assert_eq!(revocation.path, "C:\\work");
    assert_eq!(apply(&revocation), before);
    assert_eq!(apply(&revocation), before);
    assert_eq!(revoke_root("C:\\work", false), None);
}

#[test]
fn link_names_are_trimmed() {
    let mut buffer: Vec<u16> = "\\\\dir\\näme".encode_utf16().collect();
    buffer.push(0);
    buffer.push(u16::from(b'x'));
    let used = buffer.len() as u32 - 1;
    assert_eq!(link_name(&buffer, used), "dir\\näme");
    assert_eq!(link_name(&buffer, 5), "dir");
    assert_eq!(link_name(&vec![u16::from(b'a'), 0], 500), "a");
    assert_eq!(trim_link_name("/a\0\0"), "a");
}

#[test]
fn volumes_are_derived_from_prefixes() {
    assert_eq!(volume_root(&Some(VolumePrefix::Disk(b'C'))).unwrap(), "C:\\");
    assert_eq!(volume_root(&Some(VolumePrefix::VerbatimDisk(b'd'))).unwrap(), "d:\\");
    assert_eq!(
        volume_root(&Some(VolumePrefix::Unc("srv".into(), "share".into()))).unwrap(),
        "\\\\srv\\share"
    );
    assert_eq!(
        volume_root(&Some(VolumePrefix::VerbatimUnc("s".into(), "t".into()))).unwrap(),
        "\\\\s\\t"
    );
    assert_eq!(
        volume_root(&Some(VolumePrefix::Other)).unwrap_err(),
        capability("unsupported mount volume for hard-link validation")
    );
    assert_eq!(
        volume_root(&None).unwrap_err(),
        capability("cannot determine mount volume for hard-link validation")
    );
}

fn provisioned() -> HelperStatus {
    HelperStatus {
        user: HelperUserEnvelope {
            cred_present: true,
            marker_version: Some(1),
            marker_user_sid: Some("S-1-5-21-7".into()),
            user: HelperUser {
                exists: true,
                in_builtin_users: true,
                in_sandbox_group: true,
                hidden_from_logon: true,
            },
        },
    }
}

#[test]
fn the_dedicated_user_must_be_provisioned() {
    assert_eq!(validate_status(&provisioned()).unwrap(), "S-1-5-21-7");
    for change in 0..8 {
        let mut status = provisioned();
        match change {
            0 => status.user.cred_present = false,
            1 => status.user.marker_version = Some(2),
            2 => status.user.marker_version = None,
            3 => status.user.marker_user_sid = None,
            4 => status.user.marker_user_sid = Some("S-1-15-2-1".into()),
            5 => status.user.user.exists = false,
            6 => status.user.user.in_sandbox_group = false,
            _ => status.user.user.hidden_from_logon = false,
        }
        assert!(validate_status(&status).is_err(), "{change}");
    }
    assert!(verify_egress(true, "blocked").is_ok());
    assert_eq!(
        verify_egress(false, "blocked").unwrap_err(),
        unavailable("Windows WFP egress fence is inactive: blocked")
    );
    assert!(verify_egress(true, "open").is_err());
    assert_eq!(
        choose_helper(&vec![("a".into(), false), ("b".into(), true), ("c".into(), true)]).unwrap(),
        "b"
    );
    assert!(choose_helper(&vec![("a".into(), false)]).is_err());
    assert!(check_network(&sample_policy(NetworkMode::Deny)).is_ok());
    assert!(check_network(&sample_policy(NetworkMode::Host)).is_err());
    assert_eq!(windows_user_backend::report().status, EnforcementStatus::Limited);
    assert!(!is_persistent(&sample_policy(NetworkMode::Deny)));
    let mut persistent = sample_policy(NetworkMode::Deny);
    persistent.original.filesystem.lease.mode = FilesystemLeaseMode::Persistent;
    assert!(is_persistent(&persistent));
}

#[test]
fn helper_arguments_end_with_the_program() {
    let policy = sample_policy(NetworkMode::Deny);
    let run = execution(node(&["--env", "x"]), "mount://ws/a");
    let (target, options) = helper_launch(&policy, &run, false).unwrap();
    assert_eq!(target.relative, "a");
    assert_eq!(
        options,
        strings(&[
            "exec", "--quiet", "--memory-bytes", "4096", "--cpu-time-ms", "500", "--processes",
            "8", "--env", "B=2", "--env", "CI=1", "--", "\\\\?\\C:\\tools\\node.exe", "--env", "x",
        ])
    );
    assert_eq!(
        helper_launch(&policy, &run, true).unwrap_err(),
        capability("interactive stdin is not supported by the Windows dedicated-user helper")
    );
    assert_eq!(
        helper_launch(&policy, &execution(node(&[]), "mount://none"), false).unwrap_err(),
        SandboxError::InvalidPolicy("logical cwd is outside mounted paths".into())
    );
    let shell = CommandSpec::Shell { shell: ShellChoice::Default, script: "x".into() };
    assert_eq!(
        helper_launch(&policy, &execution(shell, "mount://ws"), false).unwrap_err(),
        capability("Windows shell execution requires a host-declared executable")
    );
}

#[test]
fn leases_are_checked_and_undone() {
    let record = LeaseRecord {
        version: 1,
        sid: "S-1-5-21-7".into(),
        mounts: strings(&["C:\\a", "C:\\b"]),
    };
    assert_eq!(recover_lease(&record).unwrap(), strings(&["C:\\b", "C:\\a"]));
    let mut bad = record.clone();
    bad.version = 2;
    assert_eq!(
        validate_lease(&bad).unwrap_err(),
        unavailable("Windows ACL lease failed integrity validation")
    );
    let mut sandbox = PreparedUserSandbox {
        helper: "h".into(),
        sid: "S-1-5-21-7".into(),
        lease: Some("l".into()),
        mounts: strings(&["C:\\a", "C:\\b"]),
        persistent: false,
    };
    assert_eq!(cleanup_paths(&sandbox), strings(&["C:\\b", "C:\\a"]));
    sandbox.persistent = true;
    assert!(cleanup_paths(&sandbox).is_empty());
    assert_eq!(
        windows_user_backend::cleanup_outcome(&strings(&["x"])).unwrap_err(),
        unavailable("cannot fully revoke Windows ACL lease: x")
    );
}

#[test]
fn failed_leases_are_given_back() {
    let mut progress = LeaseProgress::start();
    let mut actions = Vec::new();
    loop {
        let action = progress.action();
        actions.push(action.clone());
        let outcome = match action {
            LeaseAction::Finish => break,
            LeaseAction::Grant(0) => Ok(strings(&["C:\\a", "C:\\a\\f"])),
            LeaseAction::Grant(_) => Err(capability("denied")),
            _ => Ok(Vec::new()),
        };
        progress = progress.advance(outcome, 2);
        if actions.len() == 4 {
            assert_eq!(
                lease_record("S-1-5-21-7", &progress).mounts,
                strings(&["C:\\a", "C:\\a\\f"])
            );
        }
    }
    assert_eq!(
        actions,
        vec![
            LeaseAction::CreateDirectory,
            LeaseAction::WriteLease,
            LeaseAction::Grant(0),
            LeaseAction::WriteLease,
            LeaseAction::Grant(1),
            LeaseAction::Revoke("C:\\a\\f".into()),
            LeaseAction::Revoke("C:\\a".into()),
            LeaseAction::RemoveLease,
            LeaseAction::Finish,
        ]
    );
    assert!(progress.granted.is_empty());
}

#[test]
fn authorizations_are_named_by_digest() {
    let spec = AuthorizationSpec { tenant_id: "tenant".into(), authorization_id: "grant".into() };
    let hash = "036e8e87bb5e5c67cf8f38b3d70f74d9d13d753614fe775e0dba962522187aeb";
    assert_eq!(authorization_hash(&spec), hash);
    assert_eq!(authorization_file(&spec), format!("{hash}.json"));
    let shifted = AuthorizationSpec { tenant_id: "tenantg".into(), authorization_id: "rant".into() };
    assert_ne!(authorization_hash(&shifted), hash);
}

fn persistent() -> Vec<PersistentMount> {
    vec![
        PersistentMount { source: "C:\\work".into(), access: MountAccess::ReadWrite },
        PersistentMount { source: "C:\\tools".into(), access: MountAccess::ReadOnly },
    ]
}

#[test]
fn authorizations_are_reused_only_unchanged() {
    let mounts = persistent();
    assert_eq!(
        mount_fingerprint(&mounts),
        "sha256:ba78f0a04c2ed8aae72ff97aa356a51525af9080ee2a8dac8be37b4a498d21bf"
    );
    assert_eq!(writable_sources(&mounts), strings(&["C:\\work"]));
    let record = new_authorization("S-1-5-21-7", persistent());
    assert_eq!(
        reuse_authorization(record.clone(), Grantee::User, "S-1-5-21-7", persistent()).unwrap(),
        record
    );
    let mut upgraded = persistent();
    upgraded[1].source = "C:\\tools-2".into();
    let refreshed = reuse_authorization(record.clone(), Grantee::User, "S-1-5-21-7", upgraded.clone()).unwrap();
    assert_eq!(refreshed.mounts, upgraded);
    assert_eq!(refreshed.policy_fingerprint, mount_fingerprint(&upgraded));
    assert_eq!(refreshed.sid, record.sid);
    assert!(reuse_authorization(refreshed, Grantee::User, "S-1-5-21-7", persistent()).is_ok());
    let mismatch = SandboxError::InvalidPolicy(
        "persistent authorization does not match the requested policy".into(),
    );
    assert_eq!(
        reuse_authorization(record.clone(), Grantee::User, "S-1-5-21-8", persistent()).unwrap_err(),
        mismatch
    );
    let mut other = persistent();
    other[1].access = MountAccess::ReadWrite;
    assert_eq!(reuse_authorization(record.clone(), Grantee::User, "S-1-5-21-7", other).unwrap_err(), mismatch);
    let mut forged = record.clone();
    forged.policy_fingerprint = "sha256:00".into();
    assert_eq!(
        reuse_authorization(forged, Grantee::User, "S-1-5-21-7", persistent()).unwrap_err(),
        mismatch
    );
    let mut broken = new_authorization("S-1-5-21-7", persistent());
    broken.version = 9;
    assert_eq!(
        validate_authorization(&broken).unwrap_err(),
        unavailable("persistent authorization failed integrity validation")
    );
}

#[test]
fn packages_are_granted_what_they_read() {
    let package = new_authorization("S-1-15-2-7", persistent());
    assert!(validate_record(&package, Grantee::Package).is_ok());
    let foreign = unavailable("persistent authorization failed integrity validation");
    assert_eq!(validate_record(&package, Grantee::User).unwrap_err(), foreign);
    assert_eq!(validate_authorization(&package).unwrap_err(), foreign);
    assert_eq!(
        reuse_authorization(package.clone(), Grantee::User, "S-1-15-2-7", persistent()),
        Err(foreign)
    );
    assert_eq!(enrolled_mounts(&persistent(), Grantee::Package), persistent());
    assert_eq!(enrolled_mounts(&persistent(), Grantee::User), persistent()[..1]);
    let none = referenced_mounts(&Vec::new());
    assert_eq!(
        recover_enrollment(&package, Grantee::Package, &none).unwrap(),
        EnrollmentRecovery::Undo(strings(&["C:\\tools", "C:\\work"]))
    );
    let completed = complete_authorization(package, Grantee::Package);
    assert_eq!(completed.granted, strings(&["C:\\work", "C:\\tools"]));
    assert_eq!(
        recover_enrollment(&completed, Grantee::Package, &none).unwrap(),
        EnrollmentRecovery::Keep
    );
    assert!(walks_before_grant(Grantee::Package, MountAccess::ReadOnly));
    assert!(!walks_before_grant(Grantee::Package, MountAccess::ReadWrite));
    assert!(!walks_before_grant(Grantee::User, MountAccess::ReadOnly));
    assert!(inspection_outcome(MountAccess::ReadOnly, Ok(true)).is_ok());
    assert!(inspection_outcome(MountAccess::ReadWrite, Ok(true)).is_err());
    assert!(inspection_outcome(MountAccess::ReadWrite, Ok(false)).is_ok());
}

#[test]
fn toolchains_are_upgraded_beside_the_workspace() {
    let record =
        complete_authorization(new_authorization("S-1-15-2-7", persistent()), Grantee::Package);
    let reuse = |record: &PersistentAuthorization, mounts: Vec<PersistentMount>| {
        reuse_authorization(record.clone(), Grantee::Package, "S-1-15-2-7", mounts).unwrap()
    };
    assert_eq!(upgrade_steps(&record, reuse(&record, persistent())), Vec::new());
    let mut upgraded = persistent();
    upgraded[1].source = "C:\\tools-2".into();
    let steps = upgrade_steps(&record, reuse(&record, upgraded.clone()));
    let widened = PersistentAuthorization {
        granted: strings(&["C:\\work", "C:\\tools", "C:\\tools-2"]),
        ..record.clone()
    };
    let renewed = complete_authorization(
        new_authorization("S-1-15-2-7", upgraded.clone()),
        Grantee::Package,
    );
    assert_eq!(
        steps,
        vec![
            UpgradeStep::Record(widened.clone()),
            UpgradeStep::Grant(upgraded[1].clone()),
            UpgradeStep::Revoke("C:\\tools".into()),
            UpgradeStep::Record(renewed.clone()),
        ]
    );
    let none = referenced_mounts(&Vec::new());
    assert_eq!(
        recover_enrollment(&widened, Grantee::Package, &none).unwrap(),
        EnrollmentRecovery::Keep
    );
    let again = upgrade_steps(&widened, reuse(&widened, upgraded.clone()));
    assert_eq!(again, steps);
    assert_eq!(upgrade_steps(&renewed, reuse(&renewed, upgraded)), Vec::new());
}

#[test]
fn unfinished_enrollments_are_granted_again() {
    let record = new_authorization("S-1-15-2-7", persistent());
    let steps = upgrade_steps(&record, record.clone());
    assert_eq!(steps.len(), 4);
    assert_eq!(steps[1], UpgradeStep::Grant(persistent()[0].clone()));
    assert_eq!(steps[2], UpgradeStep::Grant(persistent()[1].clone()));
    let completed = complete_authorization(record, Grantee::Package);
    assert_eq!(steps[3], UpgradeStep::Record(completed));
}

#[test]
fn persistent_profiles_are_those_of_their_authorization() {
    let spec = AuthorizationSpec { tenant_id: "tenant".into(), authorization_id: "grant".into() };
    let other = AuthorizationSpec { tenant_id: "tenant".into(), authorization_id: "other".into() };
    let leased = sample_policy(NetworkMode::Deny);
    let mut kept = sample_policy(NetworkMode::Deny);
    kept.original.filesystem.lease.mode = FilesystemLeaseMode::Persistent;
    let name = "agent.sandbox.036e8e87bb5e5c67cf8f38b3d70f74d9d13d753614fe775e";
    assert_eq!(name.len(), 62);
    assert_eq!(profile_for(&kept, "id-1", &spec), name);
    assert_eq!(profile_for(&kept, "id-2", &spec), name);
    assert_ne!(profile_for(&kept, "id-1", &other), name);
    assert_eq!(profile_for(&leased, "id-1", &spec), "agent.sandbox.id1");
    assert_eq!(profile_for(&leased, &authorization_hash(&spec), &spec), name[..46]);
    assert_eq!(stable_profile_name(&authorization_hash(&spec)), name);
}

#[test]
fn retiring_an_authorization_spares_shared_grants() {
    let mut record = new_authorization("S-1-5-21-7", persistent());
    record.granted = strings(&["C:\\a", "C:\\b", "C:\\c"]);
    let others = referenced_mounts(&vec![strings(&["C:\\b"]), strings(&["C:\\z"])]);
    assert_eq!(others.len(), 2);
    assert_eq!(revocable_grants(&record, &others), strings(&["C:\\c", "C:\\a"]));
}

#[test]
fn interrupted_enrollments_are_undone() {
    let mounts = vec![
        PersistentMount { source: "C:\\a".into(), access: MountAccess::ReadWrite },
        PersistentMount { source: "C:\\tools".into(), access: MountAccess::ReadOnly },
        PersistentMount { source: "C:\\b".into(), access: MountAccess::ReadWrite },
        PersistentMount { source: "C:\\c".into(), access: MountAccess::ReadWrite },
    ];
    let record = new_authorization("S-1-5-21-7", mounts);
    let others = referenced_mounts(&vec![strings(&["C:\\b"])]);
    assert_eq!(
        recover_enrollment(&record, Grantee::User, &others).unwrap(),
        EnrollmentRecovery::Undo(strings(&["C:\\c", "C:\\a"]))
    );
    let completed = complete_authorization(record.clone(), Grantee::User);
    assert_eq!(completed.granted, strings(&["C:\\a", "C:\\b", "C:\\c"]));
    assert_eq!(completed.mounts, record.mounts);
    assert_eq!(recover_enrollment(&completed, Grantee::User, &others).unwrap(), EnrollmentRecovery::Keep);
    let nothing = new_authorization("S-1-5-21-7", Vec::new());
    assert_eq!(recover_enrollment(&nothing, Grantee::User, &others).unwrap(), EnrollmentRecovery::Keep);
    let foreign = new_authorization("S-1-1-0", Vec::new());
    assert_eq!(
        recover_enrollment(&foreign, Grantee::User, &others).unwrap_err(),
        unavailable("persistent authorization failed integrity validation")
    );
}

#[test]
fn interrupted_preparations_are_undone() {
    let policy = sample_policy(NetworkMode::Deny);
    let (name, _) = profile_names("0f8fad5b-d9cb-469f-a165-70867728950e");
    let journal = journal_of(&name, "S-1-15-2-1", &policy);
    assert_eq!(
        recover_journal(&journal).unwrap(),
        vec![
            RecoveryStep::Revoke("\\\\?\\D:\\other".into()),
            RecoveryStep::Revoke("\\\\?\\C:\\work".into()),
            RecoveryStep::Revoke("\\\\?\\C:\\tools".into()),
            RecoveryStep::DeleteProfile,
            RecoveryStep::RemoveJournal,
        ]
    );
}

#[test]
fn enrollment_requires_empty_directories_and_unwinds() {
    assert!(enrollment_outcome(Ok(false)).is_ok());
    assert_eq!(
        enrollment_outcome(Ok(true)).unwrap_err(),
        SandboxError::InvalidPolicy(
            "persistent workspace enrollment requires an empty managed directory".into()
        )
    );
    assert_eq!(
        enrollment_outcome(Err("x".into())).unwrap_err(),
        capability("cannot inspect managed workspace before enrollment: x")
    );
    assert_eq!(optional_read_grant(Err(capability("x")), MountAccess::ReadOnly), Ok(false));
    assert_eq!(
        optional_read_grant(Err(capability("x")), MountAccess::ReadWrite),
        Err(capability("x"))
    );
    assert_eq!(optional_read_grant(Ok(()), MountAccess::ReadOnly), Ok(true));

    let mut stage = EnrollStage::start(2);
    let mut actions = Vec::new();
    loop {
        let action = stage.action();
        actions.push(action);
        let outcome = match action {
            EnrollAction::Finish => break,
            EnrollAction::Grant(1) => Err(capability("denied")),
            _ => Ok(()),
        };
        stage = stage.advance(outcome, 2);
    }
    assert_eq!(
        actions,
        vec![
            EnrollAction::Inspect(0),
            EnrollAction::Inspect(1),
            EnrollAction::WriteRecord,
            EnrollAction::Grant(0),
            EnrollAction::Grant(1),
            EnrollAction::Revoke(0),
            EnrollAction::RemoveRecord,
            EnrollAction::Finish,
        ]
    );
    let unrecorded = EnrollStage::Activating.advance(Err(unavailable("disk full")), 2);
    assert!(matches!(unrecorded, EnrollStage::Unrecorded(_)));
}
