use shbox::config::validate::defaults;
use shbox::config::{NetworkMode, SandboxResources};
use shbox::env::EnvMap;
use shbox::platform::command::{
    login_shell_argv0, validated_shell_command, SessionSetup, Streams, MAX_COMMAND_BYTES,
};
use shbox::platform::curated::{curated_read_paths, curated_write_paths, Platform, ReadPathClass};
use shbox::platform::engine::{
    CapabilityPolicy, CpuMax, IdentityPolicy, IsolatedIdentity, Limit, NetworkNamespacePolicy,
    SandboxNetwork, SyscallPolicy,
};
use shbox::platform::error::LaunchOperation;
use shbox::platform::policy::{SandboxIdentity, SandboxLaunchPolicy};
use shbox::platform::temp::{
    decide, remove_launch_temp_tree, runtime_removal, temp_paths, Cleanup, RuntimeEntry,
    TempDecision, TempKind, TempOutcome, TempPhase, TempWork, TreeRemoval, TreeStat,
};
use std::cell::RefCell;

/// A file system on which `/bin` links to `/usr/bin` and each listed path
/// exists.
fn resolve(existing: &[&str], path: &String) -> Option<String> {
    if path == "/bin" {
        return Some("/usr/bin".to_string());
    }
    if path == "/bin/sh" {
        return Some("/usr/bin/dash".to_string());
    }
    if existing.contains(&path.as_str()) {
        return Some(path.clone());
    }
    None
}

fn policy_on(platform: Platform, temp_root: &str) -> SandboxLaunchPolicy {
    SandboxLaunchPolicy::from_config(
        platform,
        &defaults(),
        SandboxIdentity::Host,
        "/bin/sh".to_string(),
        temp_root.to_string(),
        &|path: &String| resolve(&["/usr", "/lib", "/etc/hosts", "/dev/tty"], path),
    )
}

fn test_policy() -> SandboxLaunchPolicy {
    policy_on(Platform::Linux, "/state/runtime")
}

fn policy_with(
    platform: Platform,
    network: NetworkMode,
    read_paths: Vec<String>,
    sandbox_env: EnvMap,
    resources: SandboxResources,
    existing: &[&str],
) -> SandboxLaunchPolicy {
    SandboxLaunchPolicy::from_parts(
        platform,
        "/bin/sh".to_string(),
        network,
        &read_paths,
        sandbox_env,
        "/state/runtime".to_string(),
        resources,
        Some("/sys/fs/cgroup/shbox".to_string()),
        &|path: &String| resolve(existing, path),
    )
}

#[test]
fn curated_linux_read_paths_are_frozen() {
    let expected = [
        ("/usr", ReadPathClass::ExecutableRuntime),
        ("/lib", ReadPathClass::ExecutableRuntime),
        ("/lib64", ReadPathClass::ExecutableRuntime),
        ("/bin", ReadPathClass::ExecutableRuntime),
        ("/sbin", ReadPathClass::ExecutableRuntime),
        ("/etc/ssl", ReadPathClass::SystemData),
        ("/etc/pki", ReadPathClass::SystemData),
        ("/etc/ca-certificates", ReadPathClass::SystemData),
        ("/etc/bash.bashrc", ReadPathClass::SystemData),
        ("/etc/resolv.conf", ReadPathClass::SystemData),
        ("/etc/hosts", ReadPathClass::SystemData),
        ("/etc/host.conf", ReadPathClass::SystemData),
        ("/etc/nsswitch.conf", ReadPathClass::SystemData),
        ("/etc/ld.so.cache", ReadPathClass::SystemData),
        ("/etc/localtime", ReadPathClass::SystemData),
        ("/etc/passwd", ReadPathClass::SystemData),
        ("/etc/group", ReadPathClass::SystemData),
        ("/dev/zero", ReadPathClass::SystemData),
        ("/dev/urandom", ReadPathClass::SystemData),
        ("/dev/random", ReadPathClass::SystemData),
        ("/dev/tty", ReadPathClass::TerminalDevice),
    ];
    let curated = curated_read_paths(Platform::Linux);
    assert_eq!(curated, &expected[..]);

    // The deliberately absent broad grants stay absent.
    for path in ["/", "/tmp", "/dev", "/proc", "/sys", "/dev/pts", "/etc"] {
        assert!(
            !curated.iter().any(|(granted, _)| *granted == path),
            "{path} must not be broadly granted"
        );
    }
}

#[test]
fn curated_linux_write_paths_are_only_dev_null() {
    assert_eq!(curated_write_paths(Platform::Linux), &["/dev/null"]);
}

#[test]
fn curated_macos_paths_are_frozen_and_narrow() {
    let expected = [
        ("/usr", ReadPathClass::ExecutableRuntime),
        ("/bin", ReadPathClass::ExecutableRuntime),
        ("/sbin", ReadPathClass::ExecutableRuntime),
        ("/System", ReadPathClass::ExecutableRuntime),
        ("/Library/Frameworks", ReadPathClass::ExecutableRuntime),
        ("/Library/Apple/System/Library", ReadPathClass::ExecutableRuntime),
        ("/opt/homebrew", ReadPathClass::ExecutableRuntime),
        ("/private/var/select", ReadPathClass::SystemData),
        ("/private/var/db/timezone", ReadPathClass::SystemData),
        ("/private/etc/hosts", ReadPathClass::SystemData),
        ("/private/etc/resolv.conf", ReadPathClass::SystemData),
        ("/private/etc/localtime", ReadPathClass::SystemData),
        ("/private/etc/ssl", ReadPathClass::SystemData),
        ("/dev/zero", ReadPathClass::SystemData),
        ("/dev/urandom", ReadPathClass::SystemData),
        ("/dev/random", ReadPathClass::SystemData),
        ("/dev/fd", ReadPathClass::SystemData),
    ];
    let curated = curated_read_paths(Platform::Macos);
    assert_eq!(curated, &expected[..]);
    assert_eq!(curated_write_paths(Platform::Macos), &["/dev/null"]);
    for broad in ["/", "/Users", "/private", "/private/etc", "/var", "/tmp", "/dev"] {
        assert!(
            !curated.iter().any(|(granted, _)| *granted == broad),
            "{broad} must not be broadly granted"
        );
    }
}

#[test]
fn curated_paths_are_empty_on_unsupported_platforms() {
    assert!(curated_read_paths(Platform::Other).is_empty());
    assert!(curated_write_paths(Platform::Other).is_empty());
}

#[test]
fn resolved_filesystem_paths_keep_operator_reads_non_executable() {
    let configured = "/data/share".to_string();
    let policy = policy_with(
        Platform::Linux,
        NetworkMode::Disabled,
        vec![configured.clone()],
        EnvMap::new(),
        SandboxResources::default(),
        &["/usr", "/lib", "/etc/hosts", "/data/share"],
    );
    let (read_only, execute) = policy.resolved_filesystem_paths();
    let canonical_shell = "/usr/bin/dash".to_string();
    assert!(execute.contains(&canonical_shell));
    assert!(!read_only.contains(&canonical_shell));
    assert!(read_only.contains(&configured));
    assert!(!execute.contains(&configured));

    for resolved in [&read_only, &execute] {
        let mut sorted = resolved.clone();
        sorted.sort();
        sorted.dedup();
        assert_eq!(resolved, &sorted);
        assert!(resolved.iter().all(|path| path.starts_with('/')));
    }
    // `/bin` of the curated list and the shell's own directory are one grant.
    assert_eq!(execute, vec!["/lib", "/usr", "/usr/bin", "/usr/bin/dash"]);
    assert_eq!(read_only, vec!["/data/share", "/etc/hosts"]);
}

/// Configured read paths follow process-lifetime snapshot semantics: a path
/// absent when the policy snapshot is built is never granted, even if it
/// appears later.
#[test]
fn configured_paths_are_resolved_once_at_snapshot_time() {
    let missing = "/data/created-later".to_string();
    let existing = RefCell::new(vec!["/data/share".to_string()]);
    let build = |path: &String| {
        SandboxLaunchPolicy::from_parts(
            Platform::Linux,
            "/bin/sh".to_string(),
            NetworkMode::Disabled,
            &vec![path.clone()],
            EnvMap::new(),
            "/state/runtime".to_string(),
            SandboxResources::default(),
            None,
            &|path: &String| -> Option<String> {
                if existing.borrow().contains(path) {
                    Some(path.clone())
                } else {
                    None
                }
            },
        )
    };
    let policy = build(&missing);
    assert!(
        !policy.resolved_filesystem_paths().0.contains(&missing),
        "an absent configured path must not be granted by the snapshot"
    );
    // Creating the path afterwards does not change the frozen snapshot.
    existing.borrow_mut().push(missing.clone());
    assert!(!policy.resolved_filesystem_paths().0.contains(&missing));

    // A path that exists at snapshot time is canonicalized once and stays
    // granted for the policy's lifetime.
    let canonical = "/data/share".to_string();
    let policy = build(&canonical);
    assert!(policy.resolved_filesystem_paths().0.contains(&canonical));
    existing.borrow_mut().clear();
    assert!(
        policy.resolved_filesystem_paths().0.contains(&canonical),
        "the grant is a snapshot"
    );
}

#[test]
fn disabled_network_uses_an_unprivileged_isolated_network_namespace() {
    let policy = test_policy();
    let namespaces = policy.engine_namespaces();
    assert_eq!(
        policy.engine_identity(None),
        IdentityPolicy::CallerMappedRoot,
        "a user namespace is required to create the network namespace without host capabilities"
    );
    assert_eq!(namespaces.network, NetworkNamespacePolicy::Isolated);
}

#[test]
fn policy_grants_no_workspace_and_no_resource_limits() {
    let policy = test_policy();
    // The base policy never names a workspace; workspace grants are
    // per-launch, so workspace A cannot accidentally grant workspace B.
    let debug = format!("{policy:?}");
    assert!(!debug.contains("/data/workspace"));
    // The snapshot of every field carries no limit-ish state either.
    assert!(!debug.contains("max_"));
    assert!(!debug.to_lowercase().contains("limit"));
}

#[test]
fn network_mode_maps_deterministically_from_config() {
    let policy = test_policy();
    assert_eq!(policy.engine_network(), SandboxNetwork::Disabled);
}

#[test]
fn outbound_networks_follow_the_platform() {
    for (platform, network) in [
        (Platform::Linux, SandboxNetwork::Unrestricted),
        (Platform::Macos, SandboxNetwork::OutboundTcp),
    ] {
        let policy = policy_with(
            platform,
            NetworkMode::Outbound,
            Vec::new(),
            EnvMap::new(),
            SandboxResources::default(),
            &[],
        );
        assert_eq!(policy.engine_network(), network);
        assert_eq!(policy.engine_namespaces().network, NetworkNamespacePolicy::Host);
        assert_eq!(policy.engine_identity(None), IdentityPolicy::Host);
    }
}

#[test]
fn isolated_identities_come_from_a_lease() {
    let policy = SandboxLaunchPolicy::from_config(
        Platform::Linux,
        &defaults(),
        SandboxIdentity::Isolated,
        "/bin/sh".to_string(),
        "/state/runtime".to_string(),
        &|_: &String| None,
    );
    let lease = IsolatedIdentity {
        runtime_uid: 1000,
        runtime_gid: 1000,
        host_uid: 165536,
        host_gid: 165537,
    };
    assert_eq!(policy.identity(), SandboxIdentity::Isolated);
    assert_eq!(policy.engine_identity(Some(lease)), IdentityPolicy::Isolated(lease));
    let unleased = IsolatedIdentity { host_uid: 0, host_gid: 0, ..lease };
    assert_eq!(policy.engine_identity(None), IdentityPolicy::Isolated(unleased));
}

#[test]
fn policy_debug_snapshot_carries_resource_state_openly() {
    let debug = format!("{:?}", test_policy());
    // Resource policy is operator configuration, not hidden global state: the
    // debug view shows it explicitly.
    assert!(debug.contains("resources"));
}

#[test]
fn engine_configurations_name_only_their_own_launch() {
    let resources = SandboxResources {
        memory_bytes: Some(1 << 30),
        swap_bytes: None,
        pids: Some(64),
        cpu_quota_micros: Some(50_000),
        cpu_period_micros: None,
    };
    let policy = policy_with(
        Platform::Linux,
        NetworkMode::Disabled,
        Vec::new(),
        EnvMap::new(),
        resources,
        &["/usr", "/etc/hosts", "/dev/null"],
    );
    let config = policy.engine_config("/data/a", "/state/runtime/launch-a");
    assert_eq!(
        config.filesystem.read_write,
        vec!["/dev/null", "/data/a", "/state/runtime/launch-a"]
    );
    assert_eq!(config.filesystem.read_only, vec!["/etc/hosts"]);
    assert_eq!(config.filesystem.execute, vec!["/usr", "/usr/bin", "/usr/bin/dash"]);
    assert_eq!(config.resources.memory_bytes, Limit::Value(1 << 30));
    assert_eq!(config.resources.swap_bytes, Limit::Inherit);
    assert_eq!(config.resources.pids, Limit::Value(64));
    assert_eq!(
        config.resources.cpu_max,
        Limit::Value(CpuMax { quota_us: 50_000, period_us: 100_000 })
    );
    assert_eq!(config.syscalls, SyscallPolicy::Unrestricted);
    assert_eq!(config.capabilities, CapabilityPolicy::DropAll);
    assert!(config.inherited_fds.is_empty());
    assert_eq!(config.cgroup_parent.as_deref(), Some("/sys/fs/cgroup/shbox"));
}

/// Directories, with the work that was done on them.
#[derive(Default)]
struct Directories {
    present: RefCell<Vec<String>>,
    fail_checks: bool,
}

impl Directories {
    fn perform(&self, _attempt: u32, work: &TempWork) -> TempOutcome {
        let mut present = self.present.borrow_mut();
        match work {
            TempWork::Create(path) => {
                if present.contains(path) {
                    return TempOutcome::Failed { exists: true, source: "EEXIST".to_string() };
                }
                present.push(path.clone());
            }
            TempWork::Check(_) => {
                if self.fail_checks {
                    return TempOutcome::Failed { exists: false, source: "EPERM".to_string() };
                }
            }
            TempWork::RemoveDirectory(path) => present.retain(|entry| entry != path),
            TempWork::RemoveTree(path) => {
                let below = format!("{path}/");
                present.retain(|entry| entry != path && !entry.starts_with(&below));
            }
        }
        TempOutcome::Done
    }
}

#[test]
fn launch_temp_is_private_and_sibling_isolated() {
    let policy = policy_on(Platform::Macos, "/state/runtime");
    assert_eq!(policy.temp_root(), "/state/runtime");
    let directories = Directories::default();
    let perform = |attempt: u32, work: &TempWork| directories.perform(attempt, work);
    let first = policy.create_launch_temp(&perform).expect("first launch temp");
    let second = policy.create_launch_temp(&perform).expect("second launch temp");
    assert_ne!(first.path, second.path);
    assert!(first.path.starts_with("/state/runtime/launch-"));
    assert_eq!(first.root, first.path);

    // Removing one temp removes its contents and does not affect the sibling.
    directories.present.borrow_mut().push(format!("{}/nested", first.path));
    directories.perform(0, &TempWork::RemoveTree(first.root.clone()));
    assert_eq!(*directories.present.borrow(), vec![second.path.clone()]);
}

#[test]
fn unchecked_temp_directories_are_removed() {
    let policy = test_policy();
    let directories = Directories { fail_checks: true, ..Directories::default() };
    let perform = |attempt: u32, work: &TempWork| directories.perform(attempt, work);
    let error = policy.create_launch_temp(&perform).expect_err("unsafe directory");
    assert_eq!(error.message(), "sandbox launch temp directory is not private: EPERM");
    assert!(directories.present.borrow().is_empty());
    let error = policy.create_runtime_temp(3, &perform).expect_err("unsafe directory");
    assert_eq!(error.message(), "sandbox runtime temp root is not private: EPERM");
    assert!(directories.present.borrow().is_empty());
}

#[test]
fn every_name_is_tried_before_a_temp_directory_is_given_up() {
    let attempts = RefCell::new(Vec::new());
    let error = test_policy()
        .create_launch_temp(&|attempt: u32, _: &TempWork| {
            attempts.borrow_mut().push(attempt);
            TempOutcome::Failed { exists: true, source: "EEXIST".to_string() }
        })
        .expect_err("no name is free");
    assert_eq!(error.message(), "sandbox launch temp directory could not be allocated");
    assert_eq!(*attempts.borrow(), (0..32).collect::<Vec<u32>>());
}

#[test]
fn temp_names_hold_the_generation_and_the_token() {
    let launch = temp_paths("/state/runtime", TempKind::Launch, 0xab);
    assert_eq!(launch.root, "/state/runtime/launch-000000000000000000000000000000ab");
    assert_eq!(launch.path, launch.root);
    let runtime = temp_paths("/state/runtime", TempKind::Runtime { generation: 7 }, 1);
    assert_eq!(runtime.root, "/state/runtime/sandbox-00000000000000000000000000000001-7");
    assert_eq!(runtime.path, format!("{}/tmp", runtime.root));
    let taken = TempOutcome::Failed { exists: true, source: "EEXIST".to_string() };
    assert!(matches!(
        decide(TempKind::Launch, TempPhase::CreateRoot, 0, taken),
        TempDecision::Retry
    ));
    let failed = TempOutcome::Failed { exists: false, source: "ENOSPC".to_string() };
    let TempDecision::Fail { cleanup, .. } =
        decide(TempKind::Launch, TempPhase::CreateRoot, 0, failed)
    else {
        panic!("creation failed");
    };
    assert!(matches!(cleanup, Cleanup::Nothing));
}

#[test]
fn temp_trees_are_removed_by_their_kind() {
    assert!(matches!(remove_launch_temp_tree(TreeStat::Missing), Ok(TreeRemoval::Gone)));
    let link = TreeStat::Found { is_symlink: true, is_dir: false };
    assert!(matches!(remove_launch_temp_tree(link), Ok(TreeRemoval::Unlink)));
    let directory = TreeStat::Found { is_symlink: false, is_dir: true };
    assert!(matches!(remove_launch_temp_tree(directory), Ok(TreeRemoval::RemoveAll)));
    let failed = TreeStat::Failed { source: "EACCES".to_string() };
    assert_eq!(remove_launch_temp_tree(failed).err().as_deref(), Some("EACCES"));
    assert!(runtime_removal(Ok(())).is_ok());
    let error = runtime_removal(Err("EBUSY".to_string())).expect_err("busy");
    assert_eq!(
        error.message(),
        "sandbox runtime temp directory could not be removed: EBUSY"
    );
}

#[test]
fn runtime_reconciliation_removes_owned_generations_only() {
    let policy = test_policy();
    let directories = Directories::default();
    let stale = policy
        .create_runtime_temp(7, &|attempt: u32, work: &TempWork| directories.perform(attempt, work))
        .expect("stale runtime temp");
    let name = stale.root.strip_prefix("/state/runtime/").expect("below the root").to_string();
    let entry = |name: &str, is_dir: bool| {
        Ok(RuntimeEntry { name: Some(name.to_string()), is_dir: Ok(is_dir) })
    };
    let listing = vec![
        entry("operator-data", true),
        entry(&name, true),
        entry("sandbox-file", false),
    ];
    let removed = RefCell::new(Vec::new());
    let count = policy
        .reconcile_runtime_temp(Ok(()), Ok(listing), &|path: &String| -> Result<(), String> {
            removed.borrow_mut().push(path.clone());
            Ok(())
        })
        .expect("reconcile runtime");
    assert_eq!(count, 1);
    assert_eq!(*removed.borrow(), vec![stale.root.clone()]);

    let listing = vec![entry(&name, true)];
    let failed = policy.reconcile_runtime_temp(Ok(()), Ok(listing), &|_: &String| {
        Err("EBUSY".to_string())
    });
    assert_eq!(
        failed.expect_err("removal").message(),
        "stale sandbox runtime temp could not be removed: EBUSY"
    );
    let unsafe_root = policy.reconcile_runtime_temp(
        Err("world writable".to_string()),
        Ok(Vec::new()),
        &|_: &String| Ok(()),
    );
    assert_eq!(
        unsafe_root.expect_err("root").message(),
        "sandbox runtime root is unsafe: world writable"
    );
}

fn value<'a>(env: &'a [(String, String)], name: &str) -> Option<&'a str> {
    env.iter().find(|(entry, _)| entry == name).map(|(_, value)| value.as_str())
}

#[test]
fn environment_is_workspace_scoped_with_authoritative_overrides() {
    let mut sandbox_env = EnvMap::new();
    sandbox_env.set("TERM", "operator-term");
    sandbox_env.set("TMPDIR", "/operator/tmp");
    let policy = policy_with(
        Platform::Linux,
        NetworkMode::Disabled,
        Vec::new(),
        sandbox_env,
        SandboxResources::default(),
        &[],
    );
    let directory = "/data/workspace";
    let temp = "/state/runtime/launch-abc";
    let env = policy.environment_for(directory, Some("xterm-256color"), Some(temp));

    assert_eq!(value(&env, "HOME"), Some(directory));
    assert_eq!(value(&env, "TMPDIR"), Some("/state/runtime/launch-abc"));
    assert_eq!(env.iter().filter(|(name, _)| name == "TERM").count(), 1);
    assert_eq!(value(&env, "TERM"), Some("xterm-256color"));

    // Without a temp dir, TMPDIR is untouched.
    let legacy = policy.environment_for(directory, None, None);
    assert_eq!(value(&legacy, "TMPDIR"), Some("/operator/tmp"));

    let mut connection_env = EnvMap::new();
    connection_env.set("SSH_CONNECTION", "127.0.0.1 40000 127.0.0.1 22");
    connection_env.set("TMPDIR", "/client/tmp");
    let with_connection =
        policy.environment_for_with_overrides(directory, None, Some(temp), &connection_env);
    assert_eq!(
        with_connection.iter().filter(|(name, _)| name == "SSH_CONNECTION").count(),
        1
    );
    assert_eq!(
        value(&with_connection, "SSH_CONNECTION"),
        Some("127.0.0.1 40000 127.0.0.1 22")
    );
    assert_eq!(value(&with_connection, "TMPDIR"), Some("/state/runtime/launch-abc"));
}

#[test]
fn command_validation_rejects_oversized_and_nul_but_preserves_raw_bytes() {
    assert_eq!(validated_shell_command(&LaunchOperation::Shell).expect("shell"), None);
    let ok = LaunchOperation::Exec(b"echo hi".to_vec());
    assert_eq!(
        validated_shell_command(&ok).expect("valid command").expect("exec has a command"),
        b"echo hi"
    );
    // SSH exec carries an opaque byte string; non-UTF-8 payloads are passed
    // through byte-for-byte, never validated or transcoded.
    let non_utf8 = LaunchOperation::Exec(vec![b'x', 0xff, 0xfe, b'y']);
    assert_eq!(
        validated_shell_command(&non_utf8)
            .expect("raw bytes are valid")
            .expect("exec has a command"),
        &[b'x', 0xff, 0xfe, b'y']
    );
    let oversized = LaunchOperation::Exec(vec![b'a'; MAX_COMMAND_BYTES + 1]);
    assert_eq!(
        validated_shell_command(&oversized).err().map(|e| e.message()),
        Some("sandbox command is too large".to_string())
    );
    let with_nul = LaunchOperation::Exec(b"echo\0hi".to_vec());
    assert_eq!(
        validated_shell_command(&with_nul).err().map(|e| e.message()),
        Some("sandbox command contains NUL".to_string())
    );
}

#[test]
fn login_shell_argv0_uses_the_leading_dash_basename_form() {
    assert_eq!(login_shell_argv0("/bin/zsh").expect("argv0"), "-zsh");
    assert_eq!(login_shell_argv0("/opt/homebrew/bin/fish").expect("argv0"), "-fish");
    assert!(
        login_shell_argv0("/").is_err(),
        "a path with no file name has no login form"
    );
}

#[test]
fn commands_run_the_shell_in_the_workspace() {
    let policy = test_policy();
    let entries = vec![("HOME".to_string(), "/data/a".to_string())];
    let exec = LaunchOperation::Exec(b"id -u".to_vec());
    let spec = policy.command_spec(&exec, "/data/a", entries.clone(), false).expect("exec");
    assert_eq!(spec.program, "/bin/sh");
    assert_eq!(spec.argv0, None);
    assert_eq!(spec.args, vec![b"-c".to_vec(), b"id -u".to_vec()]);
    assert_eq!(spec.cwd, "/data/a");
    assert_eq!(spec.env, entries);
    assert_eq!(spec.streams, Streams::Pipes);
    assert_eq!(spec.session, SessionSetup::NewSession);
    let shell = policy
        .command_spec(&LaunchOperation::Shell, "/data/a", entries, true)
        .expect("shell");
    assert_eq!(shell.argv0.as_deref(), Some("-sh"));
    assert!(shell.args.is_empty());
    assert_eq!(shell.streams, Streams::Terminal);
    assert_eq!(shell.session, SessionSetup::NewSessionWithControllingTerminal);
}
