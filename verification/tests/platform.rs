use shbox::config::validate::defaults;
use shbox::config::{NetworkMode, SandboxResources};
use shbox::env::EnvMap;
use shbox::platform::curated::Platform;
use shbox::platform::domain::{
    describe_engine_error, teardown, Barrier, DomainPhase, DomainRegistry, EngineError,
    ReleaseStart,
};
use shbox::platform::error::{LaunchError, LaunchOperation};
use shbox::platform::launch::{
    advance, check_workspace, next_step, promote_runtime_grants, EngineCapabilities, FailedLaunch,
    LaunchStep, Prepared, PtySpec, RuntimePaths, StepGain, Verdict,
};
use shbox::platform::policy::{SandboxIdentity, SandboxLaunchPolicy};
use shbox::platform::process::{
    aftermath, kill_process_group, process_exit, Aftermath, GroupSignal, ProcessControl,
    ProcessExit, Resize, WaitStatus,
};
use shbox::sandbox::SandboxId;
use std::cell::RefCell;

fn sandbox(name: &str) -> SandboxId {
    SandboxId::parse(name).expect("sandbox id")
}

fn policy(platform: Platform, network: NetworkMode, resources: SandboxResources) -> SandboxLaunchPolicy {
    SandboxLaunchPolicy::from_parts(
        platform,
        "/bin/sh".to_string(),
        network,
        &Vec::new(),
        EnvMap::new(),
        "/state/runtime".to_string(),
        resources,
        None,
        &|path: &String| Some(path.clone()),
    )
}

fn engine() -> EngineCapabilities {
    EngineCapabilities { landlock_abi: Some(4), cgroup_v2: true, seatbelt: true }
}

fn pty() -> Option<PtySpec> {
    Some(PtySpec {
        term: "xterm-256color".to_string(),
        rows: 41,
        cols: 101,
        window_revision: 7,
    })
}

#[test]
fn supported_rlimit_resources_are_accepted_by_launcher() {
    let resources = SandboxResources {
        memory_bytes: Some(2 * 1024 * 1024 * 1024),
        pids: Some(64),
        ..SandboxResources::default()
    };
    policy(Platform::Macos, NetworkMode::Disabled, resources)
        .check_engine(&engine())
        .expect("memory and PID RLIMITs are supported on macOS");
}

#[test]
fn launchers_refuse_what_they_cannot_enforce() {
    let refused = |platform: Platform, resources: SandboxResources, engine: EngineCapabilities| {
        policy(platform, NetworkMode::Disabled, resources)
            .check_engine(&engine)
            .expect_err("refused")
            .message()
    };
    let none = SandboxResources::default;
    let linux = |engine| refused(Platform::Linux, none(), engine);
    assert!(linux(EngineCapabilities { landlock_abi: None, ..engine() }).contains("Landlock unsupported"));
    assert!(linux(EngineCapabilities { landlock_abi: Some(3), ..engine() }).contains("Landlock ABI 4"));
    assert!(linux(EngineCapabilities { cgroup_v2: false, ..engine() }).contains("cgroup v2"));
    let quota = SandboxResources { cpu_quota_micros: Some(1), ..none() };
    assert!(refused(Platform::Macos, quota, engine()).contains("CPU quota"));
    let swap = SandboxResources { swap_bytes: Some(1), ..none() };
    assert!(refused(Platform::Macos, swap, engine()).contains("swap limit"));
    let bare = EngineCapabilities { seatbelt: false, ..engine() };
    assert!(refused(Platform::Macos, none(), bare).contains("sandbox-exec is missing"));
    assert!(refused(Platform::Other, none(), engine()).contains("not supported"));
    // An unrestricted network needs no network rules.
    let older = EngineCapabilities { landlock_abi: Some(1), ..engine() };
    assert!(policy(Platform::Linux, NetworkMode::Outbound, none()).check_engine(&older).is_ok());
}

#[test]
fn launches_of_one_sandbox_share_a_domain() {
    let mut registry = DomainRegistry::new();
    let (dev, prod) = (sandbox("dev"), sandbox("prod"));
    assert_eq!(registry.process_domain(&dev, || Ok(1)).expect("created"), 1);
    let again = registry.process_domain(&dev, || panic!("the domain exists"));
    assert_eq!(again.expect("joined"), 1);
    assert_eq!(registry.process_domain(&prod, || Ok(2)).expect("created"), 2);
    assert_eq!(registry.get(&dev).expect("slot").in_flight, 2);
    assert_eq!(registry.get(&dev).expect("slot").phase, DomainPhase::Active);
    let failed = registry.process_domain(&sandbox("broken"), || Err("no cgroup".to_string()));
    assert_eq!(failed.expect_err("creation").message(), "no cgroup");

    // A populated domain stays; a drained one is retired with its last launch.
    registry.launch_finished(&dev, |_| panic!("launches are left"), |_| true);
    assert_eq!(registry.get(&dev).expect("slot").in_flight, 1);
    registry.launch_finished(&dev, |_| Some(true), |_| panic!("still populated"));
    assert_eq!(registry.get(&dev).expect("slot").domain, Some(1));
    registry.launch_finished(&dev, |_| Some(false), |_| true);
    assert!(registry.get(&dev).is_none());
    assert_eq!(registry.get(&prod).expect("slot").domain, Some(2));
    registry.launch_finished(&prod, |_| Some(false), |_| false);
    assert_eq!(registry.get(&prod).expect("slot").domain, None);
}

#[test]
fn deletion_waits_for_launches_in_flight() {
    let mut registry = DomainRegistry::new();
    let dev = sandbox("dev");
    assert_eq!(registry.begin_release(&dev).expect("no slot"), ReleaseStart::Nothing);
    registry.process_domain(&dev, || Ok(1)).expect("created");
    assert_eq!(registry.begin_release(&dev).expect("begun"), ReleaseStart::Kill(Some(1)));
    let rejected = registry.process_domain(&dev, || Ok(9)).expect_err("deleting");
    assert!(rejected.message().contains("being deleted"));
    assert!(registry.begin_release(&dev).is_err(), "one deletion at a time");
    assert_eq!(registry.release_barrier(&dev, false).expect("waiting"), Barrier::Wait);
    registry.launch_finished(&dev, |_| panic!("deletion owns the domain"), |_| true);
    assert_eq!(
        registry.release_barrier(&dev, false).expect("drained"),
        Barrier::Drained(Some(1))
    );
    // A failed teardown puts the domain back; a retry may succeed.
    let failed = registry.finish_release(&dev, Some(1), Err(LaunchError::new("busy")));
    assert_eq!(failed.expect_err("busy").message(), "busy");
    assert_eq!(registry.get(&dev).expect("slot").phase, DomainPhase::Active);
    assert_eq!(registry.begin_release(&dev).expect("again"), ReleaseStart::Kill(Some(1)));
    assert_eq!(
        registry.release_barrier(&dev, false).expect("drained"),
        Barrier::Drained(Some(1))
    );
    assert!(registry.finish_release(&dev, Some(1), Ok(())).is_ok());
    assert!(registry.get(&dev).is_none());
}

#[test]
fn barriers_that_never_drain_give_the_sandbox_back() {
    let mut registry = DomainRegistry::new();
    let dev = sandbox("dev");
    registry.process_domain(&dev, || Ok(1)).expect("created");
    registry.begin_release(&dev).expect("begun");
    let error = registry.release_barrier(&dev, true).expect_err("timed out");
    assert!(error.message().contains("did not drain"));
    assert_eq!(registry.process_domain(&dev, || Ok(9)).expect("usable again"), 1);
}

#[test]
fn teardown_stops_at_the_first_failure() {
    let other = || EngineError::Other { message: "EBUSY".to_string() };
    assert!(teardown(None, |_| panic!("no domain"), |_| Ok(true), |_| Ok(())).is_ok());
    assert!(teardown(Some(4), |_| Ok(()), |_| Ok(true), |_| Ok(())).is_ok());
    let killed = teardown(Some(4), |_| Err(other()), |_| panic!("not killed"), |_| Ok(()));
    assert_eq!(killed.expect_err("kill").message(), "sandbox launch failed: EBUSY");
    let left = teardown(Some(4), |_| Ok(()), |_| Ok(false), |_| panic!("not empty"));
    assert!(left.expect_err("populated").message().contains("still contains processes"));
    let removed = teardown(Some(4), |_| Ok(()), |_| Ok(true), |_| Err(other()));
    assert_eq!(removed.expect_err("remove").message(), "sandbox launch failed: EBUSY");
    let setup = EngineError::Setup {
        stage: "landlock".to_string(),
        detail: "2".to_string(),
        errno: Some(13),
    };
    assert_eq!(
        describe_engine_error(&setup),
        "sandbox child setup failed at landlock (detail 2, errno 13)"
    );
}

#[test]
fn exits_and_signals_are_reported() {
    let status = |code: Option<i32>, signal: Option<i32>| {
        Some(WaitStatus { code, signal, core_dumped: true })
    };
    assert_eq!(process_exit(status(Some(3), None)).expect("exit"), ProcessExit::Code(3));
    assert_eq!(
        process_exit(status(None, Some(9))).expect("signal"),
        ProcessExit::Signal { number: 9, core_dumped: true }
    );
    assert_eq!(process_exit(status(None, None)).expect("unknown"), ProcessExit::Code(255));
    assert_eq!(process_exit(None).expect_err("wait").message(), "sandbox process wait failed");
}

#[test]
fn descendants_survive_only_inside_a_domain() {
    assert_eq!(aftermath(Platform::Linux, 42), Aftermath::Leave);
    assert_eq!(
        aftermath(Platform::Macos, 42),
        Aftermath::EndGroup {
            signal: Some(GroupSignal { group: 42, signal: 9 }),
            settle_millis: 1000,
        }
    );
    assert_eq!(
        aftermath(Platform::Macos, 1),
        Aftermath::EndGroup { signal: None, settle_millis: 1000 }
    );
}

#[test]
fn signals_reach_only_the_launch() {
    assert_eq!(kill_process_group(0, 15), None);
    assert_eq!(kill_process_group(1, 15), None);
    assert_eq!(kill_process_group(42, 15), Some(GroupSignal { group: 42, signal: 15 }));
    let mut control = ProcessControl::new(42, true);
    assert_eq!(control.signal(2, None), Some(GroupSignal { group: 42, signal: 2 }));
    assert_eq!(control.signal(2, Some(77)), Some(GroupSignal { group: 77, signal: 2 }));
    assert_eq!(control.signal(2, Some(1)), Some(GroupSignal { group: 42, signal: 2 }));
    assert_eq!(control.signal(2, Some(-1)), Some(GroupSignal { group: 42, signal: 2 }));
    assert_eq!(control.terminate(), Some(GroupSignal { group: 42, signal: 15 }));
    assert_eq!(control.terminate(), None, "termination is requested once");
    assert_eq!(control.force_terminate(), Some(GroupSignal { group: 42, signal: 9 }));
    assert!(!control.cleanup_complete());
    control.mark_cleanup_complete();
    assert!(control.cleanup_complete());
}

#[test]
fn detached_processes_have_no_terminal() {
    let mut control = ProcessControl::new(42, true);
    assert!(matches!(control.resize(24, 80), Resize::Apply { rows: 24, cols: 80 }));
    control.detach_transport();
    assert!(matches!(control.resize(24, 80), Resize::NoTerminal));
    assert_eq!(control.signal(2, Some(77)), Some(GroupSignal { group: 42, signal: 2 }));
}

#[test]
fn runtime_grants_become_executable() {
    let policy = SandboxLaunchPolicy::from_config(
        Platform::Macos,
        &defaults(),
        SandboxIdentity::Host,
        "/opt/shell/bin/zsh".to_string(),
        "/state/runtime".to_string(),
        &|_: &String| None,
    );
    let mut config = policy.engine_config("/data/a", "/state/runtime/launch-a");
    config.filesystem.read_only = vec![
        "/usr".to_string(),
        "/data/share".to_string(),
        "/opt/shell/bin/zsh".to_string(),
    ];
    promote_runtime_grants(
        &mut config,
        "/opt/shell/bin/zsh",
        &vec![Some("/usr".to_string()), None],
    );
    assert_eq!(config.filesystem.read_only, vec!["/data/share"]);
    assert_eq!(config.filesystem.execute, vec!["/usr", "/opt/shell/bin/zsh"]);
}

#[test]
fn workspaces_are_directories() {
    assert_eq!(
        check_workspace(Some(("/data/a".to_string(), true))).expect("directory"),
        "/data/a"
    );
    assert!(check_workspace(Some(("/data/a".to_string(), false))).is_err());
    assert!(check_workspace(None).is_err());
}

#[test]
fn launch_commands_carry_the_terminal_and_the_overrides() {
    let policy = policy(Platform::Linux, NetworkMode::Disabled, SandboxResources::default());
    let mut overrides = EnvMap::new();
    overrides.set("SSH_CONNECTION", "127.0.0.1 40000 127.0.0.1 22");
    let spec = policy
        .launch_command(
            &LaunchOperation::Exec(vec![b'x', 0xff]),
            &pty(),
            "/data/a",
            "/state/runtime/launch-a",
            &overrides,
        )
        .expect("command");
    let value = |name: &str| {
        spec.env.iter().find(|(entry, _)| entry == name).map(|(_, value)| value.as_str())
    };
    assert_eq!(value("TERM"), Some("xterm-256color"));
    assert_eq!(value("HOME"), Some("/data/a"));
    assert_eq!(value("TMPDIR"), Some("/state/runtime/launch-a"));
    assert_eq!(value("SSH_CONNECTION"), Some("127.0.0.1 40000 127.0.0.1 22"));
    assert_eq!(spec.args[1], vec![b'x', 0xff]);
}

fn runtime() -> RuntimePaths {
    RuntimePaths {
        shell: "/bin/sh".to_string(),
        curated: vec![Some("/dev/zero".to_string()), None],
    }
}

/// Launch with steps that find the usual directories.
fn launch(
    policy: &SandboxLaunchPolicy,
    perform: &dyn Fn(LaunchStep, &Prepared) -> Result<(), LaunchError>,
) -> Result<u64, FailedLaunch> {
    policy.launch(
        &LaunchOperation::Shell,
        &pty(),
        &EnvMap::new(),
        &runtime(),
        &|step: LaunchStep, prepared: &Prepared| {
            perform(step, prepared)?;
            Ok(match step {
                LaunchStep::ResolveWorkspace => {
                    StepGain::Workspace { path: "/data/dev".to_string(), is_dir: true }
                }
                LaunchStep::ResolveTemp => {
                    StepGain::Temp { path: "/state/runtime/launch-1".to_string() }
                }
                _ => StepGain::Nothing,
            })
        },
    )
}

#[test]
fn launches_hand_on_one_pair_of_directories() {
    for platform in [Platform::Linux, Platform::Macos] {
        let policy = policy(platform, NetworkMode::Disabled, SandboxResources::default());
        let spawned = RefCell::new(0);
        let launched = launch(&policy, &|step: LaunchStep, prepared: &Prepared| {
            if step == LaunchStep::ResolveWorkspace {
                assert!(prepared.workspace.is_none() && prepared.config.is_none());
            }
            if step == LaunchStep::JoinDomain {
                assert!(prepared.config.is_some() && prepared.command.is_none());
            }
            if step == LaunchStep::Spawn {
                *spawned.borrow_mut() += 1;
                let config = prepared.config.as_ref().expect("confinement");
                let command = prepared.command.as_ref().expect("command");
                let written = &config.filesystem.read_write;
                assert!(written.contains(&"/data/dev".to_string()));
                assert!(written.contains(&"/state/runtime/launch-1".to_string()));
                assert_eq!(command.cwd, "/data/dev");
                let value = |name: &str| {
                    command.env.iter().find(|entry| entry.0 == name).map(|entry| entry.1.as_str())
                };
                assert_eq!(value("TMPDIR"), Some("/state/runtime/launch-1"));
                assert_eq!(value("HOME"), Some("/data/dev"));
                // Only macOS moves the runtime to the executable tier.
                let plain = policy.engine_config("/data/dev", "/state/runtime/launch-1");
                if platform == Platform::Macos {
                    assert!(plain.filesystem.read_only.contains(&"/dev/zero".to_string()));
                    assert!(!config.filesystem.read_only.contains(&"/dev/zero".to_string()));
                    assert!(config.filesystem.execute.contains(&"/dev/zero".to_string()));
                } else {
                    assert_eq!(config.filesystem.read_only, plain.filesystem.read_only);
                    assert_eq!(config.filesystem.execute, plain.filesystem.execute);
                }
            }
            Ok(())
        });
        assert_eq!(launched.map_err(|failed| failed.error.message()), Ok(7));
        assert_eq!(*spawned.borrow(), 1);
    }
}

#[test]
fn launches_refuse_a_workspace_that_is_no_directory() {
    let linux = policy(Platform::Linux, NetworkMode::Disabled, SandboxResources::default());
    let steps = RefCell::new(Vec::new());
    let failed = linux
        .launch(
            &LaunchOperation::Shell,
            &pty(),
            &EnvMap::new(),
            &runtime(),
            &|step: LaunchStep, _: &Prepared| {
                steps.borrow_mut().push(step);
                Ok(StepGain::Workspace { path: "/data/dev".to_string(), is_dir: false })
            },
        )
        .err()
        .expect("no directory");
    assert_eq!(failed.error.message(), "sandbox workspace is unavailable");
    assert_eq!(*steps.borrow(), vec![LaunchStep::ResolveWorkspace]);
    // A command that cannot be passed on fails before anything is spawned.
    let nul = linux
        .launch(
            &LaunchOperation::Exec(vec![b'a', 0]),
            &pty(),
            &EnvMap::new(),
            &runtime(),
            &|step: LaunchStep, _: &Prepared| {
                assert_ne!(step, LaunchStep::LockSpawn);
                Ok(match step {
                    LaunchStep::ResolveWorkspace => {
                        StepGain::Workspace { path: "/data/dev".to_string(), is_dir: true }
                    }
                    LaunchStep::ResolveTemp => StepGain::Temp { path: "/t".to_string() },
                    _ => StepGain::Nothing,
                })
            },
        )
        .err()
        .expect("an embedded NUL");
    assert!(nul.give_back.temp && nul.give_back.domain && !nul.give_back.spawn_lock);
}

#[test]
fn launches_run_every_step_in_order() {
    let linux = policy(Platform::Linux, NetworkMode::Disabled, SandboxResources::default());
    let steps = RefCell::new(Vec::new());
    let launched = launch(&linux, &|step: LaunchStep, _: &Prepared| {
        steps.borrow_mut().push(step);
        Ok(())
    });
    assert_eq!(launched.map_err(|failed| failed.error.message()), Ok(7));
    let order = steps.borrow();
    assert_eq!(order[0], LaunchStep::ResolveWorkspace);
    assert_eq!(order[order.len() - 1], LaunchStep::StartWaiter);
    let at = |step: LaunchStep| order.iter().position(|found| *found == step).expect("a step");
    assert!(at(LaunchStep::JoinDomain) < at(LaunchStep::Spawn));
    assert!(at(LaunchStep::LockSpawn) < at(LaunchStep::OpenPty));
    assert!(at(LaunchStep::OpenPty) < at(LaunchStep::Spawn));
    // Without a terminal there is none to open, and macOS has no domain.
    assert_eq!(
        next_step(LaunchStep::LockSpawn, Platform::Linux, false),
        Some(LaunchStep::Spawn)
    );
    assert_eq!(
        next_step(LaunchStep::ResolveTemp, Platform::Macos, true),
        Some(LaunchStep::BuildCommand)
    );
    let Verdict::Launched { window_revision } =
        advance(LaunchStep::StartWaiter, Platform::Linux, &None, Ok(()))
    else {
        panic!("the last step launches");
    };
    assert_eq!(window_revision, 0);
}

#[test]
fn failed_launches_give_back_what_they_hold() {
    let linux = policy(Platform::Linux, NetworkMode::Disabled, SandboxResources::default());
    let fail_at = |failing: LaunchStep| {
        launch(&linux, &|step: LaunchStep, _: &Prepared| {
            if step == failing {
                Err(LaunchError::new("injected"))
            } else {
                Ok(())
            }
        })
        .err()
        .expect("the step failed")
    };
    let first = fail_at(LaunchStep::ResolveWorkspace).give_back;
    assert!(!first.temp && !first.domain && !first.spawn_lock && !first.terminal && !first.child);
    let spawn = fail_at(LaunchStep::Spawn);
    assert_eq!(spawn.error.message(), "injected");
    assert!(spawn.give_back.temp && spawn.give_back.domain && spawn.give_back.spawn_lock);
    assert!(spawn.give_back.terminal && !spawn.give_back.child && !spawn.give_back.terminate);
    let waiter = fail_at(LaunchStep::StartWaiter).give_back;
    assert!(waiter.child && waiter.terminate);
}
