//! Launching one sandbox process: what happens in which order, what fails with
//! which error, and what a failure has to give back.

use crate::config::{NetworkMode, SandboxResources};
use crate::env::{self, EnvMap, Entries};
use crate::paths;
use crate::platform::command::{self, CommandSpec, CommandView};
use crate::platform::curated::{self, Platform, ReadPathClass};
use crate::platform::engine::{EngineConfig, EngineView, FilesystemView, IsolatedIdentity};
use crate::platform::environment;
use crate::platform::error::{self, LaunchError, LaunchErrorView, LaunchOperation, OperationView};
use crate::platform::policy::{self, PolicyView, SandboxLaunchPolicy};
use crate::text;
use vstd::prelude::*;

verus! {

// ---------------------------------------------------------------------------
// Launcher

/// What the engine found on this host.
#[derive(Debug)]
pub struct EngineCapabilities {
    /// The Landlock ABI, if there is one.
    pub landlock_abi: Option<u32>,
    /// Whether a cgroup v2 hierarchy is mounted.
    pub cgroup_v2: bool,
    /// Whether the Seatbelt launcher is installed.
    pub seatbelt: bool,
}

/// Why a host cannot enforce a policy, if it cannot.
pub open spec fn launcher_problem(policy: PolicyView, engine: EngineCapabilities) -> Option<
    Seq<char>,
> {
    match policy.platform {
        Platform::Linux => match engine.landlock_abi {
            None => Some("sandbox process adapter unavailable: Landlock unsupported"@),
            Some(abi) => if policy.network == NetworkMode::Disabled && abi < 4 {
                Some(
                    "sandbox process adapter unavailable: network restriction requires Landlock ABI 4 (kernel 6.7+)"@,
                )
            } else if !engine.cgroup_v2 {
                Some(
                    "sandbox process adapter unavailable: process containment requires a cgroup v2 hierarchy"@,
                )
            } else {
                None
            },
        },
        Platform::Macos => if !engine.seatbelt {
            Some("sandbox process adapter unavailable: /usr/bin/sandbox-exec is missing"@)
        } else if policy.resources.cpu_quota_micros is Some {
            Some("sandbox process adapter unavailable: CPU quota cannot be enforced on macOS"@)
        } else if policy.resources.swap_bytes is Some {
            Some("sandbox process adapter unavailable: swap limit cannot be enforced on macOS"@)
        } else {
            None
        },
        Platform::Other => Some(
            "sandbox process adapter unavailable: platform is not supported"@,
        ),
    }
}

impl SandboxLaunchPolicy {
    /// Whether this host can enforce the policy; launches fail closed where it
    /// cannot.
    pub fn check_engine(&self, engine: &EngineCapabilities) -> (r: Result<(), LaunchError>)
        ensures
            match launcher_problem(self@, *engine) {
                None => r is Ok,
                Some(message) => r matches Err(error) && error@ == error::plain(message),
            },
    {
        match self.platform() {
            Platform::Linux => {
                let abi = match engine.landlock_abi {
                    None => {
                        return Err(
                            LaunchError::new(
                                "sandbox process adapter unavailable: Landlock unsupported",
                            ),
                        );
                    },
                    Some(abi) => abi,
                };
                if self.network() == NetworkMode::Disabled && abi < 4 {
                    return Err(
                        LaunchError::new(
                            "sandbox process adapter unavailable: network restriction requires Landlock ABI 4 (kernel 6.7+)",
                        ),
                    );
                }
                if !engine.cgroup_v2 {
                    return Err(
                        LaunchError::new(
                            "sandbox process adapter unavailable: process containment requires a cgroup v2 hierarchy",
                        ),
                    );
                }
                Ok(())
            },
            Platform::Macos => {
                if !engine.seatbelt {
                    return Err(
                        LaunchError::new(
                            "sandbox process adapter unavailable: /usr/bin/sandbox-exec is missing",
                        ),
                    );
                }
                if self.resources().cpu_quota_micros.is_some() {
                    return Err(
                        LaunchError::new(
                            "sandbox process adapter unavailable: CPU quota cannot be enforced on macOS",
                        ),
                    );
                }
                if self.resources().swap_bytes.is_some() {
                    return Err(
                        LaunchError::new(
                            "sandbox process adapter unavailable: swap limit cannot be enforced on macOS",
                        ),
                    );
                }
                Ok(())
            },
            Platform::Other => Err(
                LaunchError::new("sandbox process adapter unavailable: platform is not supported"),
            ),
        }
    }
}

/// A host that may launch on Linux confines the filesystem and contains every
/// process; a disabled network also needs TCP mediation.
pub proof fn linux_launchers_fail_closed(policy: PolicyView, engine: EngineCapabilities)
    requires
        policy.platform == Platform::Linux,
        launcher_problem(policy, engine) is None,
    ensures
        engine.landlock_abi is Some,
        engine.cgroup_v2,
        policy.network == NetworkMode::Disabled ==> engine.landlock_abi->Some_0 >= 4,
{
}

// ---------------------------------------------------------------------------
// Runtime grants

/// The rules that are, or are not, part of the runtime, in order.
pub open spec fn rules_of(rules: Seq<Seq<char>>, runtime: Set<Seq<char>>, wanted: bool) -> Seq<
    Seq<char>,
>
    decreases rules.len(),
{
    if rules.len() == 0 {
        seq![]
    } else {
        let rest = rules_of(rules.drop_last(), runtime, wanted);
        if runtime.contains(rules.last()) == wanted {
            rest.push(rules.last())
        } else {
            rest
        }
    }
}

/// The tiers after the runtime was promoted from the readable to the executable
/// tier.
pub open spec fn promoted(filesystem: FilesystemView, runtime: Set<Seq<char>>) -> FilesystemView {
    FilesystemView {
        read_only: rules_of(filesystem.read_only, runtime, false),
        execute: filesystem.execute + rules_of(filesystem.read_only, runtime, true),
        ..filesystem
    }
}

/// The runtime: the shell and the curated executable paths, in canonical form.
pub open spec fn runtime_of(shell: Seq<char>, curated: Seq<Option<String>>) -> Set<Seq<char>> {
    Set::new(
        |path: Seq<char>|
            path == shell || exists|i: int|
                0 <= i < curated.len() && text::optional(#[trigger] curated[i]) == Some(path),
    )
}

fn is_runtime_rule(rule: &str, shell: &str, curated: &Vec<Option<String>>) -> (r: bool)
    ensures
        r == runtime_of(shell@, curated@).contains(rule@),
{
    if text::same_text(rule, shell) {
        return true;
    }
    let mut i: usize = 0;
    while i < curated.len()
        invariant
            i <= curated@.len(),
            forall|k: int|
                0 <= k < i ==> text::optional(#[trigger] curated@[k]) != Some(rule@),
        decreases curated@.len() - i,
    {
        if let Some(path) = &curated[i] {
            if text::same_text(path.as_str(), rule) {
                assert(text::optional(curated@[i as int]) == Some(rule@));
                return true;
            }
        }
        i = i + 1;
    }
    false
}

/// Promote only the shell and the curated runtime paths from the readable tier;
/// operator-provided data paths remain read-only. `shell` and `curated` are
/// canonical forms.
pub fn promote_runtime_grants(config: &mut EngineConfig, shell: &str, curated: &Vec<Option<String>>)
    ensures
        final(config)@ == (EngineView {
            filesystem: promoted(old(config)@.filesystem, runtime_of(shell@, curated@)),
            ..old(config)@
        }),
{
    let ghost runtime = runtime_of(shell@, curated@);
    let ghost start = config.filesystem.execute@;
    let ghost base = text::texts(start);
    let ghost all = text::texts(config.filesystem.read_only@);
    let mut rules: Vec<String> = Vec::new();
    std::mem::swap(&mut rules, &mut config.filesystem.read_only);
    let mut execute: Vec<String> = Vec::new();
    std::mem::swap(&mut execute, &mut config.filesystem.execute);
    let mut read_only: Vec<String> = Vec::new();
    let mut i: usize = 0;
    proof {
        assert(text::texts(read_only@) =~= rules_of(all.take(0), runtime, false));
        assert(text::texts(execute@) =~= base + rules_of(all.take(0), runtime, true));
    }
    while i < rules.len()
        invariant
            i <= rules@.len(),
            all == text::texts(rules@),
            runtime == runtime_of(shell@, curated@),
            text::texts(read_only@) == rules_of(all.take(i as int), runtime, false),
            text::texts(execute@) == base + rules_of(all.take(i as int), runtime, true),
        decreases rules@.len() - i,
    {
        let rule = rules[i].clone();
        proof {
            assert(all.take(i + 1).drop_last() =~= all.take(i as int));
            assert(all.take(i + 1).last() == rule@);
            assert(text::texts(execute@.push(rule)) =~= text::texts(execute@).push(rule@));
            assert(text::texts(read_only@.push(rule)) =~= text::texts(read_only@).push(rule@));
            let grown = rules_of(all.take(i as int), runtime, true);
            assert((base + grown).push(rule@) =~= base + grown.push(rule@));
        }
        if is_runtime_rule(rule.as_str(), shell, curated) {
            execute.push(rule);
        } else {
            read_only.push(rule);
        }
        i = i + 1;
    }
    proof {
        assert(all.take(all.len() as int) =~= all);
    }
    config.filesystem.read_only = read_only;
    config.filesystem.execute = execute;
}

proof fn lemma_rules(rules: Seq<Seq<char>>, runtime: Set<Seq<char>>, wanted: bool, path: Seq<char>)
    ensures
        rules_of(rules, runtime, wanted).contains(path) <==> rules.contains(path)
            && runtime.contains(path) == wanted,
    decreases rules.len(),
{
    if rules.len() > 0 {
        let short = rules.drop_last();
        lemma_rules(short, runtime, wanted, path);
        let rest = rules_of(short, runtime, wanted);
        let result = rules_of(rules, runtime, wanted);
        if rules.contains(path) {
            let k = choose|k: int| 0 <= k < rules.len() && rules[k] == path;
            if k < short.len() {
                assert(short[k] == path);
            }
        }
        if short.contains(path) {
            let k = choose|k: int| 0 <= k < short.len() && short[k] == path;
            assert(rules[k] == path);
        }
        assert(rules[rules.len() - 1] == rules.last());
        if result.contains(path) {
            let k = choose|k: int| 0 <= k < result.len() && result[k] == path;
            if k < rest.len() {
                assert(rest[k] == path);
            }
        }
        if rest.contains(path) {
            let k = choose|k: int| 0 <= k < rest.len() && rest[k] == path;
            assert(result[k] == path);
        }
        if runtime.contains(rules.last()) == wanted {
            assert(result[rest.len() as int] == rules.last());
        }
    }
}

/// An operator path outside the runtime is never made executable, and promotion
/// grants nothing that was not granted before.
pub proof fn operator_paths_stay_read_only(
    filesystem: FilesystemView,
    runtime: Set<Seq<char>>,
    path: Seq<char>,
)
    ensures
        !runtime.contains(path) && !filesystem.execute.contains(path) ==> !promoted(
            filesystem,
            runtime,
        ).execute.contains(path),
        promoted(filesystem, runtime).read_only.contains(path) ==> filesystem.read_only.contains(
            path,
        ) && !runtime.contains(path),
        promoted(filesystem, runtime).execute.contains(path) ==> filesystem.execute.contains(path)
            || filesystem.read_only.contains(path),
{
    lemma_rules(filesystem.read_only, runtime, false, path);
    lemma_rules(filesystem.read_only, runtime, true, path);
    let moved = rules_of(filesystem.read_only, runtime, true);
    let all = filesystem.execute + moved;
    if all.contains(path) {
        let k = choose|k: int| 0 <= k < all.len() && all[k] == path;
        if k < filesystem.execute.len() {
            assert(filesystem.execute[k] == path);
        } else {
            assert(moved[k - filesystem.execute.len()] == path);
        }
    }
}

// ---------------------------------------------------------------------------
// Plan

/// The workspace of a launch: it has to exist, and be a directory.
pub fn check_workspace(found: Option<(String, bool)>) -> (r: Result<String, LaunchError>)
    ensures
        match found {
            Some((path, true)) => r == Ok::<String, LaunchError>(path),
            _ => r matches Err(error) && error@ == error::plain(
                "sandbox workspace is unavailable"@,
            ),
        },
{
    match found {
        Some((path, is_dir)) => {
            if is_dir {
                Ok(path)
            } else {
                Err(LaunchError::new("sandbox workspace is unavailable"))
            }
        },
        None => Err(LaunchError::new("sandbox workspace is unavailable")),
    }
}

/// The requested terminal.
#[derive(Debug)]
pub struct PtySpec {
    pub term: String,
    pub rows: u32,
    pub cols: u32,
    pub window_revision: u64,
}

/// The term of an optional terminal.
pub open spec fn term_of(pty: Option<PtySpec>) -> Option<Seq<char>> {
    match pty {
        Some(pty) => Some(pty.term@),
        None => None,
    }
}

impl SandboxLaunchPolicy {
    /// The command of one launch with its environment.
    pub fn launch_command(
        &self,
        operation: &LaunchOperation,
        pty: &Option<PtySpec>,
        workspace: &str,
        launch_temp: &str,
        overrides: &EnvMap,
    ) -> (r: Result<CommandSpec, LaunchError>)
        ensures
            match command::command_of(
                self@.shell,
                operation@,
                workspace@,
                environment::environment_of(
                    self@,
                    workspace@,
                    term_of(*pty),
                    Some(launch_temp@),
                    overrides@,
                ),
                pty is Some,
            ) {
                Ok(expected) => r matches Ok(command) && command@ == expected,
                Err(expected) => r matches Err(error) && error@ == expected,
            },
    {
        let term = match pty {
            Some(pty) => Some(pty.term.as_str()),
            None => None,
        };
        let entries = self.environment_for_with_overrides(
            workspace,
            term,
            Some(launch_temp),
            overrides,
        );
        self.command_spec(operation, workspace, entries, pty.is_some())
    }
}

// ---------------------------------------------------------------------------
// Order of work

/// The work of one launch.
#[derive(Debug, Clone, Copy, PartialEq, Eq, Structural)]
pub enum LaunchStep {
    /// Resolve the workspace to its canonical directory.
    ResolveWorkspace,
    /// Create the private temp directory.
    CreateTemp,
    /// Resolve the temp directory: the confinement rules and `TMPDIR` must name
    /// the same directory.
    ResolveTemp,
    /// Join the sandbox's process domain.
    JoinDomain,
    /// Build the command.
    BuildCommand,
    /// Take the process-wide spawn lock.
    LockSpawn,
    /// Open the terminal.
    OpenPty,
    /// Reserve the descriptor the child sets its terminal up with.
    ReserveTerminal,
    /// Spawn the child; it returns once every confinement is in place.
    Spawn,
    /// Read the child's process id.
    IdentifyChild,
    /// Duplicate the terminal for reading.
    DuplicateReader,
    /// Duplicate the terminal for writing.
    DuplicateWriter,
    /// Set the terminal writer up.
    OpenWriter,
    /// Set the terminal reader up.
    OpenReader,
    /// Start the thread that waits for the child.
    StartWaiter,
}

/// Whether a step happens on a platform, with or without a terminal.
pub open spec fn applies(step: LaunchStep, platform: Platform, pty: bool) -> bool {
    match step {
        LaunchStep::JoinDomain => platform == Platform::Linux,
        LaunchStep::OpenPty | LaunchStep::ReserveTerminal | LaunchStep::DuplicateReader
        | LaunchStep::DuplicateWriter | LaunchStep::OpenWriter | LaunchStep::OpenReader => pty,
        _ => true,
    }
}

/// The position of a step in the order of work.
pub open spec fn rank(step: LaunchStep) -> int {
    match step {
        LaunchStep::ResolveWorkspace => 0,
        LaunchStep::CreateTemp => 1,
        LaunchStep::ResolveTemp => 2,
        LaunchStep::JoinDomain => 3,
        LaunchStep::BuildCommand => 4,
        LaunchStep::LockSpawn => 5,
        LaunchStep::OpenPty => 6,
        LaunchStep::ReserveTerminal => 7,
        LaunchStep::Spawn => 8,
        LaunchStep::IdentifyChild => 9,
        LaunchStep::DuplicateReader => 10,
        LaunchStep::DuplicateWriter => 11,
        LaunchStep::OpenWriter => 12,
        LaunchStep::OpenReader => 13,
        LaunchStep::StartWaiter => 14,
    }
}

/// The step behind another, whether or not it applies.
pub open spec fn successor(step: LaunchStep) -> Option<LaunchStep> {
    match step {
        LaunchStep::ResolveWorkspace => Some(LaunchStep::CreateTemp),
        LaunchStep::CreateTemp => Some(LaunchStep::ResolveTemp),
        LaunchStep::ResolveTemp => Some(LaunchStep::JoinDomain),
        LaunchStep::JoinDomain => Some(LaunchStep::BuildCommand),
        LaunchStep::BuildCommand => Some(LaunchStep::LockSpawn),
        LaunchStep::LockSpawn => Some(LaunchStep::OpenPty),
        LaunchStep::OpenPty => Some(LaunchStep::ReserveTerminal),
        LaunchStep::ReserveTerminal => Some(LaunchStep::Spawn),
        LaunchStep::Spawn => Some(LaunchStep::IdentifyChild),
        LaunchStep::IdentifyChild => Some(LaunchStep::DuplicateReader),
        LaunchStep::DuplicateReader => Some(LaunchStep::DuplicateWriter),
        LaunchStep::DuplicateWriter => Some(LaunchStep::OpenWriter),
        LaunchStep::OpenWriter => Some(LaunchStep::OpenReader),
        LaunchStep::OpenReader => Some(LaunchStep::StartWaiter),
        LaunchStep::StartWaiter => None,
    }
}

/// The next step that applies.
pub open spec fn following(step: LaunchStep, platform: Platform, pty: bool) -> Option<LaunchStep>
    decreases 14 - rank(step),
{
    match successor(step) {
        None => None,
        Some(next) => if applies(next, platform, pty) {
            Some(next)
        } else {
            following(next, platform, pty)
        },
    }
}

/// The error of a step that failed. Creating the temp directory, joining the
/// domain, building the command, and spawning bring an error of their own.
pub open spec fn step_error(step: LaunchStep, own: LaunchErrorView) -> LaunchErrorView {
    match step {
        LaunchStep::ResolveWorkspace => error::plain("sandbox workspace is unavailable"@),
        LaunchStep::CreateTemp => own,
        LaunchStep::ResolveTemp => error::plain(
            "sandbox launch temp directory became unavailable"@,
        ),
        LaunchStep::JoinDomain => own,
        LaunchStep::BuildCommand => own,
        LaunchStep::LockSpawn => error::plain("sandbox process adapter is unavailable"@),
        LaunchStep::OpenPty => error::plain("sandbox PTY allocation failed"@),
        LaunchStep::ReserveTerminal => error::plain("sandbox PTY setup failed"@),
        LaunchStep::Spawn => own,
        LaunchStep::IdentifyChild => error::plain(
            "sandbox child vanished before launch completion"@,
        ),
        LaunchStep::DuplicateReader => error::plain("sandbox PTY read duplicate failed"@),
        LaunchStep::DuplicateWriter => error::plain("sandbox PTY write duplicate failed"@),
        LaunchStep::OpenWriter => error::plain("sandbox PTY writer could not be initialized"@),
        LaunchStep::OpenReader => error::plain("sandbox PTY reader could not be initialized"@),
        LaunchStep::StartWaiter => error::plain("sandbox process waiter could not be started"@),
    }
}

/// What a failed launch has to give back.
#[derive(Debug, Clone, Copy, PartialEq, Eq, Structural)]
pub struct GiveBack {
    /// Remove the temp directory.
    pub temp: bool,
    /// Leave the process domain.
    pub domain: bool,
    /// Release the spawn lock.
    pub spawn_lock: bool,
    /// Close the terminal.
    pub terminal: bool,
    /// Drop the child, which ends it.
    pub child: bool,
    /// Kill the child's group and mark its cleanup complete.
    pub terminate: bool,
}

/// What a launch holds when a step fails.
pub open spec fn held(step: LaunchStep, platform: Platform, pty: bool) -> GiveBack {
    GiveBack {
        temp: rank(step) > rank(LaunchStep::CreateTemp),
        domain: platform == Platform::Linux && rank(step) > rank(LaunchStep::JoinDomain),
        spawn_lock: rank(step) > rank(LaunchStep::LockSpawn),
        terminal: pty && rank(step) > rank(LaunchStep::OpenPty),
        child: rank(step) > rank(LaunchStep::Spawn),
        terminate: step == LaunchStep::StartWaiter,
    }
}

/// What follows a step.
#[derive(Debug)]
pub enum Verdict {
    Continue(LaunchStep),
    /// The process is launched, at this revision of its window.
    Launched { window_revision: u64 },
    Failed { error: LaunchError, give_back: GiveBack },
}

/// The contents of a [`Verdict`].
pub enum VerdictView {
    Continue(LaunchStep),
    Launched { window_revision: u64 },
    Failed { error: LaunchErrorView, give_back: GiveBack },
}

impl View for Verdict {
    type V = VerdictView;

    open spec fn view(&self) -> VerdictView {
        match self {
            Verdict::Continue(step) => VerdictView::Continue(*step),
            Verdict::Launched { window_revision } => VerdictView::Launched {
                window_revision: *window_revision,
            },
            Verdict::Failed { error, give_back } => VerdictView::Failed {
                error: error@,
                give_back: *give_back,
            },
        }
    }
}

/// The window revision of an optional terminal.
pub open spec fn revision_of(pty: Option<PtySpec>) -> u64 {
    match pty {
        Some(pty) => pty.window_revision,
        None => 0,
    }
}

/// What follows a step.
pub open spec fn verdict(
    step: LaunchStep,
    platform: Platform,
    pty: Option<PtySpec>,
    outcome: Result<(), LaunchError>,
) -> VerdictView {
    match outcome {
        Ok(_) => match following(step, platform, pty is Some) {
            Some(next) => VerdictView::Continue(next),
            None => VerdictView::Launched { window_revision: revision_of(pty) },
        },
        Err(own) => VerdictView::Failed {
            error: step_error(step, own@),
            give_back: held(step, platform, pty is Some),
        },
    }
}

fn step_applies(step: LaunchStep, platform: Platform, pty: bool) -> (r: bool)
    ensures
        r == applies(step, platform, pty),
{
    match step {
        LaunchStep::JoinDomain => platform == Platform::Linux,
        LaunchStep::OpenPty => pty,
        LaunchStep::ReserveTerminal => pty,
        LaunchStep::DuplicateReader => pty,
        LaunchStep::DuplicateWriter => pty,
        LaunchStep::OpenWriter => pty,
        LaunchStep::OpenReader => pty,
        _ => true,
    }
}

fn step_after(step: LaunchStep) -> (r: Option<LaunchStep>)
    ensures
        r == successor(step),
{
    match step {
        LaunchStep::ResolveWorkspace => Some(LaunchStep::CreateTemp),
        LaunchStep::CreateTemp => Some(LaunchStep::ResolveTemp),
        LaunchStep::ResolveTemp => Some(LaunchStep::JoinDomain),
        LaunchStep::JoinDomain => Some(LaunchStep::BuildCommand),
        LaunchStep::BuildCommand => Some(LaunchStep::LockSpawn),
        LaunchStep::LockSpawn => Some(LaunchStep::OpenPty),
        LaunchStep::OpenPty => Some(LaunchStep::ReserveTerminal),
        LaunchStep::ReserveTerminal => Some(LaunchStep::Spawn),
        LaunchStep::Spawn => Some(LaunchStep::IdentifyChild),
        LaunchStep::IdentifyChild => Some(LaunchStep::DuplicateReader),
        LaunchStep::DuplicateReader => Some(LaunchStep::DuplicateWriter),
        LaunchStep::DuplicateWriter => Some(LaunchStep::OpenWriter),
        LaunchStep::OpenWriter => Some(LaunchStep::OpenReader),
        LaunchStep::OpenReader => Some(LaunchStep::StartWaiter),
        LaunchStep::StartWaiter => None,
    }
}

/// The next step that applies.
pub fn next_step(step: LaunchStep, platform: Platform, pty: bool) -> (r: Option<LaunchStep>)
    ensures
        r == following(step, platform, pty),
    decreases 14 - rank(step),
{
    match step_after(step) {
        None => None,
        Some(next) => {
            if step_applies(next, platform, pty) {
                Some(next)
            } else {
                next_step(next, platform, pty)
            }
        },
    }
}

fn fixed_error(step: LaunchStep) -> (r: Option<&'static str>)
    ensures
        match r {
            Some(message) => forall|own: LaunchErrorView|
                #[trigger] step_error(step, own) == error::plain(message@),
            None => forall|own: LaunchErrorView| #[trigger] step_error(step, own) == own,
        },
{
    match step {
        LaunchStep::ResolveWorkspace => Some("sandbox workspace is unavailable"),
        LaunchStep::CreateTemp => None,
        LaunchStep::ResolveTemp => Some("sandbox launch temp directory became unavailable"),
        LaunchStep::JoinDomain => None,
        LaunchStep::BuildCommand => None,
        LaunchStep::LockSpawn => Some("sandbox process adapter is unavailable"),
        LaunchStep::OpenPty => Some("sandbox PTY allocation failed"),
        LaunchStep::ReserveTerminal => Some("sandbox PTY setup failed"),
        LaunchStep::Spawn => None,
        LaunchStep::IdentifyChild => Some("sandbox child vanished before launch completion"),
        LaunchStep::DuplicateReader => Some("sandbox PTY read duplicate failed"),
        LaunchStep::DuplicateWriter => Some("sandbox PTY write duplicate failed"),
        LaunchStep::OpenWriter => Some("sandbox PTY writer could not be initialized"),
        LaunchStep::OpenReader => Some("sandbox PTY reader could not be initialized"),
        LaunchStep::StartWaiter => Some("sandbox process waiter could not be started"),
    }
}

fn step_rank(step: LaunchStep) -> (r: u32)
    ensures
        r == rank(step),
{
    match step {
        LaunchStep::ResolveWorkspace => 0,
        LaunchStep::CreateTemp => 1,
        LaunchStep::ResolveTemp => 2,
        LaunchStep::JoinDomain => 3,
        LaunchStep::BuildCommand => 4,
        LaunchStep::LockSpawn => 5,
        LaunchStep::OpenPty => 6,
        LaunchStep::ReserveTerminal => 7,
        LaunchStep::Spawn => 8,
        LaunchStep::IdentifyChild => 9,
        LaunchStep::DuplicateReader => 10,
        LaunchStep::DuplicateWriter => 11,
        LaunchStep::OpenWriter => 12,
        LaunchStep::OpenReader => 13,
        LaunchStep::StartWaiter => 14,
    }
}

/// Decide what follows a step of a launch.
pub fn advance(
    step: LaunchStep,
    platform: Platform,
    pty: &Option<PtySpec>,
    outcome: Result<(), LaunchError>,
) -> (r: Verdict)
    ensures
        r@ == verdict(step, platform, *pty, outcome),
{
    match outcome {
        Ok(_) => match next_step(step, platform, pty.is_some()) {
            Some(next) => Verdict::Continue(next),
            None => {
                let window_revision: u64 = match pty {
                    Some(pty) => pty.window_revision,
                    None => 0,
                };
                Verdict::Launched { window_revision }
            },
        },
        Err(own) => {
            let error = match fixed_error(step) {
                Some(message) => LaunchError::new(message),
                None => own,
            };
            let at = step_rank(step);
            Verdict::Failed {
                error,
                give_back: GiveBack {
                    temp: at > 1,
                    domain: platform == Platform::Linux && at > 3,
                    spawn_lock: at > 5,
                    terminal: pty.is_some() && at > 6,
                    child: at > 8,
                    terminate: step == LaunchStep::StartWaiter,
                },
            }
        },
    }
}

/// Each step comes after the one before it, so every launch ends.
pub proof fn launches_make_progress(step: LaunchStep, platform: Platform, pty: bool)
    ensures
        following(step, platform, pty) matches Some(next) ==> rank(next) > rank(step) && applies(
            next,
            platform,
            pty,
        ),
    decreases 14 - rank(step),
{
    if let Some(next) = successor(step) {
        if !applies(next, platform, pty) {
            launches_make_progress(next, platform, pty);
        }
    }
}

/// No step that applies is skipped.
pub proof fn launches_skip_nothing(
    step: LaunchStep,
    platform: Platform,
    pty: bool,
    between: LaunchStep,
)
    requires
        rank(step) < rank(between),
        applies(between, platform, pty),
    ensures
        following(step, platform, pty) matches Some(next) && rank(next) <= rank(between),
    decreases 14 - rank(step),
{
    let next = successor(step).unwrap();
    assert(rank(next) == rank(step) + 1);
    if !applies(next, platform, pty) {
        assert(next != between);
        launches_skip_nothing(next, platform, pty, between);
    }
}

/// A failed launch leaves its process domain exactly when it joined one, and
/// removes its temp directory exactly when it created one.
pub proof fn failed_launches_give_back_what_they_hold(
    step: LaunchStep,
    platform: Platform,
    pty: bool,
)
    requires
        applies(step, platform, pty),
    ensures
        held(step, platform, pty).temp <==> rank(step) > rank(LaunchStep::CreateTemp),
        held(step, platform, pty).domain <==> applies(LaunchStep::JoinDomain, platform, pty)
            && rank(step) > rank(LaunchStep::JoinDomain),
        held(step, platform, pty).terminate ==> held(step, platform, pty).child,
{
}

// ---------------------------------------------------------------------------
// The whole launch

/// What a step found.
#[derive(Debug)]
pub enum StepGain {
    Nothing,
    /// The canonical workspace, and whether it is a directory.
    Workspace { path: String, is_dir: bool },
    /// The canonical temp directory.
    Temp { path: String },
}

/// The shell and the curated executable paths, in canonical form where they
/// exist.
#[derive(Debug)]
pub struct RuntimePaths {
    pub shell: String,
    pub curated: Vec<Option<String>>,
}

/// What a launch has resolved and built so far: every step is handed it.
#[derive(Debug)]
pub struct Prepared {
    pub workspace: Option<String>,
    pub launch_temp: Option<String>,
    pub config: Option<EngineConfig>,
    pub command: Option<CommandSpec>,
}

/// The contents of a [`Prepared`].
pub struct PreparedView {
    pub workspace: Option<Seq<char>>,
    pub launch_temp: Option<Seq<char>>,
    pub config: Option<EngineView>,
    pub command: Option<CommandView>,
}

impl View for Prepared {
    type V = PreparedView;

    open spec fn view(&self) -> PreparedView {
        PreparedView {
            workspace: text::optional(self.workspace),
            launch_temp: text::optional(self.launch_temp),
            config: match self.config {
                Some(config) => Some(config@),
                None => None,
            },
            command: match self.command {
                Some(command) => Some(command@),
                None => None,
            },
        }
    }
}

/// What a launch is asked for, under which policy.
pub struct LaunchInput {
    pub policy: PolicyView,
    pub operation: OperationView,
    pub pty: Option<PtySpec>,
    pub overrides: Entries,
    pub runtime: Set<Seq<char>>,
}

/// The directories that a launch resolved.
pub struct LaunchDirs {
    pub workspace: Seq<char>,
    pub launch_temp: Seq<char>,
}

/// The confinement of a launch in its directories. On macOS the runtime is
/// promoted to the executable tier.
pub open spec fn config_of(input: LaunchInput, dirs: LaunchDirs) -> EngineView {
    let config = input.policy.engine_config(dirs.workspace, dirs.launch_temp, None);
    if input.policy.platform == Platform::Macos {
        EngineView { filesystem: promoted(config.filesystem, input.runtime), ..config }
    } else {
        config
    }
}

/// The command of a launch in its directories.
pub open spec fn built(input: LaunchInput, dirs: LaunchDirs) -> Result<
    CommandView,
    LaunchErrorView,
> {
    command::command_of(
        input.policy.shell,
        input.operation,
        dirs.workspace,
        environment::environment_of(
            input.policy,
            dirs.workspace,
            term_of(input.pty),
            Some(dirs.launch_temp),
            input.overrides,
        ),
        input.pty is Some,
    )
}

/// What a step is handed: the directories that are resolved by then, and the
/// confinement and the command built from them.
pub open spec fn prepared_for(step: LaunchStep, input: LaunchInput, dirs: LaunchDirs) -> PreparedView {
    PreparedView {
        workspace: if rank(step) > rank(LaunchStep::ResolveWorkspace) {
            Some(dirs.workspace)
        } else {
            None
        },
        launch_temp: if rank(step) > rank(LaunchStep::ResolveTemp) {
            Some(dirs.launch_temp)
        } else {
            None
        },
        config: if rank(step) > rank(LaunchStep::ResolveTemp) {
            Some(config_of(input, dirs))
        } else {
            None
        },
        command: if rank(step) > rank(LaunchStep::BuildCommand) {
            Some(built(input, dirs)->Ok_0)
        } else {
            None
        },
    }
}

/// Whether what a step found is what it was to find. The workspace has to be a
/// directory.
pub open spec fn found(step: LaunchStep, gain: StepGain, dirs: LaunchDirs) -> bool {
    match step {
        LaunchStep::ResolveWorkspace => gain matches StepGain::Workspace { path, is_dir } && is_dir
            && path@ == dirs.workspace,
        LaunchStep::ResolveTemp => gain matches StepGain::Temp { path } && path@
            == dirs.launch_temp,
        _ => true,
    }
}

/// The error of a step that did not find what it was to find, or failed.
pub open spec fn outcome_error(step: LaunchStep, outcome: Result<StepGain, LaunchError>) -> Option<
    LaunchErrorView,
> {
    match outcome {
        Err(own) => Some(step_error(step, own@)),
        Ok(gain) => match (step, gain) {
            (LaunchStep::ResolveWorkspace, StepGain::Workspace { is_dir, .. }) => if is_dir {
                None
            } else {
                Some(error::plain("sandbox workspace is unavailable"@))
            },
            (LaunchStep::ResolveWorkspace, _) => Some(
                error::plain("sandbox workspace is unavailable"@),
            ),
            (LaunchStep::ResolveTemp, StepGain::Temp { .. }) => None,
            (LaunchStep::ResolveTemp, _) => Some(
                error::plain("sandbox launch temp directory became unavailable"@),
            ),
            _ => None,
        },
    }
}

/// A step was performed with what it was handed, with this outcome.
pub open spec fn stepped<F: Fn(LaunchStep, &Prepared) -> Result<StepGain, LaunchError>>(
    perform: F,
    step: LaunchStep,
    prepared: PreparedView,
    outcome: Result<StepGain, LaunchError>,
) -> bool {
    exists|handed: &Prepared|
        handed@ == prepared && #[trigger] perform.ensures((step, handed), outcome)
}

/// A step was performed and done. The command is built by the launch itself.
pub open spec fn step_done<F: Fn(LaunchStep, &Prepared) -> Result<StepGain, LaunchError>>(
    perform: F,
    input: LaunchInput,
    dirs: LaunchDirs,
    step: LaunchStep,
) -> bool {
    if step == LaunchStep::BuildCommand {
        built(input, dirs) is Ok
    } else {
        exists|gain: StepGain|
            found(step, gain, dirs) && #[trigger] stepped(
                perform,
                step,
                prepared_for(step, input, dirs),
                Ok(gain),
            )
    }
}

/// Every step that applies and comes before a position was performed and done.
pub open spec fn done_before<F: Fn(LaunchStep, &Prepared) -> Result<StepGain, LaunchError>>(
    perform: F,
    input: LaunchInput,
    dirs: LaunchDirs,
    position: int,
) -> bool {
    forall|step: LaunchStep|
        applies(step, input.policy.platform, input.pty is Some) && rank(step) < position
            ==> #[trigger] step_done(perform, input, dirs, step)
}

/// A step is due: it applies, every step before it was done, and it is handed
/// what they prepared.
pub open spec fn step_due<F: Fn(LaunchStep, &Prepared) -> Result<StepGain, LaunchError>>(
    perform: F,
    input: LaunchInput,
    dirs: LaunchDirs,
    step: LaunchStep,
    prepared: PreparedView,
) -> bool {
    &&& step != LaunchStep::BuildCommand
    &&& applies(step, input.policy.platform, input.pty is Some)
    &&& done_before(perform, input, dirs, rank(step))
    &&& prepared == prepared_for(step, input, dirs)
}

/// A launch that failed: its error, and what it has to give back.
#[derive(Debug)]
pub struct FailedLaunch {
    pub error: LaunchError,
    pub give_back: GiveBack,
}

/// The error that a step ended the launch with.
pub open spec fn step_failed<F: Fn(LaunchStep, &Prepared) -> Result<StepGain, LaunchError>>(
    perform: F,
    input: LaunchInput,
    dirs: LaunchDirs,
    step: LaunchStep,
    error: LaunchErrorView,
) -> bool {
    if step == LaunchStep::BuildCommand {
        built(input, dirs) == Err::<CommandView, LaunchErrorView>(error)
    } else {
        exists|outcome: Result<StepGain, LaunchError>|
            outcome_error(step, outcome) == Some(error) && #[trigger] stepped(
                perform,
                step,
                prepared_for(step, input, dirs),
                outcome,
            )
    }
}

/// The first step that failed decides the error and what is given back.
pub open spec fn failed_at<F: Fn(LaunchStep, &Prepared) -> Result<StepGain, LaunchError>>(
    failure: FailedLaunch,
    perform: F,
    input: LaunchInput,
    dirs: LaunchDirs,
    step: LaunchStep,
) -> bool {
    &&& applies(step, input.policy.platform, input.pty is Some)
    &&& done_before(perform, input, dirs, rank(step))
    &&& step_failed(perform, input, dirs, step, failure.error@)
    &&& failure.give_back == held(step, input.policy.platform, input.pty is Some)
}

/// Some step failed first.
pub open spec fn launch_failed<F: Fn(LaunchStep, &Prepared) -> Result<StepGain, LaunchError>>(
    failure: FailedLaunch,
    perform: F,
    input: LaunchInput,
) -> bool {
    exists|dirs: LaunchDirs, step: LaunchStep|
        #[trigger] failed_at(failure, perform, input, dirs, step)
}

/// Every step was done in one pair of directories.
pub open spec fn launched<F: Fn(LaunchStep, &Prepared) -> Result<StepGain, LaunchError>>(
    perform: F,
    input: LaunchInput,
) -> bool {
    exists|dirs: LaunchDirs| #[trigger] done_before(perform, input, dirs, 15)
}

/// What a launch is asked for.
pub open spec fn input_of(
    policy: PolicyView,
    operation: OperationView,
    pty: Option<PtySpec>,
    overrides: Entries,
    runtime: RuntimePaths,
) -> LaunchInput {
    LaunchInput {
        policy,
        operation,
        pty,
        overrides,
        runtime: runtime_of(runtime.shell@, runtime.curated@),
    }
}

/// Whether a step leaves what was prepared as it is.
proof fn lemma_steps_keep_earlier_work<
    F: Fn(LaunchStep, &Prepared) -> Result<StepGain, LaunchError>,
>(
    perform: F,
    input: LaunchInput,
    dirs: LaunchDirs,
    step: LaunchStep,
    now: LaunchDirs,
    next: int,
)
    requires
        applies(step, input.policy.platform, input.pty is Some),
        done_before(perform, input, dirs, rank(step)),
        step_done(perform, input, now, step),
        now == dirs || now == (LaunchDirs { workspace: now.workspace, ..dirs }) && step
            == LaunchStep::ResolveWorkspace || now == (LaunchDirs {
            launch_temp: now.launch_temp,
            ..dirs
        }) && step == LaunchStep::ResolveTemp,
        forall|between: LaunchStep|
            rank(step) < #[trigger] rank(between) < next ==> !applies(
                between,
                input.policy.platform,
                input.pty is Some,
            ),
    ensures
        done_before(perform, input, now, next),
{
    assert forall|s: LaunchStep|
        applies(s, input.policy.platform, input.pty is Some) && rank(s) < next implies #[trigger] step_done(
        perform,
        input,
        now,
        s,
    ) by {
        if rank(s) < rank(step) {
            assert(step_done(perform, input, dirs, s));
            assert(prepared_for(s, input, dirs) == prepared_for(s, input, now));
            if s != LaunchStep::BuildCommand {
                let gain = choose|gain: StepGain|
                    found(s, gain, dirs) && #[trigger] stepped(
                        perform,
                        s,
                        prepared_for(s, input, dirs),
                        Ok(gain),
                    );
                assert(found(s, gain, now));
                assert(stepped(perform, s, prepared_for(s, input, now), Ok(gain)));
            }
        } else if rank(s) == rank(step) {
            assert(s == step);
        }
    }
}

impl SandboxLaunchPolicy {
    /// The confinement of one launch. On macOS the shell and the curated runtime
    /// are promoted to the executable tier.
    pub fn launch_config(&self, workspace: &str, launch_temp: &str, runtime: &RuntimePaths) -> (r:
        EngineConfig)
        ensures
            forall|input: LaunchInput, dirs: LaunchDirs|
                input.policy == self@ && input.runtime == runtime_of(
                    runtime.shell@,
                    runtime.curated@,
                ) && dirs.workspace == workspace@ && dirs.launch_temp == launch_temp@ ==> r@
                    == #[trigger] config_of(input, dirs),
    {
        let mut config = self.engine_config(workspace, launch_temp);
        if self.platform() == Platform::Macos {
            promote_runtime_grants(&mut config, runtime.shell.as_str(), &runtime.curated);
        }
        config
    }

    /// Launch one process: perform every step that applies, in order, until one
    /// fails. Each step is handed what the steps before it resolved and built:
    /// the confinement and the command name the same directories.
    pub fn launch<F: Fn(LaunchStep, &Prepared) -> Result<StepGain, LaunchError>>(
        &self,
        operation: &LaunchOperation,
        pty: &Option<PtySpec>,
        overrides: &EnvMap,
        runtime: &RuntimePaths,
        perform: &F,
    ) -> (r: Result<u64, FailedLaunch>)
        requires
            forall|step: LaunchStep, handed: &Prepared, dirs: LaunchDirs| #[trigger]
                step_due(
                    *perform,
                    input_of(self@, operation@, *pty, overrides@, *runtime),
                    dirs,
                    step,
                    handed@,
                ) ==> perform.requires((step, handed)),
        ensures
            match r {
                Ok(window_revision) => window_revision == revision_of(*pty) && launched(
                    *perform,
                    input_of(self@, operation@, *pty, overrides@, *runtime),
                ),
                Err(failure) => launch_failed(
                    failure,
                    *perform,
                    input_of(self@, operation@, *pty, overrides@, *runtime),
                ),
            },
    {
        let ghost input = input_of(self@, operation@, *pty, overrides@, *runtime);
        let ghost mut dirs = LaunchDirs { workspace: seq![], launch_temp: seq![] };
        let platform = self.platform();
        let mut prepared = Prepared {
            workspace: None,
            launch_temp: None,
            config: None,
            command: None,
        };
        let mut step = LaunchStep::ResolveWorkspace;
        loop
            invariant
                input == input_of(self@, operation@, *pty, overrides@, *runtime),
                platform == self@.platform,
                applies(step, platform, pty is Some),
                forall|step: LaunchStep, handed: &Prepared, dirs: LaunchDirs| #[trigger]
                    step_due(*perform, input, dirs, step, handed@) ==> perform.requires(
                        (step, handed),
                    ),
                done_before(*perform, input, dirs, rank(step)),
                prepared@ == prepared_for(step, input, dirs),
            decreases 15 - rank(step),
        {
            let ghost before = dirs;
            let outcome: Result<(), LaunchError> = if step == LaunchStep::BuildCommand {
                match (&prepared.workspace, &prepared.launch_temp) {
                    (Some(workspace), Some(launch_temp)) => {
                        match self.launch_command(
                            operation,
                            pty,
                            workspace.as_str(),
                            launch_temp.as_str(),
                            overrides,
                        ) {
                            Ok(command) => {
                                prepared.command = Some(command);
                                Ok(())
                            },
                            Err(error) => Err(error),
                        }
                    },
                    _ => {
                        proof {
                            assert(false);
                        }
                        Ok(())
                    },
                }
            } else {
                let ghost handed: &Prepared = &prepared;
                assert(step_due(*perform, input, dirs, step, handed@));
                let gained = perform(step, &prepared);
                let ghost seen = gained;
                proof {
                    assert(perform.ensures((step, handed), seen));
                    assert(stepped(*perform, step, prepared_for(step, input, dirs), seen));
                }
                match gained {
                    Err(own) => Err(own),
                    Ok(gain) => match step {
                        LaunchStep::ResolveWorkspace => {
                            let resolved = match gain {
                                StepGain::Workspace { path, is_dir } => Some((path, is_dir)),
                                _ => None,
                            };
                            match check_workspace(resolved) {
                                Ok(workspace) => {
                                    proof {
                                        dirs = LaunchDirs { workspace: workspace@, ..dirs };
                                    }
                                    prepared.workspace = Some(workspace);
                                    Ok(())
                                },
                                Err(error) => Err(error),
                            }
                        },
                        LaunchStep::ResolveTemp => {
                            match gain {
                                StepGain::Temp { path } => {
                                    proof {
                                        dirs = LaunchDirs { launch_temp: path@, ..dirs };
                                    }
                                    if let Some(workspace) = &prepared.workspace {
                                        let config = self.launch_config(
                                            workspace.as_str(),
                                            path.as_str(),
                                            runtime,
                                        );
                                        assert(config@ == config_of(input, dirs));
                                        prepared.config = Some(config);
                                    }
                                    prepared.launch_temp = Some(path);
                                    Ok(())
                                },
                                _ => Err(
                                    LaunchError::new(
                                        "sandbox launch temp directory became unavailable",
                                    ),
                                ),
                            }
                        },
                        _ => Ok(()),
                    },
                }
            };
            let ghost settled = outcome;
            proof {
                launches_make_progress(step, platform, pty is Some);
                if settled is Ok {
                    assert(step_done(*perform, input, dirs, step));
                } else {
                    assert(dirs == before);
                    assert(step_failed(
                        *perform,
                        input,
                        dirs,
                        step,
                        step_error(step, settled->Err_0@),
                    ));
                }
            }
            match advance(step, platform, pty, outcome) {
                Verdict::Continue(next) => {
                    proof {
                        assert forall|between: LaunchStep|
                            rank(step) < #[trigger] rank(between) < rank(next) implies !applies(
                            between,
                            platform,
                            pty is Some,
                        ) by {
                            if applies(between, platform, pty is Some) {
                                launches_skip_nothing(step, platform, pty is Some, between);
                            }
                        }
                        lemma_steps_keep_earlier_work(
                            *perform,
                            input,
                            before,
                            step,
                            dirs,
                            rank(next),
                        );
                    }
                    step = next;
                },
                Verdict::Launched { window_revision } => {
                    proof {
                        assert forall|between: LaunchStep|
                            rank(step) < #[trigger] rank(between) < 15 implies !applies(
                            between,
                            platform,
                            pty is Some,
                        ) by {
                            if applies(between, platform, pty is Some) {
                                launches_skip_nothing(step, platform, pty is Some, between);
                            }
                        }
                        lemma_steps_keep_earlier_work(*perform, input, before, step, dirs, 15);
                        assert(done_before(*perform, input, dirs, 15));
                    }
                    return Ok(window_revision);
                },
                Verdict::Failed { error, give_back } => {
                    let failure = FailedLaunch { error, give_back };
                    proof {
                        assert(failed_at(failure, *perform, input, dirs, step));
                    }
                    return Err(failure);
                },
            }
        }
    }
}

// ---------------------------------------------------------------------------
// What a launch is made of

/// A launcher works exactly where its engine does: Linux needs Landlock and a
/// cgroup hierarchy, with ABI 4 for a disabled network; macOS needs Seatbelt
/// and cannot limit CPU or swap; nothing else is supported.
pub proof fn launchers_need_their_engine(policy: PolicyView, engine: EngineCapabilities)
    ensures
        launcher_problem(policy, engine) is None <==> {
            ||| {
                &&& policy.platform == Platform::Linux
                &&& engine.landlock_abi matches Some(abi) && (policy.network
                    == NetworkMode::Disabled ==> abi >= 4)
                &&& engine.cgroup_v2
            }
            ||| {
                &&& policy.platform == Platform::Macos
                &&& engine.seatbelt
                &&& policy.resources.cpu_quota_micros is None
                &&& policy.resources.swap_bytes is None
            }
        },
{
}

/// Promotion moves exactly the readable runtime paths to the executable ones:
/// nothing is lost, nothing is gained, and nothing becomes writable.
pub proof fn promotion_moves_runtime_paths(
    filesystem: FilesystemView,
    shell: Seq<char>,
    curated: Seq<Option<String>>,
    path: Seq<char>,
)
    ensures
        ({
            let after = promoted(filesystem, runtime_of(shell, curated));
            let runtime = path == shell || exists|i: int|
                0 <= i < curated.len() && text::optional(#[trigger] curated[i]) == Some(path);
            &&& after.read_only.contains(path) <==> filesystem.read_only.contains(path) && !runtime
            &&& after.execute.contains(path) <==> filesystem.execute.contains(path) || (
            filesystem.read_only.contains(path) && runtime)
            &&& after.read_write == filesystem.read_write
        }),
{
    let runtime = runtime_of(shell, curated);
    let moved = rules_of(filesystem.read_only, runtime, true);
    let execute = filesystem.execute + moved;
    lemma_rules(filesystem.read_only, runtime, false, path);
    lemma_rules(filesystem.read_only, runtime, true, path);
    if filesystem.execute.contains(path) {
        let k = choose|k: int|
            0 <= k < filesystem.execute.len() && filesystem.execute[k] == path;
        assert(execute[k] == path);
    }
    if moved.contains(path) {
        let k = choose|k: int| 0 <= k < moved.len() && moved[k] == path;
        assert(execute[filesystem.execute.len() + k] == path);
    }
    if execute.contains(path) {
        let k = choose|k: int| 0 <= k < execute.len() && execute[k] == path;
        if k < filesystem.execute.len() {
            assert(filesystem.execute[k] == path);
        } else {
            assert(moved[k - filesystem.execute.len()] == path);
        }
    }
}

/// The order of a launch: the directories come first, the domain and the
/// command before the terminal, the terminal before the child, and the child is
/// identified before its terminal is handed out and waited for last.
pub proof fn launch_steps_are_ordered(step: LaunchStep)
    ensures
        rank(LaunchStep::ResolveWorkspace) < rank(LaunchStep::CreateTemp) < rank(
            LaunchStep::ResolveTemp,
        ) < rank(LaunchStep::JoinDomain) < rank(LaunchStep::BuildCommand) < rank(
            LaunchStep::LockSpawn,
        ) < rank(LaunchStep::OpenPty) < rank(LaunchStep::ReserveTerminal) < rank(
            LaunchStep::Spawn,
        ) < rank(LaunchStep::IdentifyChild) < rank(LaunchStep::DuplicateReader) < rank(
            LaunchStep::DuplicateWriter,
        ) < rank(LaunchStep::OpenWriter) < rank(LaunchStep::OpenReader) < rank(
            LaunchStep::StartWaiter,
        ),
        rank(LaunchStep::ResolveWorkspace) <= rank(step) <= rank(LaunchStep::StartWaiter),
{
}

/// Only joining a domain depends on the platform, and only the terminal steps
/// depend on a terminal; every other step is part of every launch.
pub proof fn steps_apply_where_they_must(step: LaunchStep, platform: Platform, pty: bool)
    ensures
        applies(step, platform, pty) <==> {
            &&& step == LaunchStep::JoinDomain ==> platform == Platform::Linux
            &&& (step == LaunchStep::OpenPty || step == LaunchStep::ReserveTerminal || step
                == LaunchStep::DuplicateReader || step == LaunchStep::DuplicateWriter || step
                == LaunchStep::OpenWriter || step == LaunchStep::OpenReader) ==> pty
        },
{
}

/// A failed launch gives back exactly what the steps before it took: the temp
/// directory, the domain on Linux, the spawn lock, the terminal if there is one,
/// and the child, which is ended only once everything but its waiter is there.
pub proof fn every_taken_resource_is_given_back(step: LaunchStep, platform: Platform, pty: bool)
    ensures
        ({
            let back = held(step, platform, pty);
            &&& back.temp <==> step != LaunchStep::ResolveWorkspace && step
                != LaunchStep::CreateTemp
            &&& back.domain <==> platform == Platform::Linux && rank(step) >= rank(
                LaunchStep::BuildCommand,
            )
            &&& back.spawn_lock <==> rank(step) >= rank(LaunchStep::OpenPty)
            &&& back.terminal <==> pty && rank(step) >= rank(LaunchStep::ReserveTerminal)
            &&& back.child <==> rank(step) >= rank(LaunchStep::IdentifyChild)
            &&& back.terminate <==> step == LaunchStep::StartWaiter
        }),
{
}

/// A step that fails with a report of its own passes it on: the temp directory,
/// the domain, the command, and the child. Every other failure is described by
/// its step alone.
pub proof fn failures_are_described_by_their_step(
    step: LaunchStep,
    own: LaunchErrorView,
    other: LaunchErrorView,
)
    ensures
        if step == LaunchStep::CreateTemp || step == LaunchStep::JoinDomain || step
            == LaunchStep::BuildCommand || step == LaunchStep::Spawn {
            step_error(step, own) == own
        } else {
            step_error(step, own) == step_error(step, other)
        },
{
}

/// A launch is complete exactly after its waiter was started, and reports the
/// revision of the window it was asked for; every earlier success goes on to a
/// later step, and every failure ends the launch.
pub proof fn launches_end_with_their_waiter(
    step: LaunchStep,
    platform: Platform,
    pty: Option<PtySpec>,
    outcome: Result<(), LaunchError>,
)
    ensures
        verdict(step, platform, pty, outcome) is Failed <==> outcome is Err,
        verdict(step, platform, pty, outcome) is Launched <==> outcome is Ok && step
            == LaunchStep::StartWaiter,
        verdict(step, platform, pty, outcome) matches VerdictView::Continue(next) ==> rank(next)
            > rank(step),
        verdict(step, platform, pty, outcome) matches VerdictView::Launched { window_revision }
            ==> match pty {
            Some(pty) => window_revision == pty.window_revision,
            None => window_revision == 0,
        },
{
    launches_make_progress(step, platform, pty is Some);
    if step != LaunchStep::StartWaiter {
        launches_skip_nothing(step, platform, pty is Some, LaunchStep::StartWaiter);
    }
}

/// A step counts as done only with what it had to find: the workspace as a
/// directory, and the temp directory.
pub proof fn steps_need_their_findings(step: LaunchStep, outcome: Result<StepGain, LaunchError>)
    ensures
        outcome_error(step, outcome) is None <==> {
            &&& outcome is Ok
            &&& step == LaunchStep::ResolveWorkspace ==> (outcome->Ok_0 matches StepGain::Workspace {
                is_dir,
                ..
            } && is_dir)
            &&& step == LaunchStep::ResolveTemp ==> outcome->Ok_0 is Temp
        },
{
}

/// A launched process runs the policy's shell in its workspace, with its
/// workspace and its temp directory in its environment and a terminal exactly
/// where one was asked for; its confinement lets it write to those two
/// directories.
pub proof fn processes_run_in_their_directories(input: LaunchInput, dirs: LaunchDirs)
    ensures
        built(input, dirs) matches Ok(command) ==> {
            &&& command.program == input.policy.shell
            &&& command.cwd == dirs.workspace
            &&& environment::value_in(command.env, "TMPDIR"@) == Some(dirs.launch_temp)
            &&& input.pty matches Some(pty) ==> environment::value_in(command.env, "TERM"@) == Some(
                pty.term@,
            )
            &&& !environment::names(input.overrides, "HOME"@) ==> environment::value_in(
                command.env,
                "HOME"@,
            ) == Some(dirs.workspace)
            &&& (command.streams is Terminal <==> input.pty is Some)
            &&& (command.session is NewSessionWithControllingTerminal <==> input.pty is Some)
        },
        config_of(input, dirs).filesystem.read_write.contains(dirs.workspace),
        config_of(input, dirs).filesystem.read_write.contains(dirs.launch_temp),
        input.policy.platform != Platform::Macos ==> config_of(input, dirs)
            == input.policy.engine_config(dirs.workspace, dirs.launch_temp, None),
        config_of(input, dirs).network == input.policy.engine_config(
            dirs.workspace,
            dirs.launch_temp,
            None,
        ).network,
        config_of(input, dirs).resources == input.policy.engine_config(
            dirs.workspace,
            dirs.launch_temp,
            None,
        ).resources,
{
    environment::term_and_tmpdir_are_authoritative(
        input.policy,
        dirs.workspace,
        term_of(input.pty),
        Some(dirs.launch_temp),
        input.overrides,
    );
    environment::processes_start_in_their_workspace(
        input.policy,
        dirs.workspace,
        term_of(input.pty),
        Some(dirs.launch_temp),
        input.overrides,
    );
    policy::writes_stay_in_the_launch(
        input.policy,
        dirs.workspace,
        dirs.launch_temp,
        None,
        dirs.workspace,
    );
    policy::writes_stay_in_the_launch(
        input.policy,
        dirs.workspace,
        dirs.launch_temp,
        None,
        dirs.launch_temp,
    );
}

/// Each step finds prepared what the steps before it made: the workspace from
/// the first step on, the temp directory and the confinement once it is
/// resolved, and the command once it is built.
pub proof fn steps_find_what_came_before(step: LaunchStep, input: LaunchInput, dirs: LaunchDirs)
    ensures
        ({
            let prepared = prepared_for(step, input, dirs);
            &&& prepared.workspace == if step == LaunchStep::ResolveWorkspace {
                None
            } else {
                Some(dirs.workspace)
            }
            &&& prepared.launch_temp is Some <==> rank(step) >= rank(LaunchStep::JoinDomain)
            &&& prepared.launch_temp matches Some(path) ==> path == dirs.launch_temp
            &&& prepared.config is Some <==> prepared.launch_temp is Some
            &&& prepared.config matches Some(config) ==> config == config_of(input, dirs)
            &&& prepared.command is Some <==> rank(step) >= rank(LaunchStep::LockSpawn)
            &&& prepared.command matches Some(command) ==> (built(input, dirs) matches Ok(made)
                ==> command == made)
        }),
{
}

/// A workspace is used exactly when it was found as a directory.
pub proof fn workspaces_are_directories(
    found: Option<(String, bool)>,
    r: Result<String, LaunchError>,
)
    requires
        call_ensures(check_workspace, (found,), r),
    ensures
        r is Ok <==> (found matches Some(entry) && entry.1),
        r matches Ok(path) ==> found->Some_0.0 == path,
{
}

} // verus!
