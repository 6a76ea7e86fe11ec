//! Backend-neutral sandbox launch policy.
//!
//! This module is the single owner of what the daemon allows: the configured
//! shell, the network mode, the curated readable system paths, the per-launch
//! writable workspace, and the private runtime temporary directory. Every
//! writable location is granted per launch, never in the base policy.

use crate::config::{Config, NetworkMode, SandboxResources};
use crate::env::{self, EnvMap};
use crate::paths;
use crate::platform::curated::{self, Platform, ReadPathClass};
use crate::platform::engine::{
    self, CapabilityPolicy, CpuMax, EngineConfig, EngineView, FilesystemPolicy, FilesystemView,
    IdentityPolicy, IsolatedIdentity, NamespacePolicy, NetworkNamespacePolicy, ResourceLimits,
    SandboxNetwork, SyscallPolicy,
};
use crate::text;
use vstd::prelude::*;

verus! {

/// The identity mode of ordinary sandboxes.
#[derive(Debug, Clone, Copy, PartialEq, Eq, Structural)]
pub enum SandboxIdentity {
    /// The daemon's own host identity.
    Host,
    /// A durable subordinate identity per sandbox.
    Isolated,
}

// ---------------------------------------------------------------------------
// Filesystem tiers

/// Whether a curated class belongs to the executable tier.
pub open spec fn is_runtime(class: ReadPathClass) -> bool {
    class == ReadPathClass::ExecutableRuntime
}

/// The curated paths of one tier, in list order.
pub open spec fn curated_tier(list: curated::Curated, runtime: bool) -> Seq<Seq<char>>
    decreases list.len(),
{
    if list.len() == 0 {
        seq![]
    } else {
        let rest = curated_tier(list.drop_last(), runtime);
        if is_runtime(list.last().1) == runtime {
            rest.push(list.last().0)
        } else {
            rest
        }
    }
}

/// The paths a policy asks to make readable.
pub open spec fn read_candidates(platform: Platform, read_paths: Seq<Seq<char>>) -> Seq<Seq<char>> {
    curated_tier(curated::reads(platform), false) + read_paths
}

/// The paths a policy asks to make executable: the curated runtime, the shell,
/// and the shell's directory.
pub open spec fn execute_candidates(platform: Platform, shell: Seq<char>) -> Seq<Seq<char>> {
    let tier = curated_tier(curated::reads(platform), true).push(shell);
    match paths::parent_of(shell) {
        Some(parent) => tier.push(parent),
        None => tier,
    }
}

fn curated_paths(platform: Platform, runtime: bool) -> (r: Vec<String>)
    ensures
        text::texts(r@) == curated_tier(curated::reads(platform), runtime),
{
    let list = curated::curated_read_paths(platform);
    let ghost all = curated::entries(list@);
    let mut out: Vec<String> = Vec::new();
    let mut i: usize = 0;
    assert(text::texts(out@) =~= curated_tier(all.take(0), runtime));
    while i < list.len()
        invariant
            i <= list@.len(),
            all == curated::entries(list@),
            text::texts(out@) == curated_tier(all.take(i as int), runtime),
        decreases list@.len() - i,
    {
        let entry = list[i];
        proof {
            assert(all.take(i + 1).drop_last() =~= all.take(i as int));
            assert(all.take(i + 1).last() == all[i as int]);
        }
        if (entry.1 == ReadPathClass::ExecutableRuntime) == runtime {
            let path = entry.0.to_owned();
            proof {
                assert(text::texts(out@.push(path)) =~= text::texts(out@).push(path@));
            }
            out.push(path);
        }
        i = i + 1;
    }
    assert(all.take(all.len() as int) =~= all);
    out
}

/// The paths a policy asks to make readable.
pub fn readable_paths(platform: Platform, read_paths: &Vec<String>) -> (r: Vec<String>)
    ensures
        text::texts(r@) == read_candidates(platform, text::texts(read_paths@)),
{
    let mut out = curated_paths(platform, false);
    let ghost start = text::texts(out@);
    let ghost added = text::texts(read_paths@);
    let mut i: usize = 0;
    assert(start + added.take(0) =~= start);
    while i < read_paths.len()
        invariant
            i <= read_paths@.len(),
            added == text::texts(read_paths@),
            text::texts(out@) == start + added.take(i as int),
        decreases read_paths@.len() - i,
    {
        let path = read_paths[i].clone();
        proof {
            assert(added.take(i + 1) =~= added.take(i as int).push(path@));
            assert(text::texts(out@.push(path)) =~= text::texts(out@).push(path@));
            assert((start + added.take(i as int)).push(path@) =~= start + added.take(i + 1));
        }
        out.push(path);
        i = i + 1;
    }
    assert(added.take(added.len() as int) =~= added);
    out
}

/// The paths a policy asks to make executable.
pub fn executable_paths(platform: Platform, shell: &str) -> (r: Vec<String>)
    ensures
        text::texts(r@) == execute_candidates(platform, shell@),
{
    let mut out = curated_paths(platform, true);
    let path = shell.to_owned();
    proof {
        assert(text::texts(out@.push(path)) =~= text::texts(out@).push(path@));
    }
    out.push(path);
    match paths::parent(shell) {
        Some(parent) => {
            proof {
                assert(text::texts(out@.push(parent)) =~= text::texts(out@).push(parent@));
            }
            out.push(parent);
        },
        None => {},
    }
    out
}

/// The canonical paths among the answers of the filesystem.
pub open spec fn present(answers: Seq<Option<String>>) -> Set<Seq<char>> {
    Set::new(
        |path: Seq<char>|
            exists|i: int|
                0 <= i < answers.len() && text::optional(#[trigger] answers[i]) == Some(path),
    )
}

/// The filesystem was asked about every candidate, and these are its answers.
pub open spec fn answered<F: Fn(&String) -> Option<String>>(
    candidates: Seq<String>,
    canonicalize: F,
    answers: Seq<Option<String>>,
) -> bool {
    &&& answers.len() == candidates.len()
    &&& forall|i: int|
        0 <= i < candidates.len() ==> canonicalize.ensures(
            (&candidates[i],),
            #[trigger] answers[i],
        )
}

/// A tier holds exactly the canonical forms of the candidates that exist,
/// sorted, each once.
pub open spec fn is_tier<F: Fn(&String) -> Option<String>>(
    tier: Seq<Seq<char>>,
    candidates: Seq<Seq<char>>,
    canonicalize: F,
) -> bool {
    exists|asked: Seq<String>, answers: Seq<Option<String>>|
        text::texts(asked) == candidates && #[trigger] answered(asked, canonicalize, answers)
            && paths::sorts(tier, present(answers))
}

/// Keep the candidates that exist, in canonical form, sorted, each once.
/// `canonicalize` answers with the canonical form of a path that exists.
pub fn canonicalize_existing_paths<F: Fn(&String) -> Option<String>>(
    candidates: &Vec<String>,
    canonicalize: &F,
) -> (r: Vec<String>)
    requires
        forall|path: &String|
            text::texts(candidates@).contains(path@) ==> #[trigger] canonicalize.requires((path,)),
    ensures
        is_tier(text::texts(r@), text::texts(candidates@), *canonicalize),
{
    let mut out: Vec<String> = Vec::new();
    let ghost mut answers: Seq<Option<String>> = seq![];
    let mut i: usize = 0;
    assert(text::texts(out@) =~= Seq::<Seq<char>>::empty());
    while i < candidates.len()
        invariant
            i <= candidates@.len(),
            answers.len() == i,
            forall|path: &String|
                text::texts(candidates@).contains(path@) ==> #[trigger] canonicalize.requires(
                    (path,),
                ),
            forall|k: int|
                0 <= k < i ==> canonicalize.ensures(
                    (&candidates@[k],),
                    #[trigger] answers[k],
                ),
            paths::sorts(text::texts(out@), present(answers)),
        decreases candidates@.len() - i,
    {
        assert(text::texts(candidates@)[i as int] == candidates@[i as int]@);
        let answer = canonicalize(&candidates[i]);
        let ghost earlier = answers;
        let ghost held = text::texts(out@);
        proof {
            answers = answers.push(answer);
            assert forall|path: Seq<char>| #[trigger] present(answers).contains(path) <==> present(
                earlier,
            ).contains(path) || text::optional(answer) == Some(path) by {
                if present(answers).contains(path) {
                    let k = choose|k: int|
                        0 <= k < answers.len() && text::optional(#[trigger] answers[k]) == Some(
                            path,
                        );
                    if k < earlier.len() {
                        assert(earlier[k] == answers[k]);
                    }
                }
                if present(earlier).contains(path) {
                    let k = choose|k: int|
                        0 <= k < earlier.len() && text::optional(#[trigger] earlier[k]) == Some(
                            path,
                        );
                    assert(answers[k] == earlier[k]);
                }
                assert(answers[earlier.len() as int] == answer);
            }
        }
        match answer {
            Some(path) => {
                paths::insert_sorted(&mut out, path);
            },
            None => {},
        }
        i = i + 1;
    }
    proof {
        assert(answered(candidates@, *canonicalize, answers));
    }
    out
}

// ---------------------------------------------------------------------------
// The policy

/// The immutable, process-lifetime launch policy snapshot.
///
/// The curated and operator-configured read paths are resolved, sorted, and
/// deduplicated once when the snapshot is built. Workspace and launch-temp
/// grants stay request-local and are never stored here.
#[derive(Debug)]
pub struct SandboxLaunchPolicy {
    platform: Platform,
    shell: String,
    network: NetworkMode,
    sandbox_env: EnvMap,
    temp_root: String,
    resources: SandboxResources,
    cgroup_parent: Option<String>,
    identity: SandboxIdentity,
    read_only: Vec<String>,
    execute: Vec<String>,
}

/// The contents of a [`SandboxLaunchPolicy`].
pub struct PolicyView {
    pub platform: Platform,
    pub shell: Seq<char>,
    pub network: NetworkMode,
    pub sandbox_env: env::Entries,
    pub temp_root: Seq<char>,
    pub resources: SandboxResources,
    pub cgroup_parent: Option<Seq<char>>,
    pub identity: SandboxIdentity,
    pub read_only: Seq<Seq<char>>,
    pub execute: Seq<Seq<char>>,
}

impl View for SandboxLaunchPolicy {
    type V = PolicyView;

    closed spec fn view(&self) -> PolicyView {
        PolicyView {
            platform: self.platform,
            shell: self.shell@,
            network: self.network,
            sandbox_env: self.sandbox_env@,
            temp_root: self.temp_root@,
            resources: self.resources,
            cgroup_parent: text::optional(self.cgroup_parent),
            identity: self.identity,
            read_only: text::texts(self.read_only@),
            execute: text::texts(self.execute@),
        }
    }
}

/// The paths without the writable device paths.
pub open spec fn without_writes(list: Seq<Seq<char>>, platform: Platform) -> Seq<Seq<char>>
    decreases list.len(),
{
    if list.len() == 0 {
        seq![]
    } else {
        let rest = without_writes(list.drop_last(), platform);
        if curated::writes(platform).contains(list.last()) {
            rest
        } else {
            rest.push(list.last())
        }
    }
}

/// The engine's network policy. On Linux `outbound` keeps unrestricted
/// networking; on macOS it maps to the client-only TCP tier.
pub open spec fn network_of(platform: Platform, mode: NetworkMode) -> SandboxNetwork {
    match mode {
        NetworkMode::Disabled => SandboxNetwork::Disabled,
        NetworkMode::Outbound => match platform {
            Platform::Macos => SandboxNetwork::OutboundTcp,
            _ => SandboxNetwork::Unrestricted,
        },
    }
}

/// The namespaces of a launch: Linux isolates a disabled network.
pub open spec fn namespaces_of(platform: Platform, mode: NetworkMode) -> NamespacePolicy {
    NamespacePolicy {
        network: if platform == Platform::Linux && mode == NetworkMode::Disabled {
            NetworkNamespacePolicy::Isolated
        } else {
            NetworkNamespacePolicy::Host
        },
    }
}

/// The process identity of a launch. A missing lease in isolated mode produces
/// an invalid zero-ID identity, so that the engine fails closed.
pub open spec fn identity_of(
    platform: Platform,
    mode: NetworkMode,
    identity: SandboxIdentity,
    lease: Option<IsolatedIdentity>,
) -> IdentityPolicy {
    if platform != Platform::Linux {
        IdentityPolicy::Host
    } else {
        match identity {
            SandboxIdentity::Isolated => IdentityPolicy::Isolated(
                match lease {
                    Some(lease) => lease,
                    None => IsolatedIdentity {
                        runtime_uid: 1000,
                        runtime_gid: 1000,
                        host_uid: 0,
                        host_gid: 0,
                    },
                },
            ),
            SandboxIdentity::Host => match mode {
                NetworkMode::Disabled => IdentityPolicy::CallerMappedRoot,
                NetworkMode::Outbound => IdentityPolicy::Host,
            },
        }
    }
}

/// The engine's resource limits.
pub open spec fn limits_of(resources: SandboxResources) -> ResourceLimits {
    ResourceLimits {
        memory_bytes: engine::limit_of(resources.memory_bytes),
        swap_bytes: engine::limit_of(resources.swap_bytes),
        pids: engine::limit_of(resources.pids),
        cpu_max: match resources.cpu_quota_micros {
            None => engine::Limit::Inherit,
            Some(quota) => engine::Limit::Value(
                CpuMax {
                    quota_us: quota,
                    period_us: match resources.cpu_period_micros {
                        Some(period) => period,
                        None => 100_000,
                    },
                },
            ),
        },
    }
}

impl PolicyView {
    /// The engine configuration of one launch.
    pub open spec fn engine_config(
        self,
        workspace: Seq<char>,
        launch_temp: Seq<char>,
        lease: Option<IsolatedIdentity>,
    ) -> EngineView {
        EngineView {
            filesystem: FilesystemView {
                read_only: without_writes(self.read_only, self.platform),
                read_write: curated::writes(self.platform) + seq![workspace, launch_temp],
                execute: self.execute,
            },
            network: network_of(self.platform, self.network),
            resources: limits_of(self.resources),
            syscalls: SyscallPolicy::Unrestricted,
            namespaces: namespaces_of(self.platform, self.network),
            identity: identity_of(self.platform, self.network, self.identity, lease),
            capabilities: CapabilityPolicy::DropAll,
            inherited_fds: seq![],
            cgroup_parent: self.cgroup_parent,
        }
    }
}

impl SandboxLaunchPolicy {
    /// Combine the file-backed config with the validated shell and the runtime
    /// temp root into one immutable launch snapshot.
    pub fn from_config<F: Fn(&String) -> Option<String>>(
        platform: Platform,
        config: &Config,
        identity: SandboxIdentity,
        shell: String,
        temp_root: String,
        canonicalize: &F,
    ) -> (r: SandboxLaunchPolicy)
        requires
            forall|path: &String|
                read_candidates(platform, config@.read_paths).contains(path@) || execute_candidates(
                    platform,
                    shell@,
                ).contains(path@) ==> #[trigger] canonicalize.requires((path,)),
        ensures
            r@ == (PolicyView {
                platform,
                shell: shell@,
                network: config@.network,
                sandbox_env: config@.sandbox_env,
                temp_root: temp_root@,
                resources: config@.resources,
                cgroup_parent: config@.cgroup_parent,
                identity,
                read_only: r@.read_only,
                execute: r@.execute,
            }),
            is_tier(
                r@.read_only,
                read_candidates(platform, config@.read_paths),
                *canonicalize,
            ),
            is_tier(r@.execute, execute_candidates(platform, shell@), *canonicalize),
    {
        let cgroup_parent = match config.cgroup_parent() {
            Some(path) => Some(path.to_owned()),
            None => None,
        };
        let mut policy = SandboxLaunchPolicy::from_parts(
            platform,
            shell,
            config.network(),
            config.read_paths(),
            config.sandbox_env().copy(),
            temp_root,
            *config.resources(),
            cgroup_parent,
            canonicalize,
        );
        policy.identity = identity;
        policy
    }

    /// Assemble a policy from explicit parts, with the host identity. The
    /// filesystem tiers are resolved here, once.
    pub fn from_parts<F: Fn(&String) -> Option<String>>(
        platform: Platform,
        shell: String,
        network: NetworkMode,
        read_paths: &Vec<String>,
        sandbox_env: EnvMap,
        temp_root: String,
        resources: SandboxResources,
        cgroup_parent: Option<String>,
        canonicalize: &F,
    ) -> (r: SandboxLaunchPolicy)
        requires
            forall|path: &String|
                read_candidates(platform, text::texts(read_paths@)).contains(path@)
                    || execute_candidates(platform, shell@).contains(path@)
                    ==> #[trigger] canonicalize.requires((path,)),
        ensures
            r@ == (PolicyView {
                platform,
                shell: shell@,
                network,
                sandbox_env: sandbox_env@,
                temp_root: temp_root@,
                resources,
                cgroup_parent: text::optional(cgroup_parent),
                identity: SandboxIdentity::Host,
                read_only: r@.read_only,
                execute: r@.execute,
            }),
            is_tier(
                r@.read_only,
                read_candidates(platform, text::texts(read_paths@)),
                *canonicalize,
            ),
            is_tier(r@.execute, execute_candidates(platform, shell@), *canonicalize),
    {
        let readable = readable_paths(platform, read_paths);
        let executable = executable_paths(platform, shell.as_str());
        let read_only = canonicalize_existing_paths(&readable, canonicalize);
        let execute = canonicalize_existing_paths(&executable, canonicalize);
        SandboxLaunchPolicy {
            platform,
            shell,
            network,
            sandbox_env,
            temp_root,
            resources,
            cgroup_parent,
            identity: SandboxIdentity::Host,
            read_only,
            execute,
        }
    }

    /// The platform the policy is for.
    pub fn platform(&self) -> (r: Platform)
        ensures
            r == self@.platform,
    {
        self.platform
    }

    /// The sandbox shell.
    pub fn shell(&self) -> (r: &str)
        ensures
            r@ == self@.shell,
    {
        self.shell.as_str()
    }

    /// The network mode.
    pub fn network(&self) -> (r: NetworkMode)
        ensures
            r == self@.network,
    {
        self.network
    }

    /// The operator environment.
    pub fn sandbox_env(&self) -> (r: &EnvMap)
        ensures
            r@ == self@.sandbox_env,
    {
        &self.sandbox_env
    }

    /// The operator-specified resource limits.
    pub fn resources(&self) -> (r: &SandboxResources)
        ensures
            *r == self@.resources,
    {
        &self.resources
    }

    /// The configured identity mode.
    pub fn identity(&self) -> (r: SandboxIdentity)
        ensures
            r == self@.identity,
    {
        self.identity
    }

    /// The operator-specified cgroup v2 creation parent, if any.
    pub fn cgroup_parent(&self) -> (r: Option<String>)
        ensures
            text::optional(r) == self@.cgroup_parent,
    {
        text::copy_optional(&self.cgroup_parent)
    }

    /// The daemon-owned runtime temp root.
    pub fn temp_root(&self) -> (r: &str)
        ensures
            r@ == self@.temp_root,
    {
        self.temp_root.as_str()
    }

    /// The filesystem tiers resolved at construction: readable and executable.
    pub fn resolved_filesystem_paths(&self) -> (r: (Vec<String>, Vec<String>))
        ensures
            text::texts(r.0@) == self@.read_only,
            text::texts(r.1@) == self@.execute,
    {
        (text::copy_texts(&self.read_only), text::copy_texts(&self.execute))
    }

    /// The writable device paths.
    pub fn curated_write_paths(&self) -> (r: Vec<String>)
        ensures
            text::texts(r@) == curated::writes(self@.platform),
    {
        let list = curated::curated_write_paths(self.platform);
        let ghost all = curated::literals(list@);
        let mut out: Vec<String> = Vec::new();
        let mut i: usize = 0;
        assert(text::texts(out@) =~= all.take(0));
        while i < list.len()
            invariant
                i <= list@.len(),
                all == curated::literals(list@),
                text::texts(out@) == all.take(i as int),
            decreases list@.len() - i,
        {
            let path = list[i].to_owned();
            proof {
                assert(all.take(i + 1) =~= all.take(i as int).push(path@));
                assert(text::texts(out@.push(path)) =~= text::texts(out@).push(path@));
            }
            out.push(path);
            i = i + 1;
        }
        assert(all.take(all.len() as int) =~= all);
        out
    }

    /// Build the engine configuration for one launch without a leased
    /// identity.
    pub fn engine_config(&self, workspace: &str, launch_temp: &str) -> (r: EngineConfig)
        ensures
            r@ == self@.engine_config(workspace@, launch_temp@, None),
    {
        self.engine_config_with_identity(workspace, launch_temp, None)
    }

    /// Build the engine configuration for one launch. This is the single place
    /// where the daemon's policy is resolved into an explicit configuration.
    pub fn engine_config_with_identity(
        &self,
        workspace: &str,
        launch_temp: &str,
        lease: Option<IsolatedIdentity>,
    ) -> (r: EngineConfig)
        ensures
            r@ == self@.engine_config(workspace@, launch_temp@, lease),
    {
        let writes = self.curated_write_paths();
        let read_only = self.readable_without(&writes);
        let execute = text::copy_texts(&self.execute);
        let mut read_write = text::copy_texts(&writes);
        let ghost base = text::texts(read_write@);
        let workspace = workspace.to_owned();
        let launch_temp = launch_temp.to_owned();
        proof {
            assert(text::texts(read_write@.push(workspace).push(launch_temp)) =~= base + seq![
                workspace@,
                launch_temp@,
            ]);
        }
        read_write.push(workspace);
        read_write.push(launch_temp);
        let inherited_fds: Vec<i32> = Vec::new();
        EngineConfig {
            filesystem: FilesystemPolicy { read_only, read_write, execute },
            network: self.engine_network(),
            resources: self.engine_resources(),
            syscalls: SyscallPolicy::Unrestricted,
            namespaces: self.engine_namespaces(),
            identity: self.engine_identity(lease),
            capabilities: CapabilityPolicy::DropAll,
            inherited_fds,
            cgroup_parent: text::copy_optional(&self.cgroup_parent),
        }
    }

    /// The readable tier without the writable device paths: the tiers stay
    /// disjoint.
    fn readable_without(&self, writes: &Vec<String>) -> (r: Vec<String>)
        requires
            text::texts(writes@) == curated::writes(self@.platform),
        ensures
            text::texts(r@) == without_writes(self@.read_only, self@.platform),
    {
        let ghost all = text::texts(self.read_only@);
        let mut out: Vec<String> = Vec::new();
        let mut i: usize = 0;
        assert(text::texts(out@) =~= without_writes(all.take(0), self@.platform));
        while i < self.read_only.len()
            invariant
                i <= self.read_only@.len(),
                all == text::texts(self.read_only@),
                text::texts(writes@) == curated::writes(self@.platform),
                text::texts(out@) == without_writes(all.take(i as int), self@.platform),
            decreases self.read_only@.len() - i,
        {
            proof {
                assert(all.take(i + 1).drop_last() =~= all.take(i as int));
                assert(all.take(i + 1).last() == all[i as int]);
                assert(all[i as int] == self.read_only@[i as int]@);
            }
            if !text::has_text(writes, self.read_only[i].as_str()) {
                let path = self.read_only[i].clone();
                proof {
                    assert(text::texts(out@.push(path)) =~= text::texts(out@).push(path@));
                }
                out.push(path);
            }
            i = i + 1;
        }
        assert(all.take(all.len() as int) =~= all);
        out
    }

    /// Map the operator network mode onto the engine policy.
    pub fn engine_network(&self) -> (r: SandboxNetwork)
        ensures
            r == network_of(self@.platform, self@.network),
    {
        match self.network {
            NetworkMode::Disabled => SandboxNetwork::Disabled,
            NetworkMode::Outbound => match self.platform {
                Platform::Macos => SandboxNetwork::OutboundTcp,
                _ => SandboxNetwork::Unrestricted,
            },
        }
    }

    /// Linux `network = "disabled"` is an all-network contract: a fresh network
    /// namespace removes the remaining host-network reachability.
    pub fn engine_namespaces(&self) -> (r: NamespacePolicy)
        ensures
            r == namespaces_of(self@.platform, self@.network),
    {
        let mut namespaces = NamespacePolicy::default();
        if self.platform == Platform::Linux && self.network == NetworkMode::Disabled {
            namespaces.network = NetworkNamespacePolicy::Isolated;
        }
        namespaces
    }

    /// Process identity for the launch.
    pub fn engine_identity(&self, lease: Option<IsolatedIdentity>) -> (r: IdentityPolicy)
        ensures
            r == identity_of(self@.platform, self@.network, self@.identity, lease),
    {
        if self.platform != Platform::Linux {
            return IdentityPolicy::Host;
        }
        match (self.identity, lease) {
            (SandboxIdentity::Isolated, Some(lease)) => IdentityPolicy::Isolated(lease),
            (SandboxIdentity::Isolated, None) => IdentityPolicy::Isolated(
                IsolatedIdentity {
                    runtime_uid: 1000,
                    runtime_gid: 1000,
                    host_uid: 0,
                    host_gid: 0,
                },
            ),
            (SandboxIdentity::Host, _) => {
                if self.network == NetworkMode::Disabled {
                    IdentityPolicy::CallerMappedRoot
                } else {
                    IdentityPolicy::Host
                }
            },
        }
    }

    /// Map the operator resource limits onto engine limits.
    pub fn engine_resources(&self) -> (r: ResourceLimits)
        ensures
            r == limits_of(self@.resources),
    {
        let resources = self.resources;
        let cpu_max = match resources.cpu_quota_micros {
            None => None,
            Some(quota) => Some(
                CpuMax {
                    quota_us: quota,
                    period_us: match resources.cpu_period_micros {
                        Some(period) => period,
                        None => 100_000,
                    },
                },
            ),
        };
        ResourceLimits {
            memory_bytes: engine::option_limit(resources.memory_bytes),
            swap_bytes: engine::option_limit(resources.swap_bytes),
            pids: engine::option_limit(resources.pids),
            cpu_max: engine::option_limit(cpu_max),
        }
    }
}

// ---------------------------------------------------------------------------
// What the policy promises

proof fn lemma_without_writes(list: Seq<Seq<char>>, platform: Platform, path: Seq<char>)
    ensures
        without_writes(list, platform).contains(path) <==> list.contains(path)
            && !curated::writes(platform).contains(path),
    decreases list.len(),
{
    if list.len() > 0 {
        let short = list.drop_last();
        lemma_without_writes(short, platform, path);
        let rest = without_writes(short, platform);
        let result = without_writes(list, platform);
        if list.contains(path) {
            let k = choose|k: int| 0 <= k < list.len() && list[k] == path;
            if k < short.len() {
                assert(short[k] == path);
            }
        }
        if short.contains(path) {
            let k = choose|k: int| 0 <= k < short.len() && short[k] == path;
            assert(list[k] == path);
        }
        assert(list[list.len() - 1] == list.last());
        if result.contains(path) {
            let k = choose|k: int| 0 <= k < result.len() && result[k] == path;
            if k < rest.len() {
                assert(rest[k] == path);
            }
        }
        if rest.contains(path) {
            let k = choose|k: int| 0 <= k < rest.len() && rest[k] == path;
            assert(result[k] == path);
        }
        if !curated::writes(platform).contains(list.last()) {
            assert(result[rest.len() as int] == list.last());
        }
    }
}

/// A writable device path is never also a read grant, and every other resolved
/// path stays readable.
pub proof fn device_writes_are_not_read_grants(
    policy: PolicyView,
    workspace: Seq<char>,
    launch_temp: Seq<char>,
    lease: Option<IsolatedIdentity>,
    path: Seq<char>,
)
    ensures
        policy.engine_config(workspace, launch_temp, lease).filesystem.read_only.contains(path)
            <==> policy.read_only.contains(path) && !curated::writes(policy.platform).contains(
            path,
        ),
{
    lemma_without_writes(policy.read_only, policy.platform, path);
}

/// A launch may write to its own workspace, its own temp directory, and the
/// curated devices: no sibling is granted.
pub proof fn writes_stay_in_the_launch(
    policy: PolicyView,
    workspace: Seq<char>,
    launch_temp: Seq<char>,
    lease: Option<IsolatedIdentity>,
    path: Seq<char>,
)
    ensures
        policy.engine_config(workspace, launch_temp, lease).filesystem.read_write.contains(path)
            <==> path == workspace || path == launch_temp || curated::writes(
            policy.platform,
        ).contains(path),
{
    let writes = curated::writes(policy.platform);
    let list = policy.engine_config(workspace, launch_temp, lease).filesystem.read_write;
    let n = writes.len() as int;
    assert(list[n] == workspace);
    assert(list[n + 1] == launch_temp);
    if writes.contains(path) {
        let k = choose|k: int| 0 <= k < writes.len() && writes[k] == path;
        assert(list[k] == path);
    }
    if list.contains(path) {
        let k = choose|k: int| 0 <= k < list.len() && list[k] == path;
        if k < n {
            assert(writes[k] == path);
        }
    }
}

/// A disabled network on Linux always runs in a network namespace of its own,
/// and never under an identity that could not create one.
pub proof fn disabled_networks_are_isolated(
    policy: PolicyView,
    workspace: Seq<char>,
    launch_temp: Seq<char>,
    lease: Option<IsolatedIdentity>,
)
    requires
        policy.platform == Platform::Linux,
        policy.network == NetworkMode::Disabled,
    ensures
        ({
            let config = policy.engine_config(workspace, launch_temp, lease);
            &&& config.network == SandboxNetwork::Disabled
            &&& config.namespaces.network == NetworkNamespacePolicy::Isolated
            &&& config.identity != IdentityPolicy::Host
        }),
{
}

/// An isolated sandbox never runs as the daemon's own identity: without a lease
/// it gets host id 0, which the engine refuses.
pub proof fn isolated_sandboxes_need_a_lease(
    policy: PolicyView,
    workspace: Seq<char>,
    launch_temp: Seq<char>,
    lease: Option<IsolatedIdentity>,
)
    requires
        policy.platform == Platform::Linux,
        policy.identity == SandboxIdentity::Isolated,
    ensures
        policy.engine_config(workspace, launch_temp, lease).identity matches IdentityPolicy::Isolated(
            ids,
        ) && (match lease {
            Some(leased) => ids == leased,
            None => ids.host_uid == 0 && ids.host_gid == 0,
        }),
{
}

/// Every configured limit reaches the engine and every absent one is inherited.
/// A CPU limit needs a quota, and runs over the configured period or, without
/// one, over 100 milliseconds.
pub proof fn configured_limits_reach_the_engine(
    policy: PolicyView,
    workspace: Seq<char>,
    launch_temp: Seq<char>,
    lease: Option<IsolatedIdentity>,
)
    ensures
        ({
            let limits = policy.engine_config(workspace, launch_temp, lease).resources;
            let asked = policy.resources;
            &&& forall|n: u64|
                limits.memory_bytes == engine::Limit::Value(n) <==> asked.memory_bytes == Some(n)
            &&& limits.memory_bytes is Inherit <==> asked.memory_bytes is None
            &&& forall|n: u64|
                limits.swap_bytes == engine::Limit::Value(n) <==> asked.swap_bytes == Some(n)
            &&& limits.swap_bytes is Inherit <==> asked.swap_bytes is None
            &&& forall|n: u32|
                limits.pids == engine::Limit::Value(n) <==> asked.pids == Some(n)
            &&& limits.pids is Inherit <==> asked.pids is None
            &&& limits.cpu_max is Inherit <==> asked.cpu_quota_micros is None
            &&& limits.cpu_max matches engine::Limit::Value(cpu) ==> {
                &&& asked.cpu_quota_micros == Some(cpu.quota_us)
                &&& asked.cpu_period_micros is Some ==> asked.cpu_period_micros == Some(
                    cpu.period_us,
                )
                &&& asked.cpu_period_micros is None ==> cpu.period_us == 100_000
            }
        }),
{
}

/// The network of a launch follows the operator's mode: disabled is disabled
/// everywhere, and outbound is the client-only tier on macOS alone. A network
/// namespace comes with a disabled network on Linux and with nothing else.
pub proof fn networks_follow_the_mode(
    policy: PolicyView,
    workspace: Seq<char>,
    launch_temp: Seq<char>,
    lease: Option<IsolatedIdentity>,
)
    ensures
        ({
            let config = policy.engine_config(workspace, launch_temp, lease);
            &&& config.network == SandboxNetwork::Disabled <==> policy.network
                == NetworkMode::Disabled
            &&& config.network == SandboxNetwork::OutboundTcp <==> policy.network
                == NetworkMode::Outbound && policy.platform == Platform::Macos
            &&& config.namespaces.network == NetworkNamespacePolicy::Isolated <==> policy.network
                == NetworkMode::Disabled && policy.platform == Platform::Linux
        }),
{
}

/// The identity of a launch: only Linux changes it. An isolated sandbox runs
/// under the ids of its lease, a host sandbox is mapped to root exactly when its
/// network is disabled, and every other launch keeps the caller's identity.
pub proof fn identities_follow_the_policy(
    policy: PolicyView,
    workspace: Seq<char>,
    launch_temp: Seq<char>,
    lease: Option<IsolatedIdentity>,
)
    ensures
        ({
            let identity = policy.engine_config(workspace, launch_temp, lease).identity;
            &&& identity is Isolated <==> policy.platform == Platform::Linux && policy.identity
                == SandboxIdentity::Isolated
            &&& identity is CallerMappedRoot <==> policy.platform == Platform::Linux
                && policy.identity == SandboxIdentity::Host && policy.network
                == NetworkMode::Disabled
            &&& identity matches IdentityPolicy::Isolated(ids) ==> match lease {
                Some(leased) => ids == leased,
                None => ids.runtime_uid == 1000 && ids.runtime_gid == 1000 && ids.host_uid == 0
                    && ids.host_gid == 0,
            }
        }),
{
}

/// Two launches of one policy differ in their own directories and, on Linux with
/// isolated identities, in the leased ids; everything else is the policy's.
pub proof fn launches_differ_in_their_directories(
    policy: PolicyView,
    workspace: Seq<char>,
    launch_temp: Seq<char>,
    lease: Option<IsolatedIdentity>,
    other_workspace: Seq<char>,
    other_temp: Seq<char>,
    other_lease: Option<IsolatedIdentity>,
)
    ensures
        ({
            let one = policy.engine_config(workspace, launch_temp, lease);
            let two = policy.engine_config(other_workspace, other_temp, other_lease);
            &&& one.filesystem.read_only == two.filesystem.read_only
            &&& one.filesystem.execute == policy.execute
            &&& one.network == two.network
            &&& one.resources == two.resources
            &&& one.namespaces == two.namespaces
            &&& one.cgroup_parent == policy.cgroup_parent
            &&& one.inherited_fds.len() == 0
            &&& one.capabilities == CapabilityPolicy::DropAll
            &&& !(one.identity is Isolated) ==> one.identity == two.identity
        }),
{
}

proof fn lemma_tier(list: curated::Curated, runtime: bool, path: Seq<char>)
    ensures
        curated_tier(list, runtime).contains(path) <==> exists|i: int|
            0 <= i < list.len() && (#[trigger] list[i]).0 == path && (list[i].1
                == ReadPathClass::ExecutableRuntime) == runtime,
    decreases list.len(),
{
    if list.len() > 0 {
        let short = list.drop_last();
        let last = list.last();
        let rest = curated_tier(short, runtime);
        let result = curated_tier(list, runtime);
        lemma_tier(short, runtime, path);
        if exists|i: int|
            0 <= i < list.len() && (#[trigger] list[i]).0 == path && (list[i].1
                == ReadPathClass::ExecutableRuntime) == runtime {
            let i = choose|i: int|
                0 <= i < list.len() && (#[trigger] list[i]).0 == path && (list[i].1
                    == ReadPathClass::ExecutableRuntime) == runtime;
            if i < short.len() {
                assert(short[i] == list[i]);
                let k = choose|k: int| 0 <= k < rest.len() && rest[k] == path;
                assert(result[k] == path);
            } else {
                assert(result[rest.len() as int] == path);
            }
        }
        if result.contains(path) {
            let k = choose|k: int| 0 <= k < result.len() && result[k] == path;
            if k < rest.len() {
                assert(rest[k] == path);
                let i = choose|i: int|
                    0 <= i < short.len() && (#[trigger] short[i]).0 == path && (short[i].1
                        == ReadPathClass::ExecutableRuntime) == runtime;
                assert(list[i].0 == path);
            } else {
                assert(list[list.len() - 1] == last);
            }
        }
    }
}

/// What may be read is the curated data and what the operator names; what may be
/// executed is the curated runtime, the shell, and the directory of the shell.
pub proof fn candidates_are_curated_or_configured(
    platform: Platform,
    read_paths: Seq<Seq<char>>,
    shell: Seq<char>,
    path: Seq<char>,
)
    ensures
        read_candidates(platform, read_paths).contains(path) <==> read_paths.contains(path)
            || is_curated(platform, path, false),
        execute_candidates(platform, shell).contains(path) <==> path == shell || paths::parent_of(
            shell,
        ) == Some(path) || is_curated(platform, path, true),
{
    let data = curated_tier(curated::reads(platform), false);
    let reads = read_candidates(platform, read_paths);
    lemma_tier(curated::reads(platform), false, path);
    lemma_tier(curated::reads(platform), true, path);
    if data.contains(path) {
        let k = choose|k: int| 0 <= k < data.len() && data[k] == path;
        assert(reads[k] == path);
    }
    if read_paths.contains(path) {
        let k = choose|k: int| 0 <= k < read_paths.len() && read_paths[k] == path;
        assert(reads[data.len() + k] == path);
    }
    if reads.contains(path) {
        let k = choose|k: int| 0 <= k < reads.len() && reads[k] == path;
        if k < data.len() {
            assert(data[k] == path);
        } else {
            assert(read_paths[k - data.len()] == path);
        }
    }
    let runtime = curated_tier(curated::reads(platform), true);
    let executes = execute_candidates(platform, shell);
    let n = runtime.len() as int;
    assert(executes[n] == shell);
    if let Some(parent) = paths::parent_of(shell) {
        assert(executes[n + 1] == parent);
    }
    if runtime.contains(path) {
        let k = choose|k: int| 0 <= k < runtime.len() && runtime[k] == path;
        assert(executes[k] == path);
    }
    if executes.contains(path) {
        let k = choose|k: int| 0 <= k < executes.len() && executes[k] == path;
        if k < n {
            assert(runtime[k] == path);
        }
    }
}

/// A curated path, as part of the runtime or as data.
pub open spec fn is_curated(platform: Platform, path: Seq<char>, runtime: bool) -> bool {
    let list = curated::reads(platform);
    exists|i: int|
        0 <= i < list.len() && (#[trigger] list[i]).0 == path && (list[i].1
            == ReadPathClass::ExecutableRuntime) == runtime
}

/// A policy carries the configuration it is made of, with the given shell, temp
/// root and identity: nothing is dropped, and nothing is replaced.
pub proof fn policies_carry_their_configuration<F: Fn(&String) -> Option<String>>(
    platform: Platform,
    config: Config,
    identity: SandboxIdentity,
    shell: String,
    temp_root: String,
    canonicalize: F,
    r: SandboxLaunchPolicy,
)
    requires
        call_ensures(
            SandboxLaunchPolicy::from_config::<F>,
            (platform, &config, identity, shell, temp_root, &canonicalize),
            r,
        ),
    ensures
        r@.platform == platform,
        r@.shell == shell@,
        r@.network == config@.network,
        r@.sandbox_env == config@.sandbox_env,
        r@.temp_root == temp_root@,
        r@.resources == config@.resources,
        r@.cgroup_parent == config@.cgroup_parent,
        r@.identity == identity,
        paths::is_sorted(r@.read_only),
        paths::is_sorted(r@.execute),
{
}

} // verus!
