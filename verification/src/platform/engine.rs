//! The explicit configuration handed to the confinement engine.
//!
//! The engine ships no profiles: every restriction here is deliberate daemon
//! policy.

use crate::text;
use vstd::prelude::*;

verus! {

/// A resource limit: an explicit value, or whatever the parent has.
#[derive(Debug, PartialEq, Eq)]
pub enum Limit<T> {
    Inherit,
    Value(T),
}

/// A CPU quota per period, in microseconds.
#[derive(Debug, Clone, Copy, PartialEq, Eq, Structural)]
pub struct CpuMax {
    pub quota_us: u64,
    pub period_us: u64,
}

/// Limits of one shared resource domain.
#[derive(Debug, PartialEq, Eq)]
pub struct ResourceLimits {
    pub memory_bytes: Limit<u64>,
    pub swap_bytes: Limit<u64>,
    pub pids: Limit<u32>,
    pub cpu_max: Limit<CpuMax>,
}

/// Network confinement.
#[derive(Debug, Clone, Copy, PartialEq, Eq, Structural)]
pub enum SandboxNetwork {
    Disabled,
    OutboundTcp,
    Unrestricted,
}

/// Whether a launch gets a network namespace of its own.
#[derive(Debug, Clone, Copy, PartialEq, Eq, Structural)]
pub enum NetworkNamespacePolicy {
    Host,
    Isolated,
}

/// Namespaces of a launch.
#[derive(Debug, Clone, Copy, PartialEq, Eq, Structural)]
pub struct NamespacePolicy {
    pub network: NetworkNamespacePolicy,
}

impl Default for NamespacePolicy {
    fn default() -> (r: NamespacePolicy)
        ensures
            r.network == NetworkNamespacePolicy::Host,
    {
        NamespacePolicy { network: NetworkNamespacePolicy::Host }
    }
}

/// A subordinate identity: the ids a process sees and the host ids behind
/// them.
#[derive(Debug, Clone, Copy, PartialEq, Eq, Structural)]
pub struct IsolatedIdentity {
    pub runtime_uid: u32,
    pub runtime_gid: u32,
    pub host_uid: u32,
    pub host_gid: u32,
}

/// Process identity of a launch.
#[derive(Debug, Clone, Copy, PartialEq, Eq, Structural)]
pub enum IdentityPolicy {
    Host,
    CallerMappedRoot,
    Isolated(IsolatedIdentity),
}

/// System call filtering.
#[derive(Debug, Clone, Copy, PartialEq, Eq, Structural)]
pub enum SyscallPolicy {
    Unrestricted,
}

/// Capabilities of a launch.
#[derive(Debug, Clone, Copy, PartialEq, Eq, Structural)]
pub enum CapabilityPolicy {
    DropAll,
}

/// Filesystem tiers: absolute paths that may be read, written, or executed.
#[derive(Debug)]
pub struct FilesystemPolicy {
    pub read_only: Vec<String>,
    pub read_write: Vec<String>,
    pub execute: Vec<String>,
}

/// The contents of a [`FilesystemPolicy`].
#[verifier::ext_equal]
pub struct FilesystemView {
    pub read_only: Seq<Seq<char>>,
    pub read_write: Seq<Seq<char>>,
    pub execute: Seq<Seq<char>>,
}

impl View for FilesystemPolicy {
    type V = FilesystemView;

    open spec fn view(&self) -> FilesystemView {
        FilesystemView {
            read_only: text::texts(self.read_only@),
            read_write: text::texts(self.read_write@),
            execute: text::texts(self.execute@),
        }
    }
}

/// One launch's confinement.
#[derive(Debug)]
pub struct EngineConfig {
    pub filesystem: FilesystemPolicy,
    pub network: SandboxNetwork,
    pub resources: ResourceLimits,
    pub syscalls: SyscallPolicy,
    pub namespaces: NamespacePolicy,
    pub identity: IdentityPolicy,
    pub capabilities: CapabilityPolicy,
    pub inherited_fds: Vec<i32>,
    pub cgroup_parent: Option<String>,
}

/// The contents of an [`EngineConfig`].
#[verifier::ext_equal]
pub struct EngineView {
    pub filesystem: FilesystemView,
    pub network: SandboxNetwork,
    pub resources: ResourceLimits,
    pub syscalls: SyscallPolicy,
    pub namespaces: NamespacePolicy,
    pub identity: IdentityPolicy,
    pub capabilities: CapabilityPolicy,
    pub inherited_fds: Seq<i32>,
    pub cgroup_parent: Option<Seq<char>>,
}

impl View for EngineConfig {
    type V = EngineView;

    open spec fn view(&self) -> EngineView {
        EngineView {
            filesystem: self.filesystem@,
            network: self.network,
            resources: self.resources,
            syscalls: self.syscalls,
            namespaces: self.namespaces,
            identity: self.identity,
            capabilities: self.capabilities,
            inherited_fds: self.inherited_fds@,
            cgroup_parent: text::optional(self.cgroup_parent),
        }
    }
}

/// An optional configured value as a limit.
pub open spec fn limit_of<T>(value: Option<T>) -> Limit<T> {
    match value {
        Some(value) => Limit::Value(value),
        None => Limit::Inherit,
    }
}

/// An optional configured value becomes an explicit limit; absent stays
/// inherited.
pub fn option_limit<T>(value: Option<T>) -> (r: Limit<T>)
    ensures
        r == limit_of(value),
{
    match value {
        Some(value) => Limit::Value(value),
        None => Limit::Inherit,
    }
}

} // verus!
