//! The schema of a configuration document.

use crate::env::{self, EnvMap};
use crate::text;
use vstd::prelude::*;

verus! {

/// Schema-level view of the document. The top level carries the operational
/// settings that the CLI flags may layer over; the `sandbox` table carries
/// file-backed sandbox policy.
#[derive(Debug)]
pub struct RawConfig {
    pub listen: Option<Vec<String>>,
    pub log_level: Option<String>,
    pub sandbox: Option<RawSandbox>,
}

/// Schema-level view of the `sandbox` table.
#[derive(Debug)]
pub struct RawSandbox {
    pub shell: Option<String>,
    pub network: Option<String>,
    pub read_paths: Option<Vec<String>>,
    pub env: Option<EnvMap>,
    pub memory_max: Option<u64>,
    pub swap_max: Option<u64>,
    pub pids_max: Option<u32>,
    pub cpu_quota_micros: Option<u64>,
    pub cpu_period_micros: Option<u64>,
    pub cgroup_parent: Option<String>,
}

/// The contents of a [`RawSandbox`].
pub struct RawSandboxView {
    pub shell: Option<Seq<char>>,
    pub network: Option<Seq<char>>,
    pub read_paths: Option<Seq<Seq<char>>>,
    pub env: Option<env::Entries>,
    pub memory_max: Option<u64>,
    pub swap_max: Option<u64>,
    pub pids_max: Option<u32>,
    pub cpu_quota_micros: Option<u64>,
    pub cpu_period_micros: Option<u64>,
    pub cgroup_parent: Option<Seq<char>>,
}

/// The contents of a [`RawConfig`].
pub struct RawConfigView {
    pub listen: Option<Seq<Seq<char>>>,
    pub log_level: Option<Seq<char>>,
    pub sandbox: Option<RawSandboxView>,
}

/// The contents of an optional list of strings.
pub open spec fn optional_texts(list: Option<Vec<String>>) -> Option<Seq<Seq<char>>> {
    match list {
        Some(list) => Some(text::texts(list@)),
        None => None,
    }
}

impl View for RawSandbox {
    type V = RawSandboxView;

    open spec fn view(&self) -> RawSandboxView {
        RawSandboxView {
            shell: text::optional(self.shell),
            network: text::optional(self.network),
            read_paths: optional_texts(self.read_paths),
            env: match self.env {
                Some(env) => Some(env@),
                None => None,
            },
            memory_max: self.memory_max,
            swap_max: self.swap_max,
            pids_max: self.pids_max,
            cpu_quota_micros: self.cpu_quota_micros,
            cpu_period_micros: self.cpu_period_micros,
            cgroup_parent: text::optional(self.cgroup_parent),
        }
    }
}

impl View for RawConfig {
    type V = RawConfigView;

    open spec fn view(&self) -> RawConfigView {
        RawConfigView {
            listen: optional_texts(self.listen),
            log_level: text::optional(self.log_level),
            sandbox: match self.sandbox {
                Some(sandbox) => Some(sandbox@),
                None => None,
            },
        }
    }
}

/// An empty `sandbox` table.
pub open spec fn empty_sandbox() -> RawSandboxView {
    RawSandboxView {
        shell: None,
        network: None,
        read_paths: None,
        env: None,
        memory_max: None,
        swap_max: None,
        pids_max: None,
        cpu_quota_micros: None,
        cpu_period_micros: None,
        cgroup_parent: None,
    }
}

/// An empty document.
pub open spec fn empty_config() -> RawConfigView {
    RawConfigView { listen: None, log_level: None, sandbox: None }
}

impl Default for RawSandbox {
    fn default() -> (r: RawSandbox)
        ensures
            r@ == empty_sandbox(),
    {
        RawSandbox {
            shell: None,
            network: None,
            read_paths: None,
            env: None,
            memory_max: None,
            swap_max: None,
            pids_max: None,
            cpu_quota_micros: None,
            cpu_period_micros: None,
            cgroup_parent: None,
        }
    }
}

impl Default for RawConfig {
    fn default() -> (r: RawConfig)
        ensures
            r@ == empty_config(),
    {
        RawConfig { listen: None, log_level: None, sandbox: None }
    }
}

} // verus!
