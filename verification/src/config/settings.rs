//! The values a configuration selects.

use crate::text;
use vstd::prelude::*;

verus! {

/// Sandbox network policy.
#[derive(Debug, Clone, Copy, PartialEq, Eq, Structural)]
pub enum NetworkMode {
    Disabled,
    Outbound,
}

/// The network mode of a schema word.
pub open spec fn network_of(word: Seq<char>) -> Option<NetworkMode> {
    if word == "disabled"@ {
        Some(NetworkMode::Disabled)
    } else if word == "outbound"@ {
        Some(NetworkMode::Outbound)
    } else {
        None
    }
}

/// The schema word of a network mode.
pub open spec fn network_word(mode: NetworkMode) -> Seq<char> {
    match mode {
        NetworkMode::Disabled => "disabled"@,
        NetworkMode::Outbound => "outbound"@,
    }
}

impl NetworkMode {
    /// Parse the schema word for a network mode.
    pub fn from_word(word: &str) -> (r: Option<NetworkMode>)
        ensures
            r == network_of(word@),
    {
        if text::same_text(word, "disabled") {
            Some(NetworkMode::Disabled)
        } else if text::same_text(word, "outbound") {
            Some(NetworkMode::Outbound)
        } else {
            None
        }
    }

    /// The schema word of the mode.
    pub fn word(&self) -> (r: &'static str)
        ensures
            r@ == network_word(*self),
    {
        match self {
            NetworkMode::Disabled => "disabled",
            NetworkMode::Outbound => "outbound",
        }
    }
}

/// Structured log verbosity.
#[derive(Debug, Clone, Copy, PartialEq, Eq, Structural)]
pub enum LogLevel {
    Error,
    Warn,
    Info,
    Debug,
    Trace,
}

/// The level of a schema word.
pub open spec fn level_of(word: Seq<char>) -> Option<LogLevel> {
    if word == "error"@ {
        Some(LogLevel::Error)
    } else if word == "warn"@ {
        Some(LogLevel::Warn)
    } else if word == "info"@ {
        Some(LogLevel::Info)
    } else if word == "debug"@ {
        Some(LogLevel::Debug)
    } else if word == "trace"@ {
        Some(LogLevel::Trace)
    } else {
        None
    }
}

/// The schema word of a level.
pub open spec fn level_word(level: LogLevel) -> Seq<char> {
    match level {
        LogLevel::Error => "error"@,
        LogLevel::Warn => "warn"@,
        LogLevel::Info => "info"@,
        LogLevel::Debug => "debug"@,
        LogLevel::Trace => "trace"@,
    }
}

impl LogLevel {
    /// Parse the schema word for a level.
    pub fn from_word(word: &str) -> (r: Option<LogLevel>)
        ensures
            r == level_of(word@),
    {
        if text::same_text(word, "error") {
            Some(LogLevel::Error)
        } else if text::same_text(word, "warn") {
            Some(LogLevel::Warn)
        } else if text::same_text(word, "info") {
            Some(LogLevel::Info)
        } else if text::same_text(word, "debug") {
            Some(LogLevel::Debug)
        } else if text::same_text(word, "trace") {
            Some(LogLevel::Trace)
        } else {
            None
        }
    }

    /// The schema word of the level.
    pub fn word(&self) -> (r: &'static str)
        ensures
            r@ == level_word(*self),
    {
        match self {
            LogLevel::Error => "error",
            LogLevel::Warn => "warn",
            LogLevel::Info => "info",
            LogLevel::Debug => "debug",
            LogLevel::Trace => "trace",
        }
    }
}

/// Every mode and every level is named by its word.
pub proof fn words_read_back(mode: NetworkMode, level: LogLevel)
    ensures
        network_of(network_word(mode)) == Some(mode),
        level_of(level_word(level)) == Some(level),
{
    reveal_strlit("disabled");
    reveal_strlit("outbound");
    reveal_strlit("error");
    reveal_strlit("warn");
    reveal_strlit("info");
    reveal_strlit("debug");
    reveal_strlit("trace");
    assert("disabled"@[0] != "outbound"@[0]);
    assert("error"@[0] == 'e');
    assert("warn"@[0] == 'w');
    assert("info"@[0] == 'i');
    assert("debug"@[0] == 'd');
    assert("trace"@[0] == 't');
}

/// Per-sandbox resource limits. An absent field inherits.
#[derive(Debug, Clone, Copy, PartialEq, Eq)]
pub struct SandboxResources {
    /// `memory.max` in bytes.
    pub memory_bytes: Option<u64>,
    /// `memory.swap.max` in bytes.
    pub swap_bytes: Option<u64>,
    /// `pids.max`.
    pub pids: Option<u32>,
    /// `cpu.max` quota in microseconds of CPU time per period.
    pub cpu_quota_micros: Option<u64>,
    /// `cpu.max` period in microseconds (defaults to 100000).
    pub cpu_period_micros: Option<u64>,
}

impl Default for SandboxResources {
    /// Everything inherits.
    fn default() -> (r: SandboxResources)
        ensures
            r == (SandboxResources {
                memory_bytes: None,
                swap_bytes: None,
                pids: None,
                cpu_quota_micros: None,
                cpu_period_micros: None,
            }),
    {
        SandboxResources {
            memory_bytes: None,
            swap_bytes: None,
            pids: None,
            cpu_quota_micros: None,
            cpu_period_micros: None,
        }
    }
}

impl SandboxResources {
    /// What validated limits satisfy: no limit is zero, a period lies in the
    /// kernel's range, and it comes with a quota.
    pub open spec fn is_valid(self) -> bool {
        &&& self.memory_bytes != Some(0u64)
        &&& self.swap_bytes != Some(0u64)
        &&& self.pids != Some(0u32)
        &&& self.cpu_quota_micros != Some(0u64)
        &&& self.cpu_period_micros matches Some(period) ==> 1000 <= period <= 1_000_000
            && self.cpu_quota_micros is Some
    }
}

/// Concurrency caps; zero is forbidden for every field.
#[derive(Debug, Clone, Copy, PartialEq, Eq, Structural)]
pub struct Caps {
    pub max_unauthenticated_connections: u32,
    pub max_connections: u32,
    pub max_channels_per_connection: u32,
    /// Maximum concurrent launch operations admitted for one sandbox. This is
    /// not the kernel process-count limit.
    pub max_concurrent_launches_per_sandbox: u32,
    pub max_host_processes: u32,
    pub max_auth_attempts: u32,
    pub max_sandboxes: u32,
    pub max_sandboxes_per_owner: u32,
    pub handshake_timeout_secs: u32,
}

impl Default for Caps {
    fn default() -> (r: Caps)
        ensures
            r == (Caps {
                max_unauthenticated_connections: 32,
                max_connections: 128,
                max_channels_per_connection: 16,
                max_concurrent_launches_per_sandbox: 128,
                max_host_processes: 16,
                max_auth_attempts: 6,
                max_sandboxes: 1024,
                max_sandboxes_per_owner: 128,
                handshake_timeout_secs: 30,
            }),
    {
        Caps {
            max_unauthenticated_connections: 32,
            max_connections: 128,
            max_channels_per_connection: 16,
            max_concurrent_launches_per_sandbox: 128,
            max_host_processes: 16,
            max_auth_attempts: 6,
            max_sandboxes: 1024,
            max_sandboxes_per_owner: 128,
            handshake_timeout_secs: 30,
        }
    }
}

/// No other word names a mode or a level: each has exactly one.
pub proof fn words_are_exact(word: Seq<char>)
    ensures
        network_of(word) == Some(NetworkMode::Disabled) <==> word == "disabled"@,
        network_of(word) == Some(NetworkMode::Outbound) <==> word == "outbound"@,
        level_of(word) == Some(LogLevel::Error) <==> word == "error"@,
        level_of(word) == Some(LogLevel::Warn) <==> word == "warn"@,
        level_of(word) == Some(LogLevel::Info) <==> word == "info"@,
        level_of(word) == Some(LogLevel::Debug) <==> word == "debug"@,
        level_of(word) == Some(LogLevel::Trace) <==> word == "trace"@,
        network_of(word) matches Some(mode) ==> network_word(mode) == word,
        level_of(word) matches Some(level) ==> level_word(level) == word,
{
    words_read_back(NetworkMode::Disabled, LogLevel::Error);
    words_read_back(NetworkMode::Outbound, LogLevel::Warn);
    words_read_back(NetworkMode::Disabled, LogLevel::Info);
    words_read_back(NetworkMode::Outbound, LogLevel::Debug);
    words_read_back(NetworkMode::Outbound, LogLevel::Trace);
}

/// Every default cap leaves room for something, and no cap of a part exceeds
/// that of the whole.
pub proof fn default_caps_leave_room(caps: Caps, resources: SandboxResources)
    requires
        call_ensures(Caps::default, (), caps),
        call_ensures(SandboxResources::default, (), resources),
    ensures
        0 < caps.max_unauthenticated_connections <= caps.max_connections,
        0 < caps.max_channels_per_connection,
        0 < caps.max_concurrent_launches_per_sandbox,
        0 < caps.max_host_processes,
        0 < caps.max_auth_attempts,
        0 < caps.max_sandboxes_per_owner <= caps.max_sandboxes,
        0 < caps.handshake_timeout_secs,
        resources.is_valid(),
        resources.memory_bytes is None,
        resources.swap_bytes is None,
        resources.pids is None,
        resources.cpu_quota_micros is None,
        resources.cpu_period_micros is None,
{
}

} // verus!
