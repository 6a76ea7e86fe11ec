//! Typed configuration, built-in defaults, validation, and immutable runtime
//! snapshots.
//!
//! The top level carries the operational settings (`listen`, `log_level`); the
//! CLI flags are a thin layer on top of exactly those. The snapshot is
//! process-lifetime: applying a change means restarting.

pub mod raw;
pub mod reserved;
pub mod settings;
pub mod validate;

pub use raw::{RawConfig, RawSandbox};
pub use settings::{Caps, LogLevel, NetworkMode, SandboxResources};
pub use validate::{build, default_listen, is_valid_env_name, Config, Error, Resolution};
