//! Sandbox lifecycle domain: validated ids, durable storage, and
//! subordinate-ID leases.

pub mod durable;
pub mod id;
pub mod storage;
pub mod subid;

pub use id::{InvalidSandboxId, SandboxId};
