//! Launching sandbox processes: policy, engine configuration, process domains,
//! and the identity-mapping broker.

pub mod command;
pub mod curated;
pub mod domain;
pub mod engine;
pub mod environment;
pub mod error;
pub mod launch;
pub mod policy;
pub mod process;
pub mod temp;

pub use curated::{Platform, ReadPathClass};
pub use error::{LaunchError, LaunchOperation};
pub use policy::SandboxLaunchPolicy;
