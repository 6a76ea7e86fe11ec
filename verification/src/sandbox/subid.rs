//! Durable subordinate-ID allocation for isolated sandboxes.
//!
//! Every isolated durable sandbox leases exactly one subordinate UID and one
//! subordinate GID from the daemon account's delegation. The lease lives as
//! long as the durable sandbox, and a pair becomes reusable only through the
//! verified release transaction.

pub mod allocator;
pub mod changes;
pub mod delegation;
pub mod ledger;
pub mod order;
pub mod reconcile;

pub use allocator::{Error, IdKind, PoolCapacity, SubidAllocator};
pub use delegation::{Delegation, SubidRange};
pub use ledger::{LeaseRecord, LeaseState};
pub use reconcile::{Reconciliation, RuntimeReconciliationProof, SandboxView};
