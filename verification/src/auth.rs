//! Key fingerprints, authorized-keys sources, and authentication snapshots.

pub mod fingerprint;
pub mod snapshot;
pub mod source;
pub mod store;

pub use fingerprint::{FingerprintError, KeyFingerprint};
pub use snapshot::{AuthSnapshot, Principal, Role};
pub use source::{AuthorizedKey, Error, PublicKey};
pub use store::{FileIdentity, KeyStore, RefreshOutcome, SourceIdentities};
