//! The privileged identity-mapping mount broker.
//!
//! The SSH daemon is not given administrative capabilities in the initial user
//! namespace. It sends already-open directory and namespace descriptors over a
//! private packet socket; the broker returns detached mount descriptors and
//! never receives a target mount namespace or a pathname.


pub mod client;
pub mod control;
pub mod error;
pub mod protocol;
pub mod service;
pub mod words;

pub use error::BrokerError;
pub use protocol::{BrokerRequest, BrokerResponse};
