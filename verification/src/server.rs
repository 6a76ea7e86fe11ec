//! Listener binding, connection caps, and session supervision.
//!
//! Binding is all-or-nothing: either every configured address binds or startup
//! fails, and a failing bind never falls back to another port. Each accepted
//! connection gets a handshake deadline that ends as soon as authentication
//! succeeds; authenticated connections have no idle timeout.

pub mod bind;
pub mod limiter;
pub mod session;
pub mod tasks;

pub use bind::{bind_all, BoundListener, Error};
pub use limiter::{HostProcessLimiter, HostProcessSlot, Limiter, LimiterSlot};
pub use tasks::HostTaskRegistry;
