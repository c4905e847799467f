//! A lock server: an in-process registry that grants named resources to one
//! owner at a time, with optional expiry, plus the decisions of its HTTP
//! binding and of its client.

pub mod client;
pub mod clock;
pub mod http;
pub mod steps;
pub mod lock_manager;

pub use crate::lock_manager::{Held, LockError, LockManager};
pub use crate::client::{AcquireStep, LockGuard, LockMode, LockserverClient};
