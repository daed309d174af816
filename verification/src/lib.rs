//! A nickname registry: every account may store one nickname of its own and
//! read it back.
//!
//! The registry never learns who is calling by itself. The host that runs it
//! resolves the caller's identity and hands it to each operation, so an account
//! can only ever write the entry that belongs to it.

pub mod account;
pub mod laws;
pub mod registry;

pub use account::AccountId;
pub use registry::Nicks;
