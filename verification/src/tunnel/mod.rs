//! Userspace egress tunnel: what a sandboxed guest may reach, and how it gets
//! there.
//!
//! The guest runs on a host-only network; its only way out is a `WireGuard` tunnel
//! that ends here, where each flow is held against the allowlist.
pub mod dns;
pub mod endpoint;
pub mod keys;
pub mod peek;
pub mod policy;
pub mod wg;

pub use keys::WgKeypair;
pub use policy::{Decision, Policy};
pub use wg::WgTunnel;
