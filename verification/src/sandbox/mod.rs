//! Sandboxes: what they are, which workload they run in, and what they may do.

pub mod discovery;
pub mod meaning;
pub mod sandbox;
pub mod store;
pub mod traffic_policy;
