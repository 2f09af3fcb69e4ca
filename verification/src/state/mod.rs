//! What the proxy knows of workloads, services, sandboxes and policies.

pub mod service;
pub mod store;
pub mod workload;
pub mod workload_config;
