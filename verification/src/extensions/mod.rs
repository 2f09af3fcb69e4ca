//! What the control plane attaches to workloads and sandboxes.

pub mod extensions;
pub mod sni;
