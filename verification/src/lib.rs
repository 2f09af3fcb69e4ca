//! A traffic proxy for sandboxed workloads: what it decides, as plain functions.

pub mod bytebuf;
pub mod capsule;
pub mod extensions;
pub mod firewall;
pub mod index;
pub mod inpod;
pub mod labels;
pub mod net;
pub mod probe;
pub mod proxy;
pub mod rbac;
pub mod sandbox;
pub mod state;
pub mod table;
pub mod text;
pub mod time;
pub mod xds;
