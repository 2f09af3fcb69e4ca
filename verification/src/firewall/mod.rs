//! Traffic policies as netfilter rules for everything but TCP.

pub mod backend;
pub mod content;
pub mod convert;
pub mod dedicated;
pub mod detect;
pub mod inpod;
pub mod metrics;
pub mod order;
pub mod types;
