//! The proxy's decisions for outbound traffic.

pub mod connection;
pub mod outbound;
pub mod outbound_udp;
pub mod queue;
pub mod receive;
pub mod relay;
pub mod sessions;
