//! The remote bridge, which connects hubs with each other.
pub mod config;
pub mod forward;
pub mod hub_link;
pub mod ids;
pub mod loop_guard;
pub mod managed;
pub mod mapping;
pub mod param_cache;
pub mod peers;
pub mod protocol;
pub mod session;
