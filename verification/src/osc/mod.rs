//! The OSC bridge: translation between actions and OSC messages.
pub mod config;
pub mod convert;
pub mod packet;
