//! Ensemble: a hub-and-spoke protocol for small music applications.
pub mod bridge;
pub mod chord;
pub mod cli;
pub mod client;
pub mod codec;
pub mod conformance;
pub mod demo;
pub mod discovery;
pub mod hub_tui;
pub mod keys;
pub mod manifest;
pub mod midi;
pub mod osc;
pub mod protocol;
pub mod routing;
pub mod text;
pub mod text_map;
pub mod values;
