//! The Chord protocol: a hub, its voices and a MIDI bridge with a smaller value
//! model and prefix patterns.
pub mod client;
pub mod hub;
pub mod midi;
pub mod pattern;
pub mod protocol;
