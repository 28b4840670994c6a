//! The MIDI bridge: translation between actions and MIDI messages.
pub mod bridge;
pub mod key_state;
