//! Demonstration voices.
pub mod euclidean;
pub mod pitch;
