//! The overlay's protocol values: reachability, descriptors, envelopes and
//! their canonical encodings.
pub mod descriptor;
pub mod messages;
pub mod reach;
