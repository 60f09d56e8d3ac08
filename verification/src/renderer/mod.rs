//! Frames on their way from the emulated screen to the host.

pub mod buffer;
pub mod channel;
