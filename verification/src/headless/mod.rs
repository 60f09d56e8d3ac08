//! Synchronous Macintosh access for native debuggers and fixtures.
//!
//! The owner runs no host event loop, bridge, audio device, or media writeback.

pub mod board;
pub mod building;
pub mod controls;
pub mod digest;
pub mod emulator;
pub mod error;
pub mod evidence;
pub mod json;
pub mod laws;
pub mod machine;
pub mod media;
pub mod operations;
pub mod types;
