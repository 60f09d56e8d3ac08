//! Helpers that the emulator's parts share.

pub mod bytes;
pub mod hdd;
pub mod mac;
pub mod scrap;
pub mod scrap_layout;
pub mod text;
