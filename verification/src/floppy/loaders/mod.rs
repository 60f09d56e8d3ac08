//! Floppy image formats.

pub mod raw;
