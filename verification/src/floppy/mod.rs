//! Floppy images.

pub mod loaders;
pub mod noise;
