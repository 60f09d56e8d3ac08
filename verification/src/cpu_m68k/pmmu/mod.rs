//! Paged memory management unit of the 68851 and 68030.

pub mod access;
pub mod agreement;
pub mod atc_table;
pub mod descriptors;
pub mod effects;
pub mod inspect;
pub mod laws;
pub mod meaning;
pub mod outcome;
pub mod pages;
pub mod prediction;
pub mod regs;
pub mod translate;
pub mod walk;
