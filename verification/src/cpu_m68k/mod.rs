//! The 68k processor: its memory management unit and the state that unit works on.

pub mod cpu;
pub mod pmmu;
