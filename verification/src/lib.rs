//! Deterministic core of a 68k Macintosh emulator.

pub mod bus;
pub mod cpu_m68k;
pub mod floppy;
pub mod headless;
pub mod renderer;
pub mod util;
pub mod watch;
