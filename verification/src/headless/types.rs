//! What callers tell a machine, and what it tells them.

use vstd::prelude::*;

verus! {

/// The machines that can be emulated.
#[derive(Debug, Clone, Copy, PartialEq, Eq, Structural)]
pub enum MacModel {
    Early128K,
    Early512K,
    Early512Ke,
    Plus,
    SE,
    SeFdhd,
    Classic,
    Portable,
    Portable15MB,
    MacII,
    MacIIFDHD,
    MacIIx,
    MacIIcx,
    SE30,
}

/// How machines are put together, as far as callers can tell them apart.
#[derive(Debug, Clone, Copy, PartialEq, Eq, Structural)]
pub enum Family {
    Compact,
    Portable,
    MacII,
}

/// What is known of a model.
#[derive(Debug, Clone, PartialEq, Eq)]
pub struct ModelFacts {
    pub name: String,
    pub ram_sizes: Vec<usize>,
    pub cpu_type: usize,
    pub fdd_drives: usize,
    pub fdd_hd: bool,
    pub has_scsi: bool,
}

/// The value of [`ModelFacts`].
#[verifier::ext_equal]
pub ghost struct ModelFactsModel {
    pub name: Seq<char>,
    pub ram_sizes: Seq<usize>,
    pub cpu_type: usize,
    pub fdd_drives: usize,
    pub fdd_hd: bool,
    pub has_scsi: bool,
}

impl View for ModelFacts {
    type V = ModelFactsModel;

    open spec fn view(&self) -> ModelFactsModel {
        ModelFactsModel {
            name: self.name@,
            ram_sizes: self.ram_sizes@,
            cpu_type: self.cpu_type,
            fdd_drives: self.fdd_drives,
            fdd_hd: self.fdd_hd,
            has_scsi: self.has_scsi,
        }
    }
}

/// ROMs besides the machine's own.
#[derive(Debug, Clone, Copy, PartialEq, Eq)]
pub enum ExtraROMs<'a> {
    MDC12(&'a [u8]),
    Toby(&'a [u8]),
    SE30Video(&'a [u8]),
    ExtensionROM(&'a [u8]),
}

/// The value of [`ExtraROMs`].
pub ghost enum ExtraRomModel {
    MDC12(Seq<u8>),
    Toby(Seq<u8>),
    SE30Video(Seq<u8>),
    ExtensionROM(Seq<u8>),
}

impl<'a> View for ExtraROMs<'a> {
    type V = ExtraRomModel;

    open spec fn view(&self) -> ExtraRomModel {
        match *self {
            ExtraROMs::MDC12(data) => ExtraRomModel::MDC12(data@),
            ExtraROMs::Toby(data) => ExtraRomModel::Toby(data@),
            ExtraROMs::SE30Video(data) => ExtraRomModel::SE30Video(data@),
            ExtraROMs::ExtensionROM(data) => ExtraRomModel::ExtensionROM(data@),
        }
    }
}

/// The bytes of an extra ROM.
pub open spec fn rom_bytes(extra: ExtraRomModel) -> Seq<u8> {
    match extra {
        ExtraRomModel::MDC12(data) => data,
        ExtraRomModel::Toby(data) => data,
        ExtraRomModel::SE30Video(data) => data,
        ExtraRomModel::ExtensionROM(data) => data,
    }
}

/// How the host's mouse moves the guest's.
#[derive(Debug, Clone, Copy, PartialEq, Eq, Structural)]
pub enum MouseMode {
    Absolute,
    RelativeHw,
    Disabled,
}

/// A key that goes down or up.
#[derive(Debug, Clone, Copy, PartialEq, Eq, Structural)]
pub enum KeyEvent {
    KeyDown(u8),
    KeyUp(u8),
}

/// A register that a debugger can edit.
#[derive(Debug, Clone, Copy, PartialEq, Eq, Structural)]
pub enum Register {
    Dn(usize),
    An(usize),
    SSP,
    USP,
    SR,
    CCR,
    PC,
}

/// The accesses that a bus breakpoint watches.
#[derive(Debug, Clone, Copy, PartialEq, Eq, Structural)]
pub enum BusBreakpoint {
    Read,
    Write,
    ReadWrite,
}

/// What stops a machine.
#[derive(Debug, Clone, Copy, PartialEq, Eq, Structural)]
pub enum Breakpoint {
    Execution(u32),
    Bus(BusBreakpoint, u32),
    InterruptLevel(u8),
    ExceptionVector(u32),
    LineA(u16),
    LineF(u16),
}

/// A breakpoint that was met.
#[derive(Debug, Clone, Copy, PartialEq, Eq, Structural)]
pub struct BreakpointHit {
    pub breakpoint: Breakpoint,
    pub cycle: u64,
    /// The value on the bus, for a bus breakpoint.
    pub value: Option<u32>,
}

/// A system trap that was called.
#[derive(Debug, Clone, Copy, PartialEq, Eq, Structural)]
pub struct SystrapHistoryEntry {
    pub trap: u16,
    pub cycles: u64,
}

/// A serial channel.
#[derive(Debug, Clone, Copy, PartialEq, Eq, Structural)]
pub enum SccCh {
    A,
    B,
}

/// Something that a peripheral shows to a debugger.
#[derive(Debug, Clone, PartialEq, Eq)]
pub struct DebuggableProperty {
    pub name: String,
    pub value: String,
}

/// What qualification counts of a floppy drive.
#[derive(Debug, Clone, Copy, PartialEq, Eq, Structural)]
pub struct DriveActivity {
    pub present: bool,
    pub write_protected: bool,
    pub noise_draws: u64,
    pub media_noise_draws: u64,
    pub dirty: bool,
}

/// A completed native frame, observed at the end of a CPU instruction.
#[derive(Debug, Clone, PartialEq, Eq)]
pub struct Frame {
    pub width: u16,
    pub height: u16,
    pub rgba: Vec<u8>,
    pub sequence: u64,
    pub observed_at_cycle: u64,
}

/// The value of a [`Frame`].
#[verifier::ext_equal]
pub ghost struct ObservedFrame {
    pub width: u16,
    pub height: u16,
    pub rgba: Seq<u8>,
    pub sequence: u64,
    pub observed_at_cycle: u64,
}

impl View for Frame {
    type V = ObservedFrame;

    open spec fn view(&self) -> ObservedFrame {
        ObservedFrame {
            width: self.width,
            height: self.height,
            rgba: self.rgba@,
            sequence: self.sequence,
            observed_at_cycle: self.observed_at_cycle,
        }
    }
}

/// Independent model configuration. The PMMU flag describes fitted hardware, not guest enable state.
#[derive(Debug, Clone, Copy)]
pub struct HeadlessConfig<'a> {
    pub rom: &'a [u8],
    pub extra_roms: &'a [ExtraROMs<'a>],
    pub model: MacModel,
    pub ram_bytes: usize,
    pub pmmu: bool,
    pub disk: Option<&'a [u8]>,
    pub seed: u64,
    pub seconds: u32,
    pub pram: &'a [u8],
    pub mouse: MouseMode,
}

/// The value of a [`HeadlessConfig`].
#[verifier::ext_equal]
pub ghost struct ConfigModel {
    pub rom: Seq<u8>,
    pub extra_roms: Seq<ExtraRomModel>,
    pub model: MacModel,
    pub ram_bytes: usize,
    pub pmmu: bool,
    pub disk: Option<Seq<u8>>,
    pub seed: u64,
    pub seconds: u32,
    pub pram: Seq<u8>,
    pub mouse: MouseMode,
}

/// What extra ROMs are.
pub open spec fn extra_rom_models(extra: Seq<ExtraROMs<'_>>) -> Seq<ExtraRomModel> {
    Seq::new(extra.len(), |i: int| extra[i]@)
}

impl<'a> View for HeadlessConfig<'a> {
    type V = ConfigModel;

    open spec fn view(&self) -> ConfigModel {
        ConfigModel {
            rom: self.rom@,
            extra_roms: extra_rom_models(self.extra_roms@),
            model: self.model,
            ram_bytes: self.ram_bytes,
            pmmu: self.pmmu,
            disk: match self.disk {
                Some(disk) => Some(disk@),
                None => None,
            },
            seed: self.seed,
            seconds: self.seconds,
            pram: self.pram@,
            mouse: self.mouse,
        }
    }
}

/// How many of the breakpoints that were met are kept; more are only counted.
pub const MAX_BREAKPOINT_HITS: usize = 256;

/// How often a breakpoint is among others.
pub open spec fn times(breakpoints: Seq<Breakpoint>, breakpoint: Breakpoint) -> nat
    decreases breakpoints.len(),
{
    if breakpoints.len() == 0 {
        0
    } else if breakpoints.last() == breakpoint {
        times(breakpoints.drop_last(), breakpoint) + 1
    } else {
        times(breakpoints.drop_last(), breakpoint)
    }
}

} // verus!
