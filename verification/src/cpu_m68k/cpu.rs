//! Processor state around address translation.

use vstd::prelude::*;

use crate::bus::{AccessError, AccessErrorModel, Bus, Group0Details};
use crate::cpu_m68k::pmmu::inspect::{FaultModel, TranslationFault};
use crate::cpu_m68k::pmmu::regs::{
    PmmuRegs, RegisterPSR, RootPointerReg, TcReg, TrTranslationReg,
};
use crate::cpu_m68k::pmmu::translate::{atc_generation_default, PmmuAtcEntry};

verus! {

pub type CpuM68kType = usize;

pub const M68000: usize = 68000;

pub const M68020: usize = 68020;

pub const M68030: usize = 68030;

pub type FpuM68kType = usize;

pub const FPU_NONE: usize = 0;

pub const FPU_M68881: usize = 68881;

pub const FPU_M68882: usize = 68882;

/// Entries that the instruction history keeps before it drops the oldest.
pub const HISTORY_CAPACITY: usize = 10000;

/// Programmer-visible registers.
#[derive(Debug, Clone, Copy, PartialEq, Eq)]
pub struct RegisterFile {
    pub d: [u32; 8],
    pub a: [u32; 8],
    pub pc: u32,
    pub sr: u16,
    pub pmmu: PmmuRegs,
}

/// Why PTEST reports a failed translation.
#[derive(Debug, Clone, Copy, PartialEq, Eq, Structural)]
pub enum PagefaultCause {
    Invalid,
    LimitViolation,
    SupervisorOnly,
    WriteProtected,
}

/// An access or a probe that did not succeed.
#[derive(Debug, Clone, PartialEq, Eq)]
pub enum CpuError {
    /// The access takes a bus error exception with this frame.
    BusError(Group0Details),
    /// PTEST found no usable translation.
    Pagefault(PagefaultCause),
    /// The bus did not complete an access to the tables.
    Access(AccessError),
    /// The search cannot be carried out.
    Walk(String),
}

/// The value of a [`CpuError`].
pub ghost enum CpuErrorModel {
    BusError(Group0Details),
    Pagefault(PagefaultCause),
    Access(AccessErrorModel),
    Walk(Seq<char>),
}

impl View for CpuError {
    type V = CpuErrorModel;

    open spec fn view(&self) -> CpuErrorModel {
        match *self {
            CpuError::BusError(details) => CpuErrorModel::BusError(details),
            CpuError::Pagefault(cause) => CpuErrorModel::Pagefault(cause),
            CpuError::Access(error) => CpuErrorModel::Access(error@),
            CpuError::Walk(detail) => CpuErrorModel::Walk(detail@),
        }
    }
}

/// Something that the history keeps.
#[derive(Debug, Clone, PartialEq, Eq)]
pub enum HistoryEntry {
    Instruction { pc: u32 },
    Pagefault { address: u32, write: bool, detail: Box<TranslationFault> },
}

/// The value of a [`HistoryEntry`].
pub ghost enum HistoryModel {
    Instruction { pc: u32 },
    Pagefault { address: u32, write: bool, detail: FaultModel },
}

impl View for HistoryEntry {
    type V = HistoryModel;

    open spec fn view(&self) -> HistoryModel {
        match *self {
            HistoryEntry::Instruction { pc } => HistoryModel::Instruction { pc },
            HistoryEntry::Pagefault { address, write, detail } => HistoryModel::Pagefault {
                address,
                write,
                detail: (*detail)@,
            },
        }
    }
}

/// A processor and the bus it owns.
pub struct CpuM68k<
    TBus: Bus,
    const ADDRESS_MASK: u32,
    const CPU_TYPE: usize,
    const FPU_TYPE: usize,
    const PMMU: bool,
> {
    pub regs: RegisterFile,
    pub bus: TBus,
    /// One translation cache per root pointer.
    pub pmmu_atc: [Vec<Option<PmmuAtcEntry>>; 2],
    pub pmmu_atc_generation: u32,
    pub history_enabled: bool,
    pub history: Vec<HistoryEntry>,
    /// The instruction in progress, while the debugger follows one.
    pub debug_instruction_pc: Option<u32>,
    /// The search in progress may set U bits.
    pub walk_mutate: bool,
    /// The access that stopped the search in progress.
    pub walk_error: Option<AccessError>,
}

/// The value of a [`CpuM68k`] whose bus has the value `bus`.
#[verifier::ext_equal]
pub ghost struct CpuModel<M> {
    pub regs: RegisterFile,
    pub bus: M,
    pub atc: Seq<Seq<Option<PmmuAtcEntry>>>,
    pub generation: u32,
    pub history_enabled: bool,
    pub history: Seq<HistoryModel>,
    pub debug_instruction_pc: Option<u32>,
    pub walk_mutate: bool,
    pub walk_error: Option<AccessErrorModel>,
}

/// The values of a list of history entries.
pub open spec fn history_models(entries: Seq<HistoryEntry>) -> Seq<HistoryModel> {
    entries.map_values(|entry: HistoryEntry| entry@)
}

/// The value of an optional access error.
pub open spec fn access_error_model(error: Option<AccessError>) -> Option<AccessErrorModel> {
    match error {
        Some(error) => Some(error@),
        None => None,
    }
}

/// The history after one more entry: the oldest gives way once it is full.
pub open spec fn history_pushed(history: Seq<HistoryModel>, entry: HistoryModel) -> Seq<
    HistoryModel,
> {
    if history.len() >= HISTORY_CAPACITY {
        history.drop_first().push(entry)
    } else {
        history.push(entry)
    }
}

impl<
    TBus: Bus,
    const ADDRESS_MASK: u32,
    const CPU_TYPE: usize,
    const FPU_TYPE: usize,
    const PMMU: bool,
> CpuM68k<TBus, ADDRESS_MASK, CPU_TYPE, FPU_TYPE, PMMU> {
    pub open spec fn model(&self) -> CpuModel<TBus::Model> {
        CpuModel {
            regs: self.regs,
            bus: self.bus.model(),
            atc: seq![self.pmmu_atc[0]@, self.pmmu_atc[1]@],
            generation: self.pmmu_atc_generation,
            history_enabled: self.history_enabled,
            history: history_models(self.history@),
            debug_instruction_pc: self.debug_instruction_pc,
            walk_mutate: self.walk_mutate,
            walk_error: access_error_model(self.walk_error),
        }
    }

    /// A processor with clear registers, an empty cache and no history.
    pub fn new(bus: TBus) -> (cpu: Self)
        ensures
            cpu.bus == bus,
            cpu.regs.pc == 0,
            cpu.regs.sr == 0,
            cpu.regs.pmmu.tc == TcReg(0),
            cpu.regs.pmmu.crp == RootPointerReg(0),
            cpu.regs.pmmu.srp == RootPointerReg(0),
            cpu.regs.pmmu.tt@ == seq![TrTranslationReg(0), TrTranslationReg(0)],
            cpu.regs.pmmu.psr == RegisterPSR(0),
            cpu.regs.pmmu.last_desc == 0,
            forall|i: int| 0 <= i < 8 ==> #[trigger] cpu.regs.d[i] == 0,
            forall|i: int| 0 <= i < 8 ==> #[trigger] cpu.regs.a[i] == 0,
            cpu.model().atc == seq![
                Seq::<Option<PmmuAtcEntry>>::empty(),
                Seq::<Option<PmmuAtcEntry>>::empty(),
            ],
            cpu.pmmu_atc_generation == atc_generation_default(),
            !cpu.history_enabled,
            cpu.history@.len() == 0,
            cpu.debug_instruction_pc is None,
            !cpu.walk_mutate,
            cpu.walk_error is None,
    {
        let pmmu = PmmuRegs {
            tc: TcReg(0),
            crp: RootPointerReg(0),
            srp: RootPointerReg(0),
            tt: [TrTranslationReg(0), TrTranslationReg(0)],
            psr: RegisterPSR(0),
            last_desc: 0,
        };
        assert(pmmu.tt@ =~= seq![TrTranslationReg(0), TrTranslationReg(0)]);
        CpuM68k {
            regs: RegisterFile {
                d: [0u32, 0, 0, 0, 0, 0, 0, 0],
                a: [0u32, 0, 0, 0, 0, 0, 0, 0],
                pc: 0,
                sr: 0,
                pmmu,
            },
            bus,
            pmmu_atc: [Vec::new(), Vec::new()],
            pmmu_atc_generation: atc_generation_default(),
            history_enabled: false,
            history: Vec::new(),
            debug_instruction_pc: None,
            walk_mutate: false,
            walk_error: None,
        }
    }

    /// Starts or stops the history. Either way it begins empty.
    pub fn enable_history(&mut self, enabled: bool)
        ensures
            final(self).model() == (CpuModel {
                history_enabled: enabled,
                history: Seq::empty(),
                ..old(self).model()
            }),
    {
        self.history = Vec::new();
        self.history_enabled = enabled;
        assert(history_models(self.history@) =~= Seq::empty());
    }

    /// The history, oldest entry first, while it is enabled.
    pub fn read_history(&self) -> (history: Option<&[HistoryEntry]>)
        ensures
            history is Some <==> self.history_enabled,
            history matches Some(entries) ==> entries@ == self.history@,
    {
        if self.history_enabled {
            Some(self.history.as_slice())
        } else {
            None
        }
    }

    /// Appends to the history, dropping the oldest entry once it is full.
    pub fn push_history(&mut self, entry: HistoryEntry)
        ensures
            final(self).model() == (CpuModel {
                history: history_pushed(old(self).model().history, entry@),
                ..old(self).model()
            }),
    {
        if self.history.len() >= HISTORY_CAPACITY {
            self.history.remove(0);
            assert(history_models(self.history@) =~= old(self).model().history.drop_first());
        }
        let ghost kept = self.history@;
        self.history.push(entry);
        assert(history_models(self.history@) =~= history_models(kept).push(entry@));
    }
}

} // verus!
