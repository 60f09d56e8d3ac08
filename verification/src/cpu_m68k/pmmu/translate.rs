//! Address translation: the translation cache, table lookups and the faults they raise.

use vstd::prelude::*;

use crate::bus::{AccessErrorModel, Bus, Group0Details};
use crate::cpu_m68k::cpu::{
    history_pushed, CpuError, CpuErrorModel, CpuM68k, CpuModel, HistoryEntry, HistoryModel,
    PagefaultCause, RegisterFile,
};
use crate::cpu_m68k::pmmu::inspect::{
    FaultModel, FaultSignal, RootBank, TranslationFault, TranslationRoute,
};
use crate::cpu_m68k::pmmu::regs::{
    PmmuRegs, RegisterPSR, RootPointerReg, TcReg, TrTranslationReg,
};
use crate::cpu_m68k::pmmu::walk;
use crate::cpu_m68k::pmmu::walk::{
    lemma_field_widths, offset_mask, plain_failure, protection_failure, searched, walk_tables,
    walked, FailureModel, Search, TableWalk, WalkFailure, WalkFailureKind, WalkMemory, WalkModel,
};

verus! {

/// Cache that serves the CPU root pointer.
pub const PMMU_ATC_URP: usize = 0;

/// Cache that serves the supervisor root pointer.
pub const PMMU_ATC_SRP: usize = 1;

/// The cache generation of a new processor.
#[verifier::allow_in_spec]
pub fn atc_generation_default() -> u32
    returns
        1u32,
{
    // 0 is reserved for unused entries
    1
}

/// A resolved Address Translation Cache entry.
#[derive(Debug, Clone, Copy, PartialEq, Eq, Structural)]
pub struct PmmuAtcEntry {
    /// Full CPU function code. A colliding code replaces this software cache slot.
    pub function_code: u8,
    /// Physical page base address (low PS bits are zero).
    pub paddr: u32,
    /// Write-protect bit inherited from any table descriptor on the walk
    /// or from the leaf page descriptor.
    pub wp: bool,
    /// Supervisor-only bit inherited from any long-format descriptor on the walk.
    pub s: bool,
    /// Physical address of the leaf page descriptor (long-word aligned).
    /// Needed so writes can set the descriptor's M (modified) bit without
    /// replaying the full table walk.
    pub leaf_desc_addr: u32,
    /// Whether the M bit of the leaf descriptor is already set. When false,
    /// the next write through this entry must RMW the descriptor to set M.
    pub modified: bool,
    /// If below the current generation, this entry has been flushed. 0 means never used.
    pub generation: u32,
}

impl<
    TBus: Bus,
    const ADDRESS_MASK: u32,
    const CPU_TYPE: usize,
    const FPU_TYPE: usize,
    const PMMU: bool,
> WalkMemory for CpuM68k<TBus, ADDRESS_MASK, CPU_TYPE, FPU_TYPE, PMMU> {
    type State = CpuModel<TBus::Model>;

    open spec fn state(&self) -> CpuModel<TBus::Model> {
        self.model()
    }

    open spec fn selected(cpu: CpuModel<TBus::Model>, address: u32) -> CpuModel<TBus::Model> {
        with_last_desc(cpu, address)
    }

    open spec fn long_read(cpu: CpuModel<TBus::Model>, address: u32) -> (
        Result<u32, FailureModel>,
        CpuModel<TBus::Model>,
    ) {
        let (outcome, bus) = TBus::long_read(cpu.bus, address);
        match outcome {
            Ok(word) => (Ok(word), CpuModel { bus, ..cpu }),
            Err(error) => (
                Err(
                    plain_failure(
                        WalkFailureKind::UnreadableDescriptor,
                        0,
                        Some(address),
                        error.message,
                    ),
                ),
                CpuModel { bus, walk_error: Some(error), ..cpu },
            ),
        }
    }

    open spec fn used_marked(cpu: CpuModel<TBus::Model>, address: u32, original: u32) -> (
        Result<(), FailureModel>,
        CpuModel<TBus::Model>,
    ) {
        if !cpu.walk_mutate {
            (Ok(()), cpu)
        } else {
            let (outcome, bus) = TBus::long_written(cpu.bus, address, original | 8);
            match outcome {
                Ok(()) => (Ok(()), CpuModel { bus, ..cpu }),
                Err(error) => (
                    Err(
                        plain_failure(
                            WalkFailureKind::DescriptorUpdate,
                            0,
                            Some(address),
                            error.message,
                        ),
                    ),
                    CpuModel { bus, walk_error: Some(error), ..cpu },
                ),
            }
        }
    }

    fn select_descriptor(&mut self, address: u32) {
        self.regs.pmmu.last_desc = address;
    }

    fn read_long(&mut self, address: u32) -> (result: Result<u32, WalkFailure>) {
        match self.bus.read_ticks_physical(address) {
            Ok(word) => Ok(word),
            Err(error) => {
                let failure = WalkFailure::new(
                    WalkFailureKind::UnreadableDescriptor,
                    Some(address),
                    error.message.clone(),
                );
                self.walk_error = Some(error);
                Err(failure)
            },
        }
    }

    fn mark_used(&mut self, address: u32, original: u32) -> (result: Result<(), WalkFailure>) {
        if self.walk_mutate {
            match self.bus.write_ticks_physical(address, original | 8) {
                Ok(()) => {},
                Err(error) => {
                    let failure = WalkFailure::new(
                        WalkFailureKind::DescriptorUpdate,
                        Some(address),
                        error.message.clone(),
                    );
                    self.walk_error = Some(error);
                    return Err(failure);
                },
            }
        }
        Ok(())
    }
}

/// The processor with another last selected descriptor.
pub open spec fn with_last_desc<M>(cpu: CpuModel<M>, address: u32) -> CpuModel<M> {
    CpuModel {
        regs: RegisterFile { pmmu: PmmuRegs { last_desc: address, ..cpu.regs.pmmu }, ..cpu.regs },
        ..cpu
    }
}

/// The processor with another MMU status.
pub open spec fn with_status<M>(cpu: CpuModel<M>, psr: RegisterPSR) -> CpuModel<M> {
    CpuModel {
        regs: RegisterFile { pmmu: PmmuRegs { psr, ..cpu.regs.pmmu }, ..cpu.regs },
        ..cpu
    }
}

/// The processor with another entry in a cache slot.
pub open spec fn with_slot<M>(
    cpu: CpuModel<M>,
    bank: int,
    key: int,
    entry: PmmuAtcEntry,
) -> CpuModel<M> {
    CpuModel { atc: cpu.atc.update(bank, cpu.atc[bank].update(key, Some(entry))), ..cpu }
}

/// Whether an access uses the supervisor root pointer: supervisor function codes do, once SRE
/// enables it (MC68851 UM 5.1.4.2).
pub open spec fn uses_supervisor_root(regs: PmmuRegs, fc: u8) -> bool {
    fc & 4 != 0 && regs.tc.sre()
}

/// The root pointer of an access.
pub open spec fn root_pointer(regs: PmmuRegs, fc: u8) -> RootPointerReg {
    if uses_supervisor_root(regs, fc) {
        regs.srp
    } else {
        regs.crp
    }
}

/// The cache of an access.
pub open spec fn cache_bank(regs: PmmuRegs, fc: u8) -> int {
    if uses_supervisor_root(regs, fc) {
        1
    } else {
        0
    }
}

/// The root bank of an access.
pub open spec fn root_bank(regs: PmmuRegs, fc: u8) -> RootBank {
    if uses_supervisor_root(regs, fc) {
        RootBank::Supervisor
    } else {
        RootBank::Cpu
    }
}

/// Whether a transparent translation register maps an access. Masked bits do not count, RWM
/// ignores the direction, and only the top byte of the address is compared.
pub open spec fn transparently_maps(
    tt: TrTranslationReg,
    fc: u8,
    vaddr: u32,
    writing: bool,
) -> bool {
    let fc_care = !tt.fc_mask() & 7u8;
    let addr_care = !tt.le_mask() & 0xFFu32;
    &&& tt.e()
    &&& fc & fc_care == tt.fc_base() & fc_care
    &&& tt.rwm() || writing != tt.rw()
    &&& (vaddr >> 24) & addr_care == tt.le_base() & addr_care
}

/// The first transparent translation register that maps an access.
pub open spec fn transparent_register(
    regs: PmmuRegs,
    fc: u8,
    vaddr: u32,
    writing: bool,
) -> Option<int> {
    if transparently_maps(regs.tt[0], fc, vaddr, writing) {
        Some(0int)
    } else if transparently_maps(regs.tt[1], fc, vaddr, writing) {
        Some(1int)
    } else {
        None
    }
}

/// The logical page number of an address, without its ignored bits.
pub open spec fn page_number(tc: TcReg, vaddr: u32) -> u32 {
    (vaddr & offset_mask(tc.is())) >> tc.ps()
}

/// Ones in the page offset.
pub open spec fn page_mask(tc: TcReg) -> u32 {
    ((1u32 << tc.ps()) - 1) as u32
}

/// Slots that a cache needs to hold one for every logical page.
pub open spec fn cache_size(tc: TcReg) -> int {
    (u32::MAX >> (tc.is() + tc.ps()) as u32) + 1
}

/// Whether an access goes through the cache and the tables.
pub open spec fn paged<M>(
    pmmu: bool,
    cpu: CpuModel<M>,
    fc: u8,
    vaddr: u32,
    writing: bool,
) -> bool {
    &&& pmmu
    &&& fc != 7
    &&& transparent_register(cpu.regs.pmmu, fc, vaddr, writing) is None
    &&& cpu.regs.pmmu.tc.enable()
}

/// The cache entry that answers an access: of this generation, and for this function code.
pub open spec fn cache_hit<M>(cpu: CpuModel<M>, fc: u8, vaddr: u32) -> Option<PmmuAtcEntry> {
    let slot = cpu.atc[cache_bank(cpu.regs.pmmu, fc)][page_number(
        cpu.regs.pmmu.tc,
        vaddr,
    ) as int];
    match slot {
        Some(entry) => if entry.generation == cpu.generation && entry.function_code == fc {
            Some(entry)
        } else {
            None
        },
        None => None,
    }
}

/// The exception frame of an access that translation rejects.
#[verifier::allow_in_spec]
pub fn pagefault_frame(fc: u8, vaddr: u32, writing: bool) -> Group0Details
    returns
        (Group0Details {
            function_code: fc,
            ir: 0,
            instruction: false,
            read: !writing,
            address: vaddr,
            start_pc: 0,
            size: 0,
        }),
{
    Group0Details {
        function_code: fc,
        ir: 0,
        instruction: false,
        read: !writing,
        address: vaddr,
        start_pc: 0,
        size: 0,
    }
}

/// How a failed search shows outside the unit.
#[verifier::allow_in_spec]
pub fn fault_signal(kind: WalkFailureKind) -> FaultSignal
    returns
        (match kind {
            WalkFailureKind::InvalidConfiguration
            | WalkFailureKind::UnsupportedRoot
            | WalkFailureKind::DepthExceeded => FaultSignal::BackendFailure,
            WalkFailureKind::UnreadableDescriptor | WalkFailureKind::DescriptorUpdate => {
                FaultSignal::TableAccessFailure
            },
            _ => FaultSignal::PageFault,
        }),
{
    match kind {
        WalkFailureKind::InvalidConfiguration
        | WalkFailureKind::UnsupportedRoot
        | WalkFailureKind::DepthExceeded => FaultSignal::BackendFailure,
        WalkFailureKind::UnreadableDescriptor | WalkFailureKind::DescriptorUpdate => {
            FaultSignal::TableAccessFailure
        },
        _ => FaultSignal::PageFault,
    }
}

/// What PTEST reports for a failure that the status register has a flag for.
pub open spec fn fault_cause(kind: WalkFailureKind) -> Option<PagefaultCause> {
    match kind {
        WalkFailureKind::InvalidDescriptor => Some(PagefaultCause::Invalid),
        WalkFailureKind::LimitViolation => Some(PagefaultCause::LimitViolation),
        WalkFailureKind::SupervisorOnly => Some(PagefaultCause::SupervisorOnly),
        WalkFailureKind::WriteProtected => Some(PagefaultCause::WriteProtected),
        _ => None,
    }
}

/// The status flag of a cause.
pub open spec fn cause_flag(cause: PagefaultCause) -> u16 {
    match cause {
        PagefaultCause::Invalid => 0x0400,
        PagefaultCause::LimitViolation => 0x4000,
        PagefaultCause::SupervisorOnly => 0x2000,
        PagefaultCause::WriteProtected => 0x0800,
    }
}

/// The status after a fault: its cause, the level it was found at, and whether the access took
/// a bus error.
pub open spec fn fault_status(cause: PagefaultCause, level: u8, bus_error: bool) -> RegisterPSR {
    RegisterPSR(
        cause_flag(cause) | (level & 7) as u16 | if bus_error {
            0x8000u16
        } else {
            0u16
        },
    )
}

/// Builds the status that a fault leaves.
fn fault_psr(cause: PagefaultCause, level: u8, bus_error: bool) -> (psr: RegisterPSR)
    ensures
        psr == fault_status(cause, level, bus_error),
{
    let mut psr = RegisterPSR::cleared();
    match cause {
        PagefaultCause::Invalid => psr.set_invalid(true),
        PagefaultCause::LimitViolation => psr.set_limit_violation(true),
        PagefaultCause::SupervisorOnly => psr.set_supervisor_violation(true),
        PagefaultCause::WriteProtected => psr.set_write_protected(true),
    }
    psr.set_level_number(level);
    if bus_error {
        psr.set_bus_error(true);
    }
    proof {
        let flag = cause_flag(cause);
        let number = (level & 7) as u16;
        assert(flag == 0x0400 || flag == 0x4000 || flag == 0x2000 || flag == 0x0800 ==> ((0u16
            | flag) & !7u16) | number == flag | number | 0u16 && (((0u16 | flag) & !7u16) | number)
            | 0x8000 == flag | number | 0x8000u16) by (bit_vector);
    }
    psr
}

/// Every page number has a slot in a cache of full size.
pub proof fn lemma_page_number_bounded(tc: TcReg, vaddr: u32)
    ensures
        page_number(tc, vaddr) < cache_size(tc),
        tc.is() + tc.ps() <= 30,
{
    lemma_field_widths(tc);
    let shift = tc.is();
    let offset = tc.ps();
    assert((vaddr & (0xFFFF_FFFFu32 >> shift)) >> offset <= 0xFFFF_FFFFu32 >> ((shift
        + offset) as u32)) by (bit_vector)
        requires
            shift <= 15,
            offset <= 15,
    ;
}

pub const CACHED_DETAIL: &'static str = "Cached page protection rejects the access";

pub const SUPERVISOR_DETAIL: &'static str = "Inherited supervisor protection rejects the access";

pub const WRITE_DETAIL: &'static str = "Inherited write protection rejects the access";

/// Levels that a full search takes, for an access that the cache answers.
pub open spec fn full_depth(tc: TcReg) -> u8 {
    ((if tc.tia() > 0 {
        1int
    } else {
        0
    }) + (if tc.tib() > 0 {
        1int
    } else {
        0
    }) + (if tc.tic() > 0 {
        1int
    } else {
        0
    }) + (if tc.tid() > 0 {
        1int
    } else {
        0
    }) + (if tc.fcl() {
        1int
    } else {
        0
    })) as u8
}

/// Counts the levels that a full search takes.
pub fn count_levels(tc: TcReg) -> (levels: u8)
    ensures
        levels == full_depth(tc),
        levels <= 5,
{
    let mut levels: u8 = 0;
    if tc.tia() > 0 {
        levels = levels + 1;
    }
    if tc.tib() > 0 {
        levels = levels + 1;
    }
    if tc.tic() > 0 {
        levels = levels + 1;
    }
    if tc.tid() > 0 {
        levels = levels + 1;
    }
    if tc.fcl() {
        levels = levels + 1;
    }
    levels
}

/// Why a page's protection rejects an access, in words.
pub open spec fn protection_detail(kind: WalkFailureKind) -> Seq<char> {
    if kind is SupervisorOnly {
        SUPERVISOR_DETAIL@
    } else {
        WRITE_DETAIL@
    }
}

/// What a table lookup yields: physical address, write protection, supervisor protection, leaf
/// descriptor address and M bit.
pub type Lookup = (u32, bool, bool, u32, bool);

/// The value of a lookup's outcome.
pub open spec fn lookup_outcome(result: Result<Lookup, CpuError>) -> Result<
    Lookup,
    CpuErrorModel,
> {
    match result {
        Ok(lookup) => Ok(lookup),
        Err(error) => Err(error@),
    }
}

/// The value of a translation's outcome.
pub open spec fn address_outcome(result: Result<u32, CpuError>) -> Result<u32, CpuErrorModel> {
    match result {
        Ok(address) => Ok(address),
        Err(error) => Err(error@),
    }
}

/// The value of a descriptor update's outcome.
pub open spec fn update_outcome(result: Result<(), CpuError>) -> Result<(), CpuErrorModel> {
    match result {
        Ok(()) => Ok(()),
        Err(error) => Err(error@),
    }
}

/// A search leaves everything alone but the bus, the last descriptor and its own error.
pub open spec fn same_beside_search<M>(before: CpuModel<M>, after: CpuModel<M>) -> bool {
    after == (CpuModel {
        bus: after.bus,
        walk_error: after.walk_error,
        ..with_last_desc(before, after.regs.pmmu.last_desc)
    })
}

impl<
    TBus: Bus,
    const ADDRESS_MASK: u32,
    const CPU_TYPE: usize,
    const FPU_TYPE: usize,
    const PMMU: bool,
> CpuM68k<TBus, ADDRESS_MASK, CPU_TYPE, FPU_TYPE, PMMU> {
    /// The fault that an attempt leaves in the history.
    pub open spec fn fault_of(
        cpu: CpuModel<TBus::Model>,
        fc: u8,
        vaddr: u32,
        writing: bool,
        route: TranslationRoute,
        failure: FailureModel,
        tables: Option<WalkModel>,
    ) -> FaultModel {
        FaultModel {
            signal: fault_signal(failure.kind),
            address: vaddr,
            function_code: fc,
            writing,
            instruction_pc: cpu.debug_instruction_pc,
            pc_at_attempt: cpu.regs.pc,
            cycle: TBus::clock(cpu.bus),
            sr: cpu.regs.sr,
            status: cpu.regs.pmmu.psr.0,
            tc: cpu.regs.pmmu.tc.0,
            root: root_bank(cpu.regs.pmmu, fc),
            root_pointer: root_pointer(cpu.regs.pmmu, fc).0,
            cache_generation: cpu.generation,
            route,
            failure,
            tables,
        }
    }

    /// The processor after a fault has been recorded, if the history is enabled.
    pub open spec fn fault_recorded(
        cpu: CpuModel<TBus::Model>,
        fc: u8,
        vaddr: u32,
        writing: bool,
        route: TranslationRoute,
        failure: FailureModel,
        tables: Option<WalkModel>,
    ) -> CpuModel<TBus::Model> {
        if cpu.history_enabled {
            CpuModel {
                history: history_pushed(
                    cpu.history,
                    HistoryModel::Pagefault {
                        address: vaddr,
                        write: writing,
                        detail: Self::fault_of(cpu, fc, vaddr, writing, route, failure, tables),
                    },
                ),
                ..cpu
            }
        } else {
            cpu
        }
    }

    /// The processor after the cache has rejected an access.
    pub open spec fn cache_faulted(
        cpu: CpuModel<TBus::Model>,
        fc: u8,
        vaddr: u32,
        writing: bool,
        kind: WalkFailureKind,
        descriptor: u32,
    ) -> CpuModel<TBus::Model> {
        let level = full_depth(cpu.regs.pmmu.tc);
        let cause = if kind is SupervisorOnly {
            PagefaultCause::SupervisorOnly
        } else {
            PagefaultCause::WriteProtected
        };
        Self::fault_recorded(
            with_status(cpu, fault_status(cause, level, true)),
            fc,
            vaddr,
            writing,
            TranslationRoute::Atc,
            plain_failure(kind, level, Some(descriptor), CACHED_DETAIL@),
            None,
        )
    }

    /// The outcome of setting a leaf descriptor's M bit, and the processor after it.
    pub open spec fn modified_marked(
        cpu: CpuModel<TBus::Model>,
        fc: u8,
        vaddr: u32,
        descriptor: u32,
        route: TranslationRoute,
        level: u8,
    ) -> (Result<(), CpuErrorModel>, CpuModel<TBus::Model>) {
        let (read, bus) = TBus::long_read(cpu.bus, descriptor);
        let (outcome, bus) = match read {
            Ok(word) => TBus::long_written(bus, descriptor, word | 16),
            Err(error) => (Err(error), bus),
        };
        let cpu = CpuModel { bus, ..cpu };
        match outcome {
            Ok(()) => (Ok(()), cpu),
            Err(error) => (
                Err(CpuErrorModel::Access(error)),
                Self::fault_recorded(
                    cpu,
                    fc,
                    vaddr,
                    true,
                    route,
                    plain_failure(
                        WalkFailureKind::DescriptorUpdate,
                        level,
                        Some(descriptor),
                        error.message,
                    ),
                    None,
                ),
            ),
        }
    }

    /// A lookup that ends in a fault with a status flag: PTEST reports the cause, a real access
    /// takes a bus error and leaves a record.
    pub open spec fn lookup_faulted(
        cpu: CpuModel<TBus::Model>,
        ptest: bool,
        fc: u8,
        vaddr: u32,
        writing: bool,
        cause: PagefaultCause,
        failure: FailureModel,
        walk: WalkModel,
    ) -> (Result<Lookup, CpuErrorModel>, CpuModel<TBus::Model>) {
        let cpu = with_status(cpu, fault_status(cause, walk.level, !ptest));
        if ptest {
            (Err(CpuErrorModel::Pagefault(cause)), cpu)
        } else {
            (
                Err(CpuErrorModel::BusError(pagefault_frame(fc, vaddr, writing))),
                Self::fault_recorded(
                    cpu,
                    fc,
                    vaddr,
                    writing,
                    TranslationRoute::Table,
                    failure,
                    Some(walk),
                ),
            )
        }
    }

    /// The processor when a lookup's search begins. PTEST starts from a clear status and never
    /// changes the tables.
    pub open spec fn lookup_start(cpu: CpuModel<TBus::Model>, ptest: bool) -> CpuModel<
        TBus::Model,
    > {
        let cpu = if ptest {
            with_status(with_last_desc(cpu, 0), RegisterPSR(0))
        } else {
            cpu
        };
        CpuModel { walk_mutate: !ptest, walk_error: None, ..cpu }
    }

    /// What a lookup makes of its finished search. `stopped` is the access that ended it early.
    pub open spec fn lookup_concluded(
        cpu: CpuModel<TBus::Model>,
        ptest: bool,
        fc: u8,
        vaddr: u32,
        writing: bool,
        walk: WalkModel,
        stopped: Option<AccessErrorModel>,
    ) -> (Result<Lookup, CpuErrorModel>, CpuModel<TBus::Model>) {
        match walk.failure {
            Some(failure) => {
                let recorded = if ptest {
                    cpu
                } else {
                    Self::fault_recorded(
                        cpu,
                        fc,
                        vaddr,
                        writing,
                        TranslationRoute::Table,
                        failure,
                        Some(walk),
                    )
                };
                match stopped {
                    Some(error) => (Err(CpuErrorModel::Access(error)), recorded),
                    None => match failure.kind {
                        WalkFailureKind::InvalidDescriptor => Self::lookup_faulted(
                            cpu,
                            ptest,
                            fc,
                            vaddr,
                            writing,
                            PagefaultCause::Invalid,
                            failure,
                            walk,
                        ),
                        WalkFailureKind::LimitViolation => Self::lookup_faulted(
                            cpu,
                            ptest,
                            fc,
                            vaddr,
                            writing,
                            PagefaultCause::LimitViolation,
                            failure,
                            walk,
                        ),
                        _ => (Err(CpuErrorModel::Walk(failure.detail)), recorded),
                    },
                }
            },
            None => {
                let page = walk.resolved->0;
                match protection_failure(page, fc, writing) {
                    Some(kind) => Self::lookup_faulted(
                        cpu,
                        ptest,
                        fc,
                        vaddr,
                        writing,
                        if kind is SupervisorOnly {
                            PagefaultCause::SupervisorOnly
                        } else {
                            PagefaultCause::WriteProtected
                        },
                        plain_failure(
                            kind,
                            walk.level,
                            Some(page.leaf_address),
                            protection_detail(kind),
                        ),
                        walk,
                    ),
                    None => {
                        let found = |modified: bool|
                            (
                                page.physical_address,
                                page.write_protected,
                                page.supervisor_only,
                                page.leaf_address,
                                modified,
                            );
                        if ptest {
                            (
                                Ok(found(page.modified)),
                                with_status(
                                    cpu,
                                    RegisterPSR(
                                        (cpu.regs.pmmu.psr.0 & !7u16) | (walk.level & 7) as u16,
                                    ),
                                ),
                            )
                        } else if writing && !page.modified {
                            match Self::modified_marked(
                                cpu,
                                fc,
                                vaddr,
                                page.leaf_address,
                                TranslationRoute::Table,
                                walk.level,
                            ) {
                                (Ok(()), cpu) => (Ok(found(true)), cpu),
                                (Err(error), cpu) => (Err(error), cpu),
                            }
                        } else {
                            (Ok(found(page.modified)), cpu)
                        }
                    },
                }
            },
        }
    }

    /// The outcome of a table lookup, and the processor after it.
    pub open spec fn looked_up(
        cpu: CpuModel<TBus::Model>,
        ptest: bool,
        fc: u8,
        vaddr: u32,
        writing: bool,
    ) -> (Result<Lookup, CpuErrorModel>, CpuModel<TBus::Model>) {
        let (walk, after) = walked::<Self>(
            Self::lookup_start(cpu, ptest),
            cpu.regs.pmmu.tc,
            root_pointer(cpu.regs.pmmu, fc),
            vaddr,
            fc,
        );
        Self::lookup_concluded(
            CpuModel { walk_mutate: false, walk_error: None, ..after },
            ptest,
            fc,
            vaddr,
            writing,
            walk,
            after.walk_error,
        )
    }

    /// The outcome of translating an access that the cache answers, and the processor after it.
    pub open spec fn translated_by_cache(
        cpu: CpuModel<TBus::Model>,
        entry: PmmuAtcEntry,
        fc: u8,
        vaddr: u32,
        writing: bool,
    ) -> (Result<u32, CpuErrorModel>, CpuModel<TBus::Model>) {
        let regs = cpu.regs.pmmu;
        let physical = entry.paddr | (vaddr & page_mask(regs.tc));
        let rejected = Err::<u32, CpuErrorModel>(
            CpuErrorModel::BusError(pagefault_frame(fc, vaddr, writing)),
        );
        if fc & 4 == 0 && entry.s {
            (
                rejected,
                Self::cache_faulted(
                    cpu,
                    fc,
                    vaddr,
                    writing,
                    WalkFailureKind::SupervisorOnly,
                    entry.leaf_desc_addr,
                ),
            )
        } else if writing && entry.wp {
            (
                rejected,
                Self::cache_faulted(
                    cpu,
                    fc,
                    vaddr,
                    writing,
                    WalkFailureKind::WriteProtected,
                    entry.leaf_desc_addr,
                ),
            )
        } else if writing && !entry.modified {
            match Self::modified_marked(
                cpu,
                fc,
                vaddr,
                entry.leaf_desc_addr,
                TranslationRoute::Atc,
                0,
            ) {
                (Ok(()), cpu) => (
                    Ok(physical),
                    with_slot(
                        cpu,
                        cache_bank(regs, fc),
                        page_number(regs.tc, vaddr) as int,
                        PmmuAtcEntry { modified: true, ..entry },
                    ),
                ),
                (Err(error), cpu) => (Err(error), cpu),
            }
        } else {
            (Ok(physical), cpu)
        }
    }

    /// The outcome of translating an access, and the processor after it.
    pub open spec fn translated(
        cpu: CpuModel<TBus::Model>,
        fc: u8,
        vaddr: u32,
        writing: bool,
    ) -> (Result<u32, CpuErrorModel>, CpuModel<TBus::Model>) {
        let regs = cpu.regs.pmmu;
        if !paged(PMMU, cpu, fc, vaddr, writing) {
            (Ok(vaddr), cpu)
        } else {
            match cache_hit(cpu, fc, vaddr) {
                Some(entry) => Self::translated_by_cache(cpu, entry, fc, vaddr, writing),
                None => match Self::looked_up(cpu, false, fc, vaddr, writing) {
                    (Ok((physical, wp, s, leaf_desc_addr, modified)), cpu) => (
                        Ok(physical),
                        with_slot(
                            cpu,
                            cache_bank(regs, fc),
                            page_number(regs.tc, vaddr) as int,
                            PmmuAtcEntry {
                                function_code: fc,
                                paddr: physical & !page_mask(regs.tc),
                                wp,
                                s,
                                leaf_desc_addr,
                                modified,
                                generation: cpu.generation,
                            },
                        ),
                    ),
                    (Err(error), cpu) => (Err(error), cpu),
                },
            }
        }
    }

    /// Enlarges the caches to what the configuration needs.
    pub fn pmmu_cache_ensure(&mut self)
        requires
            old(self).regs.pmmu.tc.enable() ==> cache_size(old(self).regs.pmmu.tc) <= usize::MAX,
        ensures
            ({
                let before = old(self).model();
                let tc = before.regs.pmmu.tc;
                let size = cache_size(tc);
                if tc.enable() && (before.atc[0].len() < size || before.atc[1].len() < size) {
                    &&& final(self).model() == (CpuModel { atc: final(self).model().atc, ..before })
                    &&& final(self).model().atc.len() == 2
                    &&& forall|bank: int, key: int|
                        0 <= bank < 2 && 0 <= key < size
                            ==> #[trigger] final(self).model().atc[bank][key] == if key
                            < before.atc[bank].len() {
                            before.atc[bank][key]
                        } else {
                            None
                        }
                    &&& final(self).model().atc[0].len() == size
                    &&& final(self).model().atc[1].len() == size
                } else {
                    final(self).model() == before
                }
            }),
    {
        if !self.regs.pmmu.tc.enable() {
            return ;
        }
        proof {
            lemma_page_number_bounded(self.regs.pmmu.tc, 0);
        }
        let size: usize = (u32::MAX >> (self.regs.pmmu.tc.is() + self.regs.pmmu.tc.ps())) as usize
            + 1;
        if self.pmmu_atc[0].len() < size || self.pmmu_atc[1].len() < size {
            self.pmmu_atc[0].resize(size, None);
            self.pmmu_atc[1].resize(size, None);
        }
    }

    /// Flushes the caches.
    pub fn pmmu_cache_invalidate(&mut self)
        ensures
            final(self).model() == flushed(old(self).model()),
    {
        // Incrementing generation invalidates all entries with a lower generation,
        // making ATC flushes very cheap rather than zeroizing the entire cache.
        self.pmmu_atc_generation = self.pmmu_atc_generation.wrapping_add(1);
        if self.pmmu_atc_generation == 0 {
            // Handle wraparound with a full cache purge.
            let cpu_slots: usize = self.pmmu_atc[0].len();
            self.pmmu_atc[0].clear();
            self.pmmu_atc[0].resize(cpu_slots, None);
            let supervisor_slots: usize = self.pmmu_atc[1].len();
            self.pmmu_atc[1].clear();
            self.pmmu_atc[1].resize(supervisor_slots, None);
            self.pmmu_atc_generation = 1;
            assert(self.model().atc[0] =~= flushed(old(self).model()).atc[0]);
            assert(self.model().atc[1] =~= flushed(old(self).model()).atc[1]);
            assert(self.model().atc =~= flushed(old(self).model()).atc);
        }
    }

    /// Looks an address up in the ATC
    pub fn pmmu_atc_lookup(&self, atc: usize, key: usize, function_code: u8) -> (entry: Option<
        PmmuAtcEntry,
    >)
        requires
            atc < 2,
            key < self.model().atc[atc as int].len(),
        ensures
            entry == (match self.model().atc[atc as int][key as int] {
                Some(entry) => if entry.generation == self.pmmu_atc_generation
                    && entry.function_code == function_code {
                    Some(entry)
                } else {
                    None
                },
                None => None,
            }),
    {
        match self.pmmu_atc[atc][key] {
            Some(entry) => if entry.generation == self.pmmu_atc_generation && entry.function_code
                == function_code {
                Some(entry)
            } else {
                None
            },
            None => None,
        }
    }

    /// The root pointer of an access.
    pub fn pmmu_rootptr(&self, fc: u8) -> (root: RootPointerReg)
        ensures
            root == root_pointer(self.regs.pmmu, fc),
    {
        // M68851 manual 5.1.4.2
        // + Table 3-1, M68000 Family Function Code Assignments
        //
        // FC3 is not output by the 68020 so we ignore DRP here
        if fc & 4 != 0 && self.regs.pmmu.tc.sre() {
            self.regs.pmmu.srp
        } else {
            self.regs.pmmu.crp
        }
    }

    /// The cache of an access.
    pub fn pmmu_atc_tableidx(&self, fc: u8) -> (bank: usize)
        ensures
            bank == cache_bank(self.regs.pmmu, fc),
    {
        if fc & 4 != 0 && self.regs.pmmu.tc.sre() {
            PMMU_ATC_SRP
        } else {
            PMMU_ATC_URP
        }
    }

    /// The first enabled TT register that transparently maps this access, if any.
    /// TT regions bypass the page tables and the ATC entirely.
    pub fn pmmu_tt_index(&self, fc: u8, vaddr: u32, writing: bool) -> (index: Option<usize>)
        ensures
            index == (match transparent_register(self.regs.pmmu, fc, vaddr, writing) {
                Some(index) => Some(index as usize),
                None => None,
            }),
    {
        let mut index: usize = 0;
        while index < 2
            invariant
                index <= 2,
                forall|i: int|
                    0 <= i < index ==> !transparently_maps(
                        #[trigger] self.regs.pmmu.tt[i],
                        fc,
                        vaddr,
                        writing,
                    ),
            decreases 2 - index,
        {
            let tt = self.regs.pmmu.tt[index];
            // FC: bits set in fc_mask are don't-cares.
            let fc_care: u8 = !tt.fc_mask() & 7;
            // MC68030 UM 9.7.3: R/W=1 means read; RWM=1 ignores direction.
            let direction: bool = tt.rwm() || writing != tt.rw();
            // Address comparison uses only the top byte; low 24 bits are ignored.
            let addr_care: u32 = !tt.le_mask() & 0xFF;
            if tt.e() && fc & fc_care == tt.fc_base() & fc_care && direction && (vaddr >> 24)
                & addr_care == tt.le_base() & addr_care {
                return Some(index);
            }
            index = index + 1;
        }
        None
    }

    /// Replaces a cache slot.
    fn pmmu_atc_store(&mut self, bank: usize, key: usize, entry: PmmuAtcEntry)
        requires
            bank < 2,
            key < old(self).model().atc[bank as int].len(),
        ensures
            final(self).model() == with_slot(old(self).model(), bank as int, key as int, entry),
    {
        self.pmmu_atc[bank][key] = Some(entry);
        assert(self.model().atc =~= with_slot(
            old(self).model(),
            bank as int,
            key as int,
            entry,
        ).atc);
    }

    /// Captures the original attempt before exception entry can replace its context.
    pub fn record_mmu_fault(
        &mut self,
        fc: u8,
        vaddr: u32,
        writing: bool,
        route: TranslationRoute,
        failure: WalkFailure,
        tables: Option<&TableWalk>,
    )
        ensures
            final(self).model() == Self::fault_recorded(
                old(self).model(),
                fc,
                vaddr,
                writing,
                route,
                failure@,
                match tables {
                    Some(tables) => Some(tables@),
                    None => None,
                },
            ),
    {
        if self.history_enabled {
            let detail = TranslationFault {
                signal: fault_signal(failure.kind),
                address: vaddr,
                function_code: fc,
                writing,
                instruction_pc: self.debug_instruction_pc,
                pc_at_attempt: self.regs.pc,
                cycle: self.bus.cycles(),
                sr: self.regs.sr,
                status: self.regs.pmmu.psr.0,
                tc: self.regs.pmmu.tc.0,
                root: if self.pmmu_atc_tableidx(fc) == 0 {
                    RootBank::Cpu
                } else {
                    RootBank::Supervisor
                },
                root_pointer: self.pmmu_rootptr(fc).0,
                cache_generation: self.pmmu_atc_generation,
                route,
                failure,
                tables: match tables {
                    Some(tables) => Some(tables.duplicate()),
                    None => None,
                },
            };
            self.push_history(
                HistoryEntry::Pagefault { address: vaddr, write: writing, detail: Box::new(detail) },
            );
        }
    }

    /// Reports an access that the cache rejects.
    pub fn pmmu_record_atc_fault(
        &mut self,
        fc: u8,
        vaddr: u32,
        writing: bool,
        kind: WalkFailureKind,
        descriptor: u32,
    )
        ensures
            final(self).model() == Self::cache_faulted(
                old(self).model(),
                fc,
                vaddr,
                writing,
                kind,
                descriptor,
            ),
    {
        let level: u8 = count_levels(self.regs.pmmu.tc);
        let cause = if kind == WalkFailureKind::SupervisorOnly {
            PagefaultCause::SupervisorOnly
        } else {
            PagefaultCause::WriteProtected
        };
        self.regs.pmmu.psr = fault_psr(cause, level, true);
        let mut failure = WalkFailure::new(kind, Some(descriptor), CACHED_DETAIL.to_owned());
        failure.level = level;
        self.record_mmu_fault(fc, vaddr, writing, TranslationRoute::Atc, failure, None);
    }

    /// Builds the Group-0 BusError stack frame error value for a page fault.
    pub fn pmmu_pagefault_to_buserror(fc: u8, vaddr: u32, writing: bool) -> (error: CpuError)
        ensures
            error@ == CpuErrorModel::BusError(pagefault_frame(fc, vaddr, writing)),
    {
        CpuError::BusError(pagefault_frame(fc, vaddr, writing))
    }

    /// Sets M in a leaf descriptor by reading and writing it back.
    pub fn mark_translation_modified(
        &mut self,
        fc: u8,
        vaddr: u32,
        descriptor: u32,
        route: TranslationRoute,
        level: u8,
    ) -> (result: Result<(), CpuError>)
        ensures
            update_outcome(result) == Self::modified_marked(
                old(self).model(),
                fc,
                vaddr,
                descriptor,
                route,
                level,
            ).0,
            final(self).model() == Self::modified_marked(
                old(self).model(),
                fc,
                vaddr,
                descriptor,
                route,
                level,
            ).1,
    {
        let result = match self.bus.read_ticks_physical(descriptor) {
            Ok(word) => self.bus.write_ticks_physical(descriptor, word | 16),
            Err(error) => Err(error),
        };
        match result {
            Ok(()) => Ok(()),
            Err(error) => {
                let mut failure = WalkFailure::new(
                    WalkFailureKind::DescriptorUpdate,
                    Some(descriptor),
                    error.message.clone(),
                );
                failure.level = level;
                self.record_mmu_fault(fc, vaddr, true, route, failure, None);
                Err(CpuError::Access(error))
            },
        }
    }
}

/// The processor after a flush: a new generation, or an empty first one once the counter wraps.
pub open spec fn flushed<M>(cpu: CpuModel<M>) -> CpuModel<M> {
    if cpu.generation == u32::MAX {
        CpuModel {
            atc: seq![
                Seq::new(cpu.atc[0].len(), |i: int| None::<PmmuAtcEntry>),
                Seq::new(cpu.atc[1].len(), |i: int| None::<PmmuAtcEntry>),
            ],
            generation: 1,
            ..cpu
        }
    } else {
        CpuModel { generation: (cpu.generation + 1) as u32, ..cpu }
    }
}

impl<
    TBus: Bus,
    const ADDRESS_MASK: u32,
    const CPU_TYPE: usize,
    const FPU_TYPE: usize,
    const PMMU: bool,
> CpuM68k<TBus, ADDRESS_MASK, CPU_TYPE, FPU_TYPE, PMMU> {
    /// A search changes nothing of the processor but what belongs to the search.
    pub proof fn lemma_search_frame(
        cpu: CpuModel<TBus::Model>,
        tc: TcReg,
        logical: u32,
        fc: u8,
        done: nat,
        search: Search,
    )
        ensures
            same_beside_search(cpu, searched::<Self>(cpu, tc, logical, fc, done, search).1),
        decreases 5 - done,
    {
        let fields = walk::index_fields(tc);
        if done < fields.len() && done < 5 {
            let (source, bits) = fields[done as int];
            let index = walk::descriptor_index(source, bits, search.consumed, logical, fc);
            let address = walk::entry_address(search, index);
            let selected = Self::selected(cpu, address);
            assert(same_beside_search(cpu, selected));
            let (read, after) = walk::descriptor_read::<Self>(selected, address, search.long);
            assert(same_beside_search(cpu, after));
            if let Ok(words) = read {
                let step = walk::decoded(
                    (done + 1) as u8,
                    source,
                    index,
                    address,
                    search.long,
                    words,
                    search.limit,
                );
                let (marked, marked_cpu) = Self::used_marked(after, address, words[0]);
                assert(same_beside_search(cpu, marked_cpu));
                let next = if step.used {
                    after
                } else {
                    marked_cpu
                };
                let below = walk::descended(search, bits, step);
                Self::lemma_search_frame(next, tc, logical, fc, done + 1, below);
                let last = searched::<Self>(next, tc, logical, fc, done + 1, below).1;
                assert(same_beside_search(cpu, last));
            }
        }
    }

    /// A walk changes nothing of the processor but what belongs to the search.
    pub proof fn lemma_walk_frame(
        cpu: CpuModel<TBus::Model>,
        tc: TcReg,
        root: RootPointerReg,
        logical: u32,
        fc: u8,
    )
        ensures
            same_beside_search(cpu, walked::<Self>(cpu, tc, root, logical, fc).1),
    {
        Self::lemma_search_frame(cpu, tc, logical, fc, 0, walk::search_start(tc, root));
    }

    /// Perform address translation by performing a page table lookup.
    /// Returns (physical address, wp, s, leaf descriptor address, M-bit), or error:
    ///  - bus error stack frame for translation,
    ///  - simple error on PTEST.
    pub fn pmmu_translate_lookup<const PTEST: bool>(
        &mut self,
        fc: u8,
        vaddr: u32,
        writing: bool,
    ) -> (result: Result<Lookup, CpuError>)
        ensures
            lookup_outcome(result) == Self::looked_up(
                old(self).model(),
                PTEST,
                fc,
                vaddr,
                writing,
            ).0,
            final(self).model() == Self::looked_up(
                old(self).model(),
                PTEST,
                fc,
                vaddr,
                writing,
            ).1,
    {
        let rootptr = self.pmmu_rootptr(fc);
        let tc = self.regs.pmmu.tc;
        if PTEST {
            self.regs.pmmu.psr = RegisterPSR::cleared();
            self.regs.pmmu.last_desc = 0;
        }
        self.walk_mutate = !PTEST;
        self.walk_error = None;
        assert(self.model() == Self::lookup_start(old(self).model(), PTEST));
        let walk = walk_tables(self, tc, rootptr, vaddr, fc);
        let stopped = self.walk_error.take();
        self.walk_mutate = false;
        let level: u8 = walk.level;
        if let Some(failure) = &walk.failure {
            if let Some(error) = stopped {
                if !PTEST {
                    self.record_mmu_fault(
                        fc,
                        vaddr,
                        writing,
                        TranslationRoute::Table,
                        failure.duplicate(),
                        Some(&walk),
                    );
                }
                return Err(CpuError::Access(error));
            }
            let cause = match failure.kind {
                WalkFailureKind::InvalidDescriptor => PagefaultCause::Invalid,
                WalkFailureKind::LimitViolation => PagefaultCause::LimitViolation,
                _ => {
                    if !PTEST {
                        self.record_mmu_fault(
                            fc,
                            vaddr,
                            writing,
                            TranslationRoute::Table,
                            failure.duplicate(),
                            Some(&walk),
                        );
                    }
                    return Err(CpuError::Walk(failure.detail.clone()));
                },
            };
            self.regs.pmmu.psr = fault_psr(cause, level, !PTEST);
            if PTEST {
                return Err(CpuError::Pagefault(cause));
            }
            self.record_mmu_fault(
                fc,
                vaddr,
                writing,
                TranslationRoute::Table,
                failure.duplicate(),
                Some(&walk),
            );
            return Err(Self::pmmu_pagefault_to_buserror(fc, vaddr, writing));
        }
        proof {
            walk::law_walk_resolves_or_fails::<Self>(
                Self::lookup_start(old(self).model(), PTEST),
                tc,
                rootptr,
                vaddr,
                fc,
            );
        }
        let page = walk.resolved.unwrap();
        if let Some(kind) = protection_failure(page, fc, writing) {
            let (cause, detail) = if kind == WalkFailureKind::SupervisorOnly {
                (PagefaultCause::SupervisorOnly, SUPERVISOR_DETAIL)
            } else {
                (PagefaultCause::WriteProtected, WRITE_DETAIL)
            };
            self.regs.pmmu.psr = fault_psr(cause, level, !PTEST);
            if PTEST {
                return Err(CpuError::Pagefault(cause));
            }
            let mut failure = WalkFailure::new(kind, Some(page.leaf_address), detail.to_owned());
            failure.level = level;
            self.record_mmu_fault(
                fc,
                vaddr,
                writing,
                TranslationRoute::Table,
                failure,
                Some(&walk),
            );
            return Err(Self::pmmu_pagefault_to_buserror(fc, vaddr, writing));
        }
        let mut modified: bool = page.modified;
        // Set M on the leaf descriptor on first write. PTEST never mutates the
        // tables; only real translations do.
        if !PTEST && writing && !modified {
            if let Err(error) = self.mark_translation_modified(
                fc,
                vaddr,
                page.leaf_address,
                TranslationRoute::Table,
                level,
            ) {
                return Err(error);
            }
            modified = true;
        }
        if PTEST {
            self.regs.pmmu.psr.set_level_number(level);
        }
        Ok(
            (
                page.physical_address,
                page.write_protected,
                page.supervisor_only,
                page.leaf_address,
                modified,
            ),
        )
    }

    /// What a lookup concludes changes neither the caches nor their configuration.
    pub proof fn lemma_lookup_keeps_caches(
        cpu: CpuModel<TBus::Model>,
        ptest: bool,
        fc: u8,
        vaddr: u32,
        writing: bool,
    )
        ensures
            ({
                let after = Self::looked_up(cpu, ptest, fc, vaddr, writing).1;
                &&& after.atc == cpu.atc
                &&& after.generation == cpu.generation
                &&& after.regs.pmmu.tc == cpu.regs.pmmu.tc
                &&& after.walk_error is None
                &&& !after.walk_mutate
            }),
    {
        Self::lemma_walk_frame(
            Self::lookup_start(cpu, ptest),
            cpu.regs.pmmu.tc,
            root_pointer(cpu.regs.pmmu, fc),
            vaddr,
            fc,
        );
    }

    /// Translates the address of one access.
    pub fn pmmu_translate(&mut self, fc: u8, vaddr: u32, writing: bool) -> (result: Result<
        u32,
        CpuError,
    >)
        requires
            paged(PMMU, old(self).model(), fc, vaddr, writing) ==> page_number(
                old(self).regs.pmmu.tc,
                vaddr,
            ) < old(self).model().atc[cache_bank(old(self).regs.pmmu, fc)].len(),
        ensures
            address_outcome(result) == Self::translated(old(self).model(), fc, vaddr, writing).0,
            final(self).model() == Self::translated(old(self).model(), fc, vaddr, writing).1,
    {
        if !PMMU {
            return Ok(vaddr);
        }
        // CPU-space cycles do not use translation tables (MC68030 UM 9.2.1,
        // MC68851 UM 4.2.3.5). Coprocessor register decoding belongs to the CPU/bus.
        if fc == 7 {
            return Ok(vaddr);
        }
        // Transparent translation runs even when TC.E=0; TT regions are
        // identity-mapped and bypass the page tables and the ATC.
        if self.pmmu_tt_index(fc, vaddr, writing).is_some() {
            return Ok(vaddr);
        }
        if !self.regs.pmmu.tc.enable() {
            return Ok(vaddr);
        }
        let tc = self.regs.pmmu.tc;
        proof {
            lemma_field_widths(tc);
            lemma_page_mask(tc.ps());
        }
        let supervisor: bool = fc & 4 != 0;
        let atc: usize = self.pmmu_atc_tableidx(fc);
        let page_mask: u32 = (1u32 << tc.ps()) - 1;
        let cache_key: usize = ((vaddr & (u32::MAX >> tc.is())) >> tc.ps()) as usize;
        if let Some(entry) = self.pmmu_atc_lookup(atc, cache_key, fc) {
            if !supervisor && entry.s {
                self.pmmu_record_atc_fault(
                    fc,
                    vaddr,
                    writing,
                    WalkFailureKind::SupervisorOnly,
                    entry.leaf_desc_addr,
                );
                return Err(Self::pmmu_pagefault_to_buserror(fc, vaddr, writing));
            }
            if writing && entry.wp {
                self.pmmu_record_atc_fault(
                    fc,
                    vaddr,
                    writing,
                    WalkFailureKind::WriteProtected,
                    entry.leaf_desc_addr,
                );
                return Err(Self::pmmu_pagefault_to_buserror(fc, vaddr, writing));
            }
            if writing && !entry.modified {
                // First write through an unmodified page: RMW the leaf
                // descriptor to set the M bit, then promote the ATC entry.
                if let Err(error) = self.mark_translation_modified(
                    fc,
                    vaddr,
                    entry.leaf_desc_addr,
                    TranslationRoute::Atc,
                    0,
                ) {
                    return Err(error);
                }
                self.pmmu_atc_store(
                    atc,
                    cache_key,
                    PmmuAtcEntry {
                        function_code: entry.function_code,
                        paddr: entry.paddr,
                        wp: entry.wp,
                        s: entry.s,
                        leaf_desc_addr: entry.leaf_desc_addr,
                        modified: true,
                        generation: entry.generation,
                    },
                );
            }
            return Ok(entry.paddr | (vaddr & page_mask));
        }
        proof {
            Self::lemma_lookup_keeps_caches(old(self).model(), false, fc, vaddr, writing);
        }
        match self.pmmu_translate_lookup::<false>(fc, vaddr, writing) {
            Err(error) => Err(error),
            Ok((paddr, wp, s, leaf_desc_addr, modified)) => {
                let generation: u32 = self.pmmu_atc_generation;
                self.pmmu_atc_store(
                    atc,
                    cache_key,
                    PmmuAtcEntry {
                        function_code: fc,
                        paddr: paddr & !page_mask,
                        wp,
                        s,
                        leaf_desc_addr,
                        modified,
                        generation,
                    },
                );
                Ok(paddr)
            },
        }
    }
}

/// The page offset mask of a width that TC can hold.
pub proof fn lemma_page_mask(bits: u32)
    requires
        bits <= 15,
    ensures
        1u32 << bits >= 1,
{
    assert(1u32 << bits >= 1) by (bit_vector)
        requires
            bits <= 15,
    ;
}

} // verus!
