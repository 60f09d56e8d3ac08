//! What translating an access does, in numbers: where it goes, how it fails, what the status and
//! the history say then, and what is left in the cache.

use vstd::arithmetic::power2::pow2;
use vstd::prelude::*;

use crate::bus::{AccessErrorModel, Bus};
use crate::cpu_m68k::cpu::{
    CpuErrorModel, CpuM68k, CpuModel, HistoryModel, PagefaultCause, RegisterFile,
};
use crate::cpu_m68k::pmmu::access::{
    all_levels, answer, bank_of, by_supervisor_root, entry_page, goes_through, lemma_function_code,
    lemma_page_join, lemma_page_number, lemma_root, lemma_tt, page_of, page_size, rejection,
    table_page, Place,
};
use crate::cpu_m68k::pmmu::inspect::{FaultSignal, RootBank, TranslationRoute};
use crate::cpu_m68k::pmmu::laws::{
    generations_ordered, law_flush_forgets_every_entry, pages_aligned,
};
use crate::cpu_m68k::pmmu::meaning::{lemma_low_ones, lemma_tc_numbers, walk_means};
use crate::cpu_m68k::pmmu::regs::{PmmuRegs, RegisterPSR, RootPointerReg, TcReg};
use crate::cpu_m68k::pmmu::translate::{
    fault_status, flushed, full_depth, page_mask, page_number, protection_detail, with_status,
    PmmuAtcEntry, CACHED_DETAIL,
};
use crate::cpu_m68k::pmmu::walk::{
    decoded, descended, descriptor_index, descriptor_read, entry_address, index_fields,
    law_walk_resolves_or_fails, lemma_field_widths, plain_failure, search_start, searched, walked,
    FailureModel, Search, WalkFailureKind, WalkMemory, WalkModel,
};

verus! {

/// The root pointer of an access, by the bits that choose it.
pub open spec fn root_of(regs: PmmuRegs, fc: u8) -> RootPointerReg {
    if by_supervisor_root(regs, fc) {
        regs.srp
    } else {
        regs.crp
    }
}

/// The bit of the status that stands for a failure: L is bit 14, S bit 13, W bit 11 and I bit 10.
pub open spec fn status_bit(kind: WalkFailureKind) -> int {
    match kind {
        WalkFailureKind::LimitViolation => 0x4000,
        WalkFailureKind::SupervisorOnly => 0x2000,
        WalkFailureKind::WriteProtected => 0x800,
        WalkFailureKind::InvalidDescriptor => 0x400,
        _ => 0,
    }
}

/// What a failure is to the guest: a page fault, an access to the tables that failed, or a search
/// that could not be made.
pub open spec fn signal_of(kind: WalkFailureKind) -> FaultSignal {
    match kind {
        WalkFailureKind::UnreadableDescriptor => FaultSignal::TableAccessFailure,
        WalkFailureKind::DescriptorUpdate => FaultSignal::TableAccessFailure,
        WalkFailureKind::LimitViolation => FaultSignal::PageFault,
        WalkFailureKind::SupervisorOnly => FaultSignal::PageFault,
        WalkFailureKind::WriteProtected => FaultSignal::PageFault,
        WalkFailureKind::InvalidDescriptor => FaultSignal::PageFault,
        _ => FaultSignal::BackendFailure,
    }
}

/// Whether nothing of the registers has changed but the MMU's status and its last descriptor.
pub open spec fn registers_kept(before: RegisterFile, after: RegisterFile) -> bool {
    after == (RegisterFile {
        pmmu: PmmuRegs {
            psr: after.pmmu.psr,
            last_desc: after.pmmu.last_desc,
            ..before.pmmu
        },
        ..before
    })
}

/// Whether the history has the failure of an access as its newest entry, if it is kept at all: what
/// was accessed and how, by which instruction and when, with which registers, why and where it failed,
/// and what the tables said, if they were searched. Ten thousand entries are kept, and the oldest
/// gives way.
pub open spec fn failure_recorded<B: Bus>(
    before: CpuModel<B::Model>,
    after: CpuModel<B::Model>,
    fc: u8,
    address: u32,
    writing: bool,
    route: TranslationRoute,
    kind: WalkFailureKind,
    level: int,
    place: Option<u32>,
    tables: Option<WalkModel>,
) -> bool {
    let count = before.history.len();
    if !before.history_enabled {
        after.history == before.history
    } else {
        &&& after.history.len() == if count >= 10_000 {
            count
        } else {
            count + 1
        }
        &&& forall|back: int|
            1 <= back < after.history.len() ==> #[trigger] after.history[after.history.len() - 1
                - back] == before.history[count - back]
        &&& after.history.last() matches HistoryModel::Pagefault {
            address: accessed,
            write,
            detail,
        }
        &&& accessed == address && write == writing
        &&& detail.address == address
        &&& detail.function_code == fc
        &&& detail.writing == writing
        &&& detail.signal == signal_of(kind)
        &&& detail.route == route
        &&& detail.failure.kind == kind
        &&& detail.failure.level == level
        &&& detail.failure.address == place
        &&& detail.tables == tables
        &&& detail.instruction_pc == before.debug_instruction_pc
        &&& detail.pc_at_attempt == before.regs.pc
        &&& detail.sr == before.regs.sr
        &&& detail.cycle == B::clock(after.bus)
        &&& detail.status == after.regs.pmmu.psr.0
        &&& detail.tc == before.regs.pmmu.tc.0
        &&& detail.root == if by_supervisor_root(before.regs.pmmu, fc) {
            RootBank::Supervisor
        } else {
            RootBank::Cpu
        }
        &&& detail.root_pointer == root_of(before.regs.pmmu, fc).0
        &&& detail.cache_generation == before.generation
    }
}

/// Whether an access takes a bus error: the frame tells the access, the status the cause and the
/// level with the B bit set, and the caches stay.
pub open spec fn faulted<B: Bus>(
    before: CpuModel<B::Model>,
    outcome: Result<u32, CpuErrorModel>,
    after: CpuModel<B::Model>,
    fc: u8,
    address: u32,
    writing: bool,
    route: TranslationRoute,
    kind: WalkFailureKind,
    level: int,
    place: Option<u32>,
    tables: Option<WalkModel>,
) -> bool {
    &&& outcome matches Err(CpuErrorModel::BusError(frame))
    &&& frame.function_code == fc
    &&& frame.address == address
    &&& frame.read == !writing
    &&& !frame.instruction
    &&& frame.ir == 0 && frame.start_pc == 0 && frame.size == 0
    &&& after.regs.pmmu.psr.0 == 0x8000 + status_bit(kind) + level
    &&& after.atc == before.atc
    &&& failure_recorded::<B>(
        before,
        after,
        fc,
        address,
        writing,
        route,
        kind,
        level,
        place,
        tables,
    )
}

/// Whether an access fails without a fault of its own: the status and the caches stay.
pub open spec fn stopped<B: Bus>(
    before: CpuModel<B::Model>,
    after: CpuModel<B::Model>,
    fc: u8,
    address: u32,
    writing: bool,
    route: TranslationRoute,
    kind: WalkFailureKind,
    level: int,
    place: Option<u32>,
    tables: Option<WalkModel>,
) -> bool {
    &&& after.regs.pmmu.psr == before.regs.pmmu.psr
    &&& after.atc == before.atc
    &&& failure_recorded::<B>(
        before,
        after,
        fc,
        address,
        writing,
        route,
        kind,
        level,
        place,
        tables,
    )
}

/// Whether a cache has an entry in a slot, and every other slot is as it was.
pub open spec fn slot_filled<M>(
    before: CpuModel<M>,
    after: CpuModel<M>,
    bank: int,
    page: int,
    entry: PmmuAtcEntry,
) -> bool {
    &&& after.atc.len() == before.atc.len()
    &&& forall|other: int|
        0 <= other < before.atc.len() ==> (#[trigger] after.atc[other]).len()
            == before.atc[other].len()
    &&& forall|other: int, key: int|
        0 <= other < before.atc.len() && 0 <= key < before.atc[other].len() ==> #[trigger]
            after.atc[other][key] == if other == bank && key == page {
                Some(entry)
            } else {
                before.atc[other][key]
            }
}

/// The entry that a page leaves in the cache.
pub open spec fn entry_of(page: Place, tc: TcReg, fc: u8, writing: bool, generation: u32) -> PmmuAtcEntry {
    PmmuAtcEntry {
        function_code: fc,
        paddr: (page.address - page.address % page_size(tc)) as u32,
        wp: page.protected,
        s: page.supervisor,
        leaf_desc_addr: page.leaf,
        modified: page.modified || writing,
        generation,
    }
}

/// Whether translating an access does what the registers, the cache and the tables call for, where
/// `walk` is what the tables say. An access that does not go through them keeps its address and
/// leaves no trace. Otherwise the cache answers if it can, and the tables if not; the page's
/// protection rejects the access or lets it go to its place. The first write through a page marks
/// its descriptor, and the tables leave what they say in the cache.
pub open spec fn translation_means<B: Bus>(
    pmmu: bool,
    before: CpuModel<B::Model>,
    outcome: Result<u32, CpuErrorModel>,
    after: CpuModel<B::Model>,
    fc: u8,
    address: u32,
    writing: bool,
    walk: WalkModel,
) -> bool {
    let regs = before.regs.pmmu;
    let tc = regs.tc;
    let bank = bank_of(regs, fc);
    let slot = page_of(tc, address);
    if !goes_through(pmmu, regs, fc, address, writing) {
        outcome == Ok::<u32, CpuErrorModel>(address) && after == before
    } else {
        &&& registers_kept(before.regs, after.regs)
        &&& after.generation == before.generation
        &&& after.history_enabled == before.history_enabled
        &&& outcome is Ok ==> after.history == before.history && after.regs.pmmu.psr
            == before.regs.pmmu.psr
        &&& match answer(before, fc, address) {
            Some(entry) => {
                let page = entry_page(entry, tc, address);
                match rejection(page, fc, writing) {
                    Some(kind) => {
                        &&& faulted::<B>(
                            before,
                            outcome,
                            after,
                            fc,
                            address,
                            writing,
                            TranslationRoute::Atc,
                            kind,
                            all_levels(tc),
                            Some(page.leaf),
                            None,
                        )
                        &&& after.bus == before.bus
                    },
                    None => if writing && !entry.modified {
                        match outcome {
                            Ok(place) => place == page.address && slot_filled(
                                before,
                                after,
                                bank,
                                slot,
                                PmmuAtcEntry { modified: true, ..entry },
                            ),
                            Err(error) => error is Access && stopped::<B>(
                                before,
                                after,
                                fc,
                                address,
                                true,
                                TranslationRoute::Atc,
                                WalkFailureKind::DescriptorUpdate,
                                0,
                                Some(page.leaf),
                                None,
                            ),
                        }
                    } else {
                        &&& outcome matches Ok(place) && place == page.address
                        &&& after == before
                    },
                }
            },
            None => match walk.failure {
                Some(failure) => if failure.kind is InvalidDescriptor
                    || failure.kind is LimitViolation {
                    faulted::<B>(
                        before,
                        outcome,
                        after,
                        fc,
                        address,
                        writing,
                        TranslationRoute::Table,
                        failure.kind,
                        walk.level as int,
                        failure.address,
                        Some(walk),
                    )
                } else {
                    &&& if failure.kind is UnreadableDescriptor || failure.kind is DescriptorUpdate {
                        outcome matches Err(CpuErrorModel::Access(_))
                    } else {
                        outcome == Err::<u32, CpuErrorModel>(CpuErrorModel::Walk(failure.detail))
                    }
                    &&& stopped::<B>(
                        before,
                        after,
                        fc,
                        address,
                        writing,
                        TranslationRoute::Table,
                        failure.kind,
                        walk.level as int,
                        failure.address,
                        Some(walk),
                    )
                },
                None => {
                    let page = table_page(walk)->0;
                    match rejection(page, fc, writing) {
                        Some(kind) => faulted::<B>(
                            before,
                            outcome,
                            after,
                            fc,
                            address,
                            writing,
                            TranslationRoute::Table,
                            kind,
                            walk.level as int,
                            Some(page.leaf),
                            Some(walk),
                        ),
                        None => match outcome {
                            Ok(place) => place == page.address && slot_filled(
                                before,
                                after,
                                bank,
                                slot,
                                entry_of(page, tc, fc, writing, before.generation),
                            ),
                            Err(error) => {
                                &&& writing && !page.modified
                                &&& error is Access
                                &&& stopped::<B>(
                                    before,
                                    after,
                                    fc,
                                    address,
                                    true,
                                    TranslationRoute::Table,
                                    WalkFailureKind::DescriptorUpdate,
                                    walk.level as int,
                                    Some(page.leaf),
                                    None,
                                )
                            },
                        },
                    }
                },
            },
        }
    }
}

/// The status of a fault, as a sum.
proof fn lemma_status(cause: PagefaultCause, level: u8, bus_error: bool)
    requires
        level <= 7,
    ensures
        fault_status(cause, level, bus_error).0 == level + (match cause {
            PagefaultCause::Invalid => 0x400int,
            PagefaultCause::LimitViolation => 0x4000,
            PagefaultCause::SupervisorOnly => 0x2000,
            PagefaultCause::WriteProtected => 0x800,
        }) + (if bus_error {
            0x8000int
        } else {
            0
        }),
{
    let number = (level & 7) as u16;
    assert(level <= 7 ==> (level & 7) as u16 == level && 0x400u16 | number | 0x8000 == 0x8400
        + number && 0x4000u16 | number | 0x8000 == 0xC000 + number && 0x2000u16 | number | 0x8000
        == 0xA000 + number && 0x800u16 | number | 0x8000 == 0x8800 + number && 0x400u16 | number | 0
        == 0x400 + number && 0x4000u16 | number | 0 == 0x4000 + number && 0x2000u16 | number | 0
        == 0x2000 + number && 0x800u16 | number | 0 == 0x800 + number) by (bit_vector)
        requires
            number == (level & 7) as u16,
    ;
}

/// Whether a probe reports what the tables say, where `walk` is what they say: the page, or why there
/// is none. The status has the level and the cause, and no B bit; the caches and the history stay.
pub open spec fn probe_means<M>(
    before: CpuModel<M>,
    outcome: Result<(u32, bool, bool, u32, bool), CpuErrorModel>,
    after: CpuModel<M>,
    fc: u8,
    writing: bool,
    walk: WalkModel,
) -> bool {
    &&& registers_kept(before.regs, after.regs)
    &&& after.atc == before.atc
    &&& after.generation == before.generation
    &&& after.history == before.history
    &&& after.history_enabled == before.history_enabled
    &&& match walk.failure {
        Some(failure) => if failure.kind is InvalidDescriptor || failure.kind is LimitViolation {
            &&& outcome == Err::<(u32, bool, bool, u32, bool), CpuErrorModel>(
                CpuErrorModel::Pagefault(
                    if failure.kind is InvalidDescriptor {
                        PagefaultCause::Invalid
                    } else {
                        PagefaultCause::LimitViolation
                    },
                ),
            )
            &&& after.regs.pmmu.psr.0 == status_bit(failure.kind) + walk.level
        } else {
            &&& after.regs.pmmu.psr.0 == 0
            &&& if failure.kind is UnreadableDescriptor || failure.kind is DescriptorUpdate {
                outcome matches Err(CpuErrorModel::Access(_))
            } else {
                outcome == Err::<(u32, bool, bool, u32, bool), CpuErrorModel>(
                    CpuErrorModel::Walk(failure.detail),
                )
            }
        },
        None => {
            let page = table_page(walk)->0;
            match rejection(page, fc, writing) {
                Some(kind) => {
                    &&& outcome == Err::<(u32, bool, bool, u32, bool), CpuErrorModel>(
                        CpuErrorModel::Pagefault(
                            if kind is SupervisorOnly {
                                PagefaultCause::SupervisorOnly
                            } else {
                                PagefaultCause::WriteProtected
                            },
                        ),
                    )
                    &&& after.regs.pmmu.psr.0 == status_bit(kind) + walk.level
                },
                None => {
                    &&& outcome matches Ok((address, protected, supervisor, leaf, modified))
                    &&& address == page.address
                    &&& protected == page.protected
                    &&& supervisor == page.supervisor
                    &&& leaf == page.leaf
                    &&& modified == page.modified
                    &&& after.regs.pmmu.psr.0 == walk.level
                },
            }
        },
    }
}

/// The base of a page is its address without the offset.
pub proof fn lemma_page_base(physical: u32, tc: TcReg)
    ensures
        physical & !page_mask(tc) == physical - physical as int % page_size(tc),
{
    lemma_field_widths(tc);
    lemma_tc_numbers(tc);
    let mask = page_mask(tc);
    lemma_low_ones(physical, tc.ps());
    assert(physical & !mask == physical - (physical & mask)) by (bit_vector);
}

/// A clear status with a level in it.
proof fn lemma_level_status(level: u8)
    requires
        level <= 7,
    ensures
        (0u16 & !7u16) | (level & 7) as u16 == level,
{
    assert(level <= 7 ==> (0u16 & !7u16) | (level & 7) as u16 == level) by (bit_vector);
}

impl<
    TBus: Bus,
    const ADDRESS_MASK: u32,
    const CPU_TYPE: usize,
    const FPU_TYPE: usize,
    const PMMU: bool,
> CpuM68k<TBus, ADDRESS_MASK, CPU_TYPE, FPU_TYPE, PMMU> {
    /// A search keeps the access that stopped it exactly if that is why it fails, and never fails
    /// for the protection of a page.
    proof fn lemma_search_stops(
        cpu: CpuModel<TBus::Model>,
        tc: TcReg,
        logical: u32,
        fc: u8,
        done: nat,
        search: Search,
    )
        requires
            cpu.walk_error is None,
        ensures
            ({
                let (walk, after) = searched::<Self>(cpu, tc, logical, fc, done, search);
                &&& walk.level <= 5
                &&& walk.failure is None ==> after.walk_error is None
                &&& walk.failure matches Some(failure) ==> {
                    &&& failure.level == walk.level
                    &&& after.walk_error is Some <==> failure.kind is UnreadableDescriptor
                        || failure.kind is DescriptorUpdate
                    &&& !(failure.kind is SupervisorOnly || failure.kind is WriteProtected)
                }
            }),
        decreases 5 - done,
    {
        let fields = index_fields(tc);
        if done < fields.len() && done < 5 {
            let (source, bits) = fields[done as int];
            let index = descriptor_index(source, bits, search.consumed, logical, fc);
            let address = entry_address(search, index);
            let selected = Self::selected(cpu, address);
            let (read, after) = descriptor_read::<Self>(selected, address, search.long);
            if let Ok(words) = read {
                let step = decoded(
                    (done + 1) as u8,
                    source,
                    index,
                    address,
                    search.long,
                    words,
                    search.limit,
                );
                assert(after.walk_error is None);
                let marked = Self::used_marked(after, address, words[0]);
                let next = descended(search, bits, step);
                Self::lemma_search_stops(after, tc, logical, fc, done + 1, next);
                if marked.0 is Ok {
                    Self::lemma_search_stops(marked.1, tc, logical, fc, done + 1, next);
                }
            }
        }
    }

    /// What a failure leaves in the history.
    proof fn lemma_recorded(
        before: CpuModel<TBus::Model>,
        cpu: CpuModel<TBus::Model>,
        fc: u8,
        address: u32,
        writing: bool,
        route: TranslationRoute,
        failure: FailureModel,
        tables: Option<WalkModel>,
    )
        requires
            registers_kept(before.regs, cpu.regs),
            cpu.generation == before.generation,
            cpu.history == before.history,
            cpu.history_enabled == before.history_enabled,
            cpu.debug_instruction_pc == before.debug_instruction_pc,
        ensures
            failure_recorded::<TBus>(
                before,
                Self::fault_recorded(cpu, fc, address, writing, route, failure, tables),
                fc,
                address,
                writing,
                route,
                failure.kind,
                failure.level as int,
                failure.address,
                tables,
            ),
    {
        lemma_root(before.regs.pmmu, fc);
    }

    /// A failed search: the fault that it raises, or how it stops the access.
    proof fn lemma_concluded(
        before: CpuModel<TBus::Model>,
        cpu: CpuModel<TBus::Model>,
        fc: u8,
        address: u32,
        writing: bool,
        walk: WalkModel,
        stopped_by: Option<AccessErrorModel>,
    )
        requires
            registers_kept(before.regs, cpu.regs),
            cpu.regs.pmmu.psr == before.regs.pmmu.psr,
            cpu.generation == before.generation,
            cpu.history == before.history,
            cpu.history_enabled == before.history_enabled,
            cpu.debug_instruction_pc == before.debug_instruction_pc,
            cpu.atc == before.atc,
            walk.level <= 7,
            walk.failure matches Some(failure) ==> {
                &&& failure.level == walk.level
                &&& stopped_by is Some <==> failure.kind is UnreadableDescriptor
                    || failure.kind is DescriptorUpdate
                &&& !(failure.kind is SupervisorOnly || failure.kind is WriteProtected)
            },
        ensures
            ({
                let (outcome, after) = Self::lookup_concluded(
                    cpu,
                    false,
                    fc,
                    address,
                    writing,
                    walk,
                    stopped_by,
                );
                &&& registers_kept(before.regs, after.regs)
                &&& after.generation == before.generation
                &&& after.history_enabled == before.history_enabled
                &&& after.atc == before.atc
                &&& outcome is Ok ==> after.history == before.history && after.regs.pmmu.psr
                    == before.regs.pmmu.psr
                &&& match walk.failure {
                    Some(failure) => {
                        &&& outcome is Err
                        &&& if failure.kind is InvalidDescriptor || failure.kind is LimitViolation {
                            faulted::<TBus>(
                                before,
                                Err(outcome->Err_0),
                                after,
                                fc,
                                address,
                                writing,
                                TranslationRoute::Table,
                                failure.kind,
                                walk.level as int,
                                failure.address,
                                Some(walk),
                            )
                        } else {
                            &&& if failure.kind is UnreadableDescriptor
                                || failure.kind is DescriptorUpdate {
                                outcome matches Err(CpuErrorModel::Access(_))
                            } else {
                                outcome->Err_0 == CpuErrorModel::Walk(failure.detail)
                            }
                            &&& stopped::<TBus>(
                                before,
                                after,
                                fc,
                                address,
                                writing,
                                TranslationRoute::Table,
                                failure.kind,
                                walk.level as int,
                                failure.address,
                                Some(walk),
                            )
                        }
                    },
                    None => {
                        let page = table_page(walk)->0;
                        walk.resolved is Some ==> match rejection(page, fc, writing) {
                            Some(kind) => outcome is Err && faulted::<TBus>(
                                before,
                                Err(outcome->Err_0),
                                after,
                                fc,
                                address,
                                writing,
                                TranslationRoute::Table,
                                kind,
                                walk.level as int,
                                Some(page.leaf),
                                Some(walk),
                            ),
                            None => match outcome {
                                Ok((place, protected, supervisor, leaf, modified)) => {
                                    &&& place == page.address
                                    &&& protected == page.protected
                                    &&& supervisor == page.supervisor
                                    &&& leaf == page.leaf
                                    &&& modified == (page.modified || writing)
                                },
                                Err(error) => {
                                    &&& writing && !page.modified
                                    &&& error is Access
                                    &&& stopped::<TBus>(
                                        before,
                                        after,
                                        fc,
                                        address,
                                        true,
                                        TranslationRoute::Table,
                                        WalkFailureKind::DescriptorUpdate,
                                        walk.level as int,
                                        Some(page.leaf),
                                        None,
                                    )
                                },
                            },
                        }
                    },
                }
            }),
    {
        lemma_function_code(fc);
        match walk.failure {
            Some(failure) => {
                if failure.kind is InvalidDescriptor || failure.kind is LimitViolation {
                    let cause = if failure.kind is InvalidDescriptor {
                        PagefaultCause::Invalid
                    } else {
                        PagefaultCause::LimitViolation
                    };
                    lemma_status(cause, walk.level, true);
                    Self::lemma_recorded(
                        before,
                        with_status(cpu, fault_status(cause, walk.level, true)),
                        fc,
                        address,
                        writing,
                        TranslationRoute::Table,
                        failure,
                        Some(walk),
                    );
                } else {
                    Self::lemma_recorded(
                        before,
                        cpu,
                        fc,
                        address,
                        writing,
                        TranslationRoute::Table,
                        failure,
                        Some(walk),
                    );
                }
            },
            None => if walk.resolved is Some {
                let page = walk.resolved->0;
                if let Some(kind) = rejection(table_page(walk)->0, fc, writing) {
                    let cause = if kind is SupervisorOnly {
                        PagefaultCause::SupervisorOnly
                    } else {
                        PagefaultCause::WriteProtected
                    };
                    lemma_status(cause, walk.level, true);
                    Self::lemma_recorded(
                        before,
                        with_status(cpu, fault_status(cause, walk.level, true)),
                        fc,
                        address,
                        writing,
                        TranslationRoute::Table,
                        plain_failure(
                            kind,
                            walk.level,
                            Some(page.leaf_address),
                            protection_detail(kind),
                        ),
                        Some(walk),
                    );
                } else if writing && !page.modified {
                    Self::lemma_marked(
                        before,
                        cpu,
                        fc,
                        address,
                        page.leaf_address,
                        TranslationRoute::Table,
                        walk.level,
                    );
                }
            },
        }
    }

    /// What setting the M bit of a leaf descriptor does, beside the bus.
    proof fn lemma_marked(
        before: CpuModel<TBus::Model>,
        cpu: CpuModel<TBus::Model>,
        fc: u8,
        address: u32,
        leaf: u32,
        route: TranslationRoute,
        level: u8,
    )
        requires
            registers_kept(before.regs, cpu.regs),
            cpu.regs.pmmu.psr == before.regs.pmmu.psr,
            cpu.generation == before.generation,
            cpu.history == before.history,
            cpu.history_enabled == before.history_enabled,
            cpu.debug_instruction_pc == before.debug_instruction_pc,
            cpu.atc == before.atc,
        ensures
            ({
                let (outcome, after) = Self::modified_marked(cpu, fc, address, leaf, route, level);
                &&& registers_kept(before.regs, after.regs)
                &&& after.generation == before.generation
                &&& after.history_enabled == before.history_enabled
                &&& after.atc == before.atc
                &&& after.regs.pmmu.psr == before.regs.pmmu.psr
                &&& match outcome {
                    Ok(_) => after.history == before.history,
                    Err(error) => error is Access && stopped::<TBus>(
                        before,
                        after,
                        fc,
                        address,
                        true,
                        route,
                        WalkFailureKind::DescriptorUpdate,
                        level as int,
                        Some(leaf),
                        None,
                    ),
                }
            }),
    {
        let (read, bus) = TBus::long_read(cpu.bus, leaf);
        let (outcome, bus) = match read {
            Ok(word) => TBus::long_written(bus, leaf, word | 16),
            Err(error) => (Err(error), bus),
        };
        if let Err(error) = outcome {
            Self::lemma_recorded(
                before,
                CpuModel { bus, ..cpu },
                fc,
                address,
                true,
                route,
                plain_failure(
                    WalkFailureKind::DescriptorUpdate,
                    level,
                    Some(leaf),
                    error.message,
                ),
                None,
            );
        }
    }

    /// An access that the cache answers.
    proof fn lemma_answered(
        cpu: CpuModel<TBus::Model>,
        fc: u8,
        address: u32,
        writing: bool,
        walk: WalkModel,
    )
        requires
            cpu.atc.len() == 2,
            page_of(cpu.regs.pmmu.tc, address) < cpu.atc[bank_of(cpu.regs.pmmu, fc)].len(),
            goes_through(PMMU, cpu.regs.pmmu, fc, address, writing),
            answer(cpu, fc, address) matches Some(entry) && entry.paddr as int % page_size(
                cpu.regs.pmmu.tc,
            ) == 0,
        ensures
            ({
                let (outcome, after) = Self::translated_by_cache(
                    cpu,
                    answer(cpu, fc, address)->0,
                    fc,
                    address,
                    writing,
                );
                translation_means::<TBus>(PMMU, cpu, outcome, after, fc, address, writing, walk)
            }),
    {
        let regs = cpu.regs.pmmu;
        let tc = regs.tc;
        let entry = answer(cpu, fc, address)->0;
        lemma_tc_numbers(tc);
        lemma_field_widths(tc);
        lemma_root(regs, fc);
        lemma_function_code(fc);
        lemma_page_number(tc, address);
        lemma_page_join(entry.paddr, address, tc.ps());
        let page = entry_page(entry, tc, address);
        if let Some(kind) = rejection(page, fc, writing) {
            let level = full_depth(tc);
            let cause = if kind is SupervisorOnly {
                PagefaultCause::SupervisorOnly
            } else {
                PagefaultCause::WriteProtected
            };
            lemma_status(cause, level, true);
            Self::lemma_recorded(
                cpu,
                with_status(cpu, fault_status(cause, level, true)),
                fc,
                address,
                writing,
                TranslationRoute::Atc,
                plain_failure(kind, level, Some(entry.leaf_desc_addr), CACHED_DETAIL@),
                None,
            );
        } else if writing && !entry.modified {
            Self::lemma_marked(
                cpu,
                cpu,
                fc,
                address,
                entry.leaf_desc_addr,
                TranslationRoute::Atc,
                0,
            );
        }
    }

    /// Translating an access does what the registers, the cache and the tables call for, bit by bit.
    /// The tables are searched from the root of the access, and say what their words mean.
    pub proof fn law_translation_means(
        cpu: CpuModel<TBus::Model>,
        fc: u8,
        address: u32,
        writing: bool,
    )
        requires
            cpu.atc.len() == 2,
            goes_through(PMMU, cpu.regs.pmmu, fc, address, writing) ==> {
                &&& page_of(cpu.regs.pmmu.tc, address) < cpu.atc[bank_of(
                    cpu.regs.pmmu,
                    fc,
                )].len()
                &&& answer(cpu, fc, address) matches Some(entry) ==> entry.paddr as int
                    % page_size(cpu.regs.pmmu.tc) == 0
            },
        ensures
            ({
                let (outcome, after) = Self::translated(cpu, fc, address, writing);
                let tc = cpu.regs.pmmu.tc;
                let root = root_of(cpu.regs.pmmu, fc);
                let walk = walked::<Self>(
                    CpuModel { walk_mutate: true, walk_error: None, ..cpu },
                    tc,
                    root,
                    address,
                    fc,
                ).0;
                &&& walk_means(tc, root, address, fc, walk)
                &&& translation_means::<TBus>(
                    PMMU,
                    cpu,
                    outcome,
                    after,
                    fc,
                    address,
                    writing,
                    walk,
                )
            }),
    {
        let regs = cpu.regs.pmmu;
        let tc = regs.tc;
        let root = root_of(regs, fc);
        let start = CpuModel { walk_mutate: true, walk_error: None, ..cpu };
        lemma_root(regs, fc);
        lemma_tc_numbers(tc);
        lemma_tt(regs.tt[0], fc, address, writing);
        lemma_tt(regs.tt[1], fc, address, writing);
        lemma_page_number(tc, address);
        Self::law_executing_search_means(start, tc, root, address, fc);
        let (walk, searched) = walked::<Self>(start, tc, root, address, fc);
        if goes_through(PMMU, regs, fc, address, writing) {
            if answer(cpu, fc, address) is Some {
                Self::lemma_answered(cpu, fc, address, writing, walk);
            } else {
                Self::lemma_walk_frame(start, tc, root, address, fc);
                Self::lemma_search_stops(start, tc, address, fc, 0, search_start(tc, root));
                law_walk_resolves_or_fails::<Self>(start, tc, root, address, fc);
                let found = CpuModel { walk_mutate: false, walk_error: None, ..searched };
                Self::lemma_concluded(
                    cpu,
                    found,
                    fc,
                    address,
                    writing,
                    walk,
                    searched.walk_error,
                );
                assert(start == Self::lookup_start(cpu, false));
                if let Ok((physical, _, _, _, _)) = Self::looked_up(
                    cpu,
                    false,
                    fc,
                    address,
                    writing,
                ).0 {
                    lemma_page_base(physical, tc);
                }
            }
        }
    }

    /// PTEST reports what the tables say, bit by bit.
    pub proof fn law_probe_means(cpu: CpuModel<TBus::Model>, fc: u8, address: u32, writing: bool)
        ensures
            ({
                let (outcome, after) = Self::looked_up(cpu, true, fc, address, writing);
                let tc = cpu.regs.pmmu.tc;
                let root = root_of(cpu.regs.pmmu, fc);
                let cleared = RegisterFile {
                    pmmu: PmmuRegs { psr: RegisterPSR(0), last_desc: 0, ..cpu.regs.pmmu },
                    ..cpu.regs
                };
                let walk = walked::<Self>(
                    CpuModel { regs: cleared, walk_mutate: false, walk_error: None, ..cpu },
                    tc,
                    root,
                    address,
                    fc,
                ).0;
                &&& walk_means(tc, root, address, fc, walk)
                &&& probe_means(cpu, outcome, after, fc, writing, walk)
            }),
    {
        let regs = cpu.regs.pmmu;
        let tc = regs.tc;
        let root = root_of(regs, fc);
        let start = Self::lookup_start(cpu, true);
        lemma_root(regs, fc);
        lemma_function_code(fc);
        Self::law_executing_search_means(start, tc, root, address, fc);
        Self::lemma_walk_frame(start, tc, root, address, fc);
        Self::lemma_search_stops(start, tc, address, fc, 0, search_start(tc, root));
        law_walk_resolves_or_fails::<Self>(start, tc, root, address, fc);
        let walk = walked::<Self>(start, tc, root, address, fc).0;
        lemma_status(PagefaultCause::Invalid, walk.level, false);
        lemma_status(PagefaultCause::LimitViolation, walk.level, false);
        lemma_status(PagefaultCause::SupervisorOnly, walk.level, false);
        lemma_status(PagefaultCause::WriteProtected, walk.level, false);
        lemma_level_status(walk.level);
    }
}

/// Whether every entry of this generation holds a multiple of the page size.
pub open spec fn bases_aligned<M>(cpu: CpuModel<M>) -> bool {
    forall|bank: int, key: int|
        0 <= bank < 2 && 0 <= key < cpu.atc[bank].len() ==> (
        #[trigger] cpu.atc[bank][key] matches Some(entry) ==> entry.generation == cpu.generation
            ==> entry.paddr as int % page_size(cpu.regs.pmmu.tc) == 0)
}

/// Two ways to say that entries hold the bases of pages.
proof fn lemma_aligned<M>(cpu: CpuModel<M>)
    ensures
        bases_aligned(cpu) == pages_aligned(cpu),
{
    let tc = cpu.regs.pmmu.tc;
    lemma_tc_numbers(tc);
    lemma_field_widths(tc);
    assert forall|base: u32| #[trigger] (base & page_mask(tc)) == base as int % page_size(tc) by {
        lemma_low_ones(base, tc.ps());
    }
    if bases_aligned(cpu) {
        assert forall|bank: int, key: int|
            0 <= bank < 2 && 0 <= key < cpu.atc[bank].len() implies (
        #[trigger] cpu.atc[bank][key] matches Some(entry) ==> entry.generation == cpu.generation
            ==> entry.paddr & page_mask(tc) == 0) by {}
    }
    if pages_aligned(cpu) {
        assert forall|bank: int, key: int|
            0 <= bank < 2 && 0 <= key < cpu.atc[bank].len() implies (
        #[trigger] cpu.atc[bank][key] matches Some(entry) ==> entry.generation == cpu.generation
            ==> entry.paddr as int % page_size(tc) == 0) by {
            if let Some(entry) = cpu.atc[bank][key] {
                assert((entry.paddr & page_mask(tc)) == entry.paddr as int % page_size(tc));
            }
        }
    }
}

/// Two addresses have one slot exactly if they are of one page: all their bits between the ignored
/// ones and the page offset are the same.
pub proof fn law_slots_are_of_one_page(tc: TcReg, a: u32, b: u32)
    ensures
        page_number(tc, a) == page_number(tc, b) <==> a as int % pow2(
            (32 - tc.0 / 0x1_0000 % 16) as nat,
        ) as int / pow2((tc.0 / 0x10_0000 % 16) as nat) as int == b as int % pow2(
            (32 - tc.0 / 0x1_0000 % 16) as nat,
        ) as int / pow2((tc.0 / 0x10_0000 % 16) as nat) as int,
{
    lemma_page_number(tc, a);
    lemma_page_number(tc, b);
}

/// A flush leaves nothing in the caches that answers any access, keeps how many slots they have, and
/// changes nothing else of the processor.
pub proof fn law_flush_leaves_no_answer<M>(cpu: CpuModel<M>, fc: u8, address: u32)
    requires
        generations_ordered(cpu),
    ensures
        ({
            let after = flushed(cpu);
            &&& answer(after, fc, address) is None
            &&& generations_ordered(after)
            &&& bases_aligned(after)
            &&& after == (CpuModel { atc: after.atc, generation: after.generation, ..cpu })
            &&& after.atc[0].len() == cpu.atc[0].len()
            &&& after.atc[1].len() == cpu.atc[1].len()
        }),
{
    law_flush_forgets_every_entry(cpu, fc, address);
    lemma_root(cpu.regs.pmmu, fc);
    lemma_page_number(cpu.regs.pmmu.tc, address);
    lemma_aligned(flushed(cpu));
    assert(cpu.atc[0].len() == flushed(cpu).atc[0].len());
    assert(cpu.atc[1].len() == flushed(cpu).atc[1].len());
}

impl<
    TBus: Bus,
    const ADDRESS_MASK: u32,
    const CPU_TYPE: usize,
    const FPU_TYPE: usize,
    const PMMU: bool,
> CpuM68k<TBus, ADDRESS_MASK, CPU_TYPE, FPU_TYPE, PMMU> {
    /// Translating an access keeps that entries hold the bases of pages, and leaves what the cache
    /// answers to every access of another page, or of another root, as it was.
    pub proof fn law_translation_leaves_other_pages(
        cpu: CpuModel<TBus::Model>,
        fc: u8,
        a: u32,
        writing: bool,
        other_fc: u8,
        b: u32,
    )
        requires
            generations_ordered(cpu),
            bases_aligned(cpu),
            goes_through(PMMU, cpu.regs.pmmu, fc, a, writing) ==> page_of(cpu.regs.pmmu.tc, a)
                < cpu.atc[bank_of(cpu.regs.pmmu, fc)].len(),
        ensures
            ({
                let after = Self::translated(cpu, fc, a, writing).1;
                &&& generations_ordered(after)
                &&& bases_aligned(after)
                &&& after.atc[0].len() == cpu.atc[0].len()
                &&& after.atc[1].len() == cpu.atc[1].len()
                &&& page_of(cpu.regs.pmmu.tc, a) != page_of(cpu.regs.pmmu.tc, b) || bank_of(
                    cpu.regs.pmmu,
                    fc,
                ) != bank_of(cpu.regs.pmmu, other_fc) ==> answer(after, other_fc, b) == answer(
                    cpu,
                    other_fc,
                    b,
                )
            }),
    {
        let regs = cpu.regs.pmmu;
        let tc = regs.tc;
        let bank = bank_of(regs, fc);
        let other_bank = bank_of(regs, other_fc);
        let after = Self::translated(cpu, fc, a, writing).1;
        lemma_root(regs, fc);
        lemma_tc_numbers(tc);
        lemma_tt(regs.tt[0], fc, a, writing);
        lemma_tt(regs.tt[1], fc, a, writing);
        lemma_page_number(tc, a);
        lemma_page_number(tc, b);
        lemma_aligned(cpu);
        lemma_aligned(after);
        Self::law_translation_keeps_cache_shape(cpu, fc, a, writing);
        if goes_through(PMMU, regs, fc, a, writing) {
            let _ = cpu.atc[bank][page_of(tc, a)];
        }
        Self::law_translation_means(cpu, fc, a, writing);
        assert(registers_kept(cpu.regs, after.regs));
        if page_of(tc, b) < cpu.atc[other_bank].len() {
            let _ = cpu.atc[other_bank][page_of(tc, b)];
            let _ = after.atc[other_bank][page_of(tc, b)];
        }
    }

    /// In freshly flushed caches, an access to one page answers for no other. Whatever it left in
    /// its slot, a first access to a page of another number, or from another root, is translated by
    /// the tables: it goes where the search for its own address says, and fails where that fails or
    /// its page's protection rejects it.
    pub proof fn law_first_access_is_translated_by_the_tables(
        cpu: CpuModel<TBus::Model>,
        fc: u8,
        a: u32,
        writing: bool,
        other_fc: u8,
        b: u32,
        other_writing: bool,
    )
        requires
            generations_ordered(cpu),
            goes_through(PMMU, cpu.regs.pmmu, fc, a, writing),
            goes_through(PMMU, cpu.regs.pmmu, other_fc, b, other_writing),
            page_of(cpu.regs.pmmu.tc, a) < cpu.atc[bank_of(cpu.regs.pmmu, fc)].len(),
            page_of(cpu.regs.pmmu.tc, b) < cpu.atc[bank_of(cpu.regs.pmmu, other_fc)].len(),
            page_of(cpu.regs.pmmu.tc, a) != page_of(cpu.regs.pmmu.tc, b) || bank_of(
                cpu.regs.pmmu,
                fc,
            ) != bank_of(cpu.regs.pmmu, other_fc),
        ensures
            ({
                let first = Self::translated(flushed(cpu), fc, a, writing).1;
                let outcome = Self::translated(first, other_fc, b, other_writing).0;
                let tc = cpu.regs.pmmu.tc;
                let root = root_of(cpu.regs.pmmu, other_fc);
                let walk = walked::<Self>(
                    CpuModel { walk_mutate: true, walk_error: None, ..first },
                    tc,
                    root,
                    b,
                    other_fc,
                ).0;
                &&& walk_means(tc, root, b, other_fc, walk)
                &&& outcome matches Ok(place) ==> walk.resolved matches Some(page)
                    && page.physical_address == place && rejection(
                    table_page(walk)->0,
                    other_fc,
                    other_writing,
                ) is None
                &&& outcome is Err ==> walk.failure is Some || rejection(
                    table_page(walk)->0,
                    other_fc,
                    other_writing,
                ) is Some || other_writing && !(walk.resolved->0).modified
            }),
    {
        let fresh = flushed(cpu);
        law_flush_leaves_no_answer(cpu, fc, a);
        law_flush_leaves_no_answer(cpu, other_fc, b);
        Self::law_translation_leaves_other_pages(fresh, fc, a, writing, other_fc, b);
        let first = Self::translated(fresh, fc, a, writing).1;
        Self::law_translation_means(fresh, fc, a, writing);
        assert(registers_kept(fresh.regs, first.regs));
        Self::law_translation_means(first, other_fc, b, other_writing);
        law_walk_resolves_or_fails::<Self>(
            CpuModel { walk_mutate: true, walk_error: None, ..first },
            cpu.regs.pmmu.tc,
            root_of(cpu.regs.pmmu, other_fc),
            b,
            other_fc,
        );
    }
}

} // verus!
