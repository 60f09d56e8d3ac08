//! Read-only prediction of the MMU's current behavior, with cache/table differences.

use vstd::prelude::*;

use crate::bus::Bus;
use crate::cpu_m68k::cpu::{CpuM68k, CpuModel};
use crate::cpu_m68k::pmmu::translate::{
    cache_bank, count_levels, full_depth, lemma_page_mask, page_number, root_bank, root_pointer,
    transparent_register,
};
use crate::cpu_m68k::pmmu::walk;
use crate::cpu_m68k::pmmu::walk::{
    failure_model, geometry, lemma_field_widths, plain_failure, protection_failure, step_models,
    walk_tables, walked, DescriptorStep, FailureModel, ResolvedPage, StepModel, TableWalk,
    WalkFailure, WalkFailureKind, WalkMemory, WalkModel,
};
use crate::util::bytes::long_from_bytes;

verus! {

#[derive(Debug, Clone, Copy, PartialEq, Eq, Structural)]
pub enum TranslationMode {
    CacheAware,
    TableOnly,
}

/// What decided where an access goes.
#[derive(Debug, Clone, Copy, PartialEq, Eq, Structural)]
pub enum TranslationRoute {
    NoMmu,
    /// CPU-space cycles bypass the whole unit.
    CpuSpace,
    Disabled,
    Transparent,
    Atc,
    Table,
}

#[derive(Debug, Clone, Copy, PartialEq, Eq, Structural)]
pub enum RootBank {
    Cpu,
    Supervisor,
}

#[derive(Debug, Clone, Copy, PartialEq, Eq, Structural)]
pub struct TranslationQuery {
    pub address: u32,
    pub function_code: u8,
    pub writing: bool,
    pub mode: TranslationMode,
}

/// A slot in the linear software cache, not the physical chip's ATC layout.
#[derive(Debug, Clone, Copy, PartialEq, Eq, Structural)]
pub struct AtcSlot {
    pub bank: RootBank,
    pub index: usize,
    /// The only function code that this slot answers for.
    pub function_code: u8,
    /// Logical page interpreted using the current TC; IS aliases are not expanded.
    pub logical_page: u32,
    pub physical_page: u32,
    pub write_protected: bool,
    pub supervisor_only: bool,
    pub leaf_address: u32,
    pub modified: bool,
    pub generation: u32,
    /// Generation match only. A valid entry can disagree with edited tables.
    pub valid: bool,
}

/// A bounded part of the cache.
#[derive(Debug, Clone, PartialEq, Eq)]
pub struct AtcPage {
    pub generation: u32,
    pub tc: u32,
    pub table_sizes: [usize; 2],
    pub start: usize,
    pub scanned: usize,
    pub next: Option<usize>,
    pub entries: Vec<AtcSlot>,
}

#[derive(Debug, Clone, Copy, PartialEq, Eq, Structural)]
pub struct DescriptorEffect {
    pub address: u32,
    /// Bit mask ORed into the descriptor's first long word: U=8, M=16.
    pub set_bits: u32,
}

#[derive(Debug, Clone, Copy, PartialEq, Eq, Structural)]
pub enum FaultSignal {
    PageFault,
    TableAccessFailure,
    BackendFailure,
}

/// An observed failed translation attempt. Program-prefetch errors can be deferred;
/// this event alone does not establish that an exception was dispatched.
#[derive(Debug, Clone, PartialEq, Eq)]
pub struct TranslationFault {
    pub signal: FaultSignal,
    pub address: u32,
    pub function_code: u8,
    pub writing: bool,
    pub instruction_pc: Option<u32>,
    pub pc_at_attempt: u32,
    pub cycle: u64,
    pub sr: u16,
    pub status: u16,
    pub tc: u32,
    pub root: RootBank,
    pub root_pointer: u64,
    pub cache_generation: u32,
    pub route: TranslationRoute,
    pub failure: WalkFailure,
    pub tables: Option<TableWalk>,
}

/// The value of a [`TranslationFault`].
#[verifier::ext_equal]
pub ghost struct FaultModel {
    pub signal: FaultSignal,
    pub address: u32,
    pub function_code: u8,
    pub writing: bool,
    pub instruction_pc: Option<u32>,
    pub pc_at_attempt: u32,
    pub cycle: u64,
    pub sr: u16,
    pub status: u16,
    pub tc: u32,
    pub root: RootBank,
    pub root_pointer: u64,
    pub cache_generation: u32,
    pub route: TranslationRoute,
    pub failure: FailureModel,
    pub tables: Option<WalkModel>,
}

/// The value of optional evidence.
pub open spec fn walk_model(tables: Option<TableWalk>) -> Option<WalkModel> {
    match tables {
        Some(tables) => Some(tables@),
        None => None,
    }
}

impl View for TranslationFault {
    type V = FaultModel;

    open spec fn view(&self) -> FaultModel {
        FaultModel {
            signal: self.signal,
            address: self.address,
            function_code: self.function_code,
            writing: self.writing,
            instruction_pc: self.instruction_pc,
            pc_at_attempt: self.pc_at_attempt,
            cycle: self.cycle,
            sr: self.sr,
            status: self.status,
            tc: self.tc,
            root: self.root,
            root_pointer: self.root_pointer,
            cache_generation: self.cache_generation,
            route: self.route,
            failure: self.failure@,
            tables: walk_model(self.tables),
        }
    }
}

/// What an access would do, and what the cache and the tables say about it.
#[derive(Debug, Clone, PartialEq, Eq)]
pub struct TranslationInspection {
    pub query: TranslationQuery,
    pub route: TranslationRoute,
    pub root: Option<RootBank>,
    pub root_pointer: Option<u64>,
    pub transparent_register: Option<u8>,
    pub cache_generation: u32,
    pub page_bits: u8,
    pub ignored_bits: u8,
    pub cached: Option<AtcSlot>,
    pub tables: Option<TableWalk>,
    /// Compares address and inherited protection; None means no valid cache candidate.
    pub cache_matches_tables: Option<bool>,
    pub physical_address: Option<u32>,
    /// Address presented to the machine bus after the CPU address-width mask.
    pub bus_address: Option<u32>,
    pub write_protected: bool,
    pub supervisor_only: bool,
    pub failure: Option<WalkFailure>,
    /// U/M writes execution would attempt; not a guarantee those bus writes succeed.
    pub descriptor_effects: Vec<DescriptorEffect>,
    pub limitations: Vec<String>,
}

/// The value of a [`TranslationInspection`].
#[verifier::ext_equal]
pub ghost struct InspectionModel {
    pub query: TranslationQuery,
    pub route: TranslationRoute,
    pub root: Option<RootBank>,
    pub root_pointer: Option<u64>,
    pub transparent_register: Option<u8>,
    pub cache_generation: u32,
    pub page_bits: u8,
    pub ignored_bits: u8,
    pub cached: Option<AtcSlot>,
    pub tables: Option<WalkModel>,
    pub cache_matches_tables: Option<bool>,
    pub physical_address: Option<u32>,
    pub bus_address: Option<u32>,
    pub write_protected: bool,
    pub supervisor_only: bool,
    pub failure: Option<FailureModel>,
    pub descriptor_effects: Seq<DescriptorEffect>,
    pub limitations: Seq<Seq<char>>,
}

impl View for TranslationInspection {
    type V = InspectionModel;

    open spec fn view(&self) -> InspectionModel {
        InspectionModel {
            query: self.query,
            route: self.route,
            root: self.root,
            root_pointer: self.root_pointer,
            transparent_register: self.transparent_register,
            cache_generation: self.cache_generation,
            page_bits: self.page_bits,
            ignored_bits: self.ignored_bits,
            cached: self.cached,
            tables: walk_model(self.tables),
            cache_matches_tables: self.cache_matches_tables,
            physical_address: self.physical_address,
            bus_address: self.bus_address,
            write_protected: self.write_protected,
            supervisor_only: self.supervisor_only,
            failure: failure_model(self.failure),
            descriptor_effects: self.descriptor_effects@,
            limitations: self.limitations@.map_values(|text: String| text@),
        }
    }
}

/// A request that inspection does not answer.
#[derive(Debug, Clone, Copy, PartialEq, Eq, Structural)]
pub enum InspectError {
    FunctionCode,
    ScanLimit,
    EntryLimit,
    Cursor,
}

impl InspectError {
    /// What is wrong with the request.
    #[verifier::allow_in_spec]
    pub fn message(self) -> &'static str
        returns
            (match self {
                InspectError::FunctionCode => "Function code must fit three bits",
                InspectError::ScanLimit => "ATC scan limit must be 1..65536",
                InspectError::EntryLimit => "ATC entry limit must be 1..4096",
                InspectError::Cursor => "ATC cursor exceeds cache storage",
            }),
    {
        match self {
            InspectError::FunctionCode => "Function code must fit three bits",
            InspectError::ScanLimit => "ATC scan limit must be 1..65536",
            InspectError::EntryLimit => "ATC entry limit must be 1..4096",
            InspectError::Cursor => "ATC cursor exceeds cache storage",
        }
    }
}

pub const HOLE_DETAIL: &'static str = "Descriptor byte is outside safe physical RAM/ROM inspection";

pub const ORGANIZATION_LIMITATION: &'static str =
    "Snow's software ATC is indexed by root bank and logical page, not physical-chip ATC organization";

pub const PROTECTION_DETAIL: &'static str =
    "Requested access is rejected by inherited page protection";

/// Descriptor memory as inspection sees it: nothing that a search does leaves a trace.
pub struct InspectionMemory<'a, T: Bus> {
    pub bus: &'a T,
}

/// A long word that inspection cannot see whole: the first hidden byte, and the bytes before it.
pub open spec fn hidden(address: u32, seen: Seq<u8>) -> FailureModel {
    FailureModel {
        partial_bytes: seen,
        ..plain_failure(
            WalkFailureKind::UnreadableDescriptor,
            0,
            Some(address.wrapping_add(seen.len() as u32)),
            HOLE_DETAIL@,
        )
    }
}

/// The long word that inspection sees at an address.
pub open spec fn inspected_long<T: Bus>(machine: T::Model, address: u32) -> Result<
    u32,
    FailureModel,
> {
    match T::byte_inspected(machine, address) {
        None => Err(hidden(address, Seq::empty())),
        Some(b0) => match T::byte_inspected(machine, address.wrapping_add(1)) {
            None => Err(hidden(address, seq![b0])),
            Some(b1) => match T::byte_inspected(machine, address.wrapping_add(2)) {
                None => Err(hidden(address, seq![b0, b1])),
                Some(b2) => match T::byte_inspected(machine, address.wrapping_add(3)) {
                    None => Err(hidden(address, seq![b0, b1, b2])),
                    Some(b3) => Ok(long_from_bytes(b0, b1, b2, b3)),
                },
            },
        },
    }
}

impl<'a, T: Bus> WalkMemory for InspectionMemory<'a, T> {
    type State = T::Model;

    open spec fn state(&self) -> T::Model {
        self.bus.model()
    }

    open spec fn selected(machine: T::Model, address: u32) -> T::Model {
        machine
    }

    open spec fn long_read(machine: T::Model, address: u32) -> (
        Result<u32, FailureModel>,
        T::Model,
    ) {
        (inspected_long::<T>(machine, address), machine)
    }

    open spec fn used_marked(machine: T::Model, address: u32, original: u32) -> (
        Result<(), FailureModel>,
        T::Model,
    ) {
        (Ok(()), machine)
    }

    fn select_descriptor(&mut self, _address: u32) {
    }

    fn read_long(&mut self, address: u32) -> (result: Result<u32, WalkFailure>) {
        let mut partial: Vec<u8> = Vec::new();
        let mut offset: u32 = 0;
        let ghost machine = self.bus.model();
        while offset < 4
            invariant
                offset <= 4,
                partial@.len() == offset,
                machine == self.bus.model(),
                machine == old(self).bus.model(),
                forall|i: int|
                    0 <= i < offset ==> T::byte_inspected(machine, address.wrapping_add(i as u32))
                        == Some(#[trigger] partial@[i]),
            decreases 4 - offset,
        {
            let current: u32 = address.wrapping_add(offset);
            match self.bus.inspect_read(current) {
                Some(byte) => partial.push(byte),
                None => {
                    let mut failure = WalkFailure::new(
                        WalkFailureKind::UnreadableDescriptor,
                        Some(current),
                        HOLE_DETAIL.to_owned(),
                    );
                    proof {
                        let seen = partial@;
                        assert(address.wrapping_add(0) == address);
                        if offset == 0 {
                            assert(seen =~= Seq::empty());
                        } else if offset == 1 {
                            assert(seen =~= seq![seen[0]]);
                        } else if offset == 2 {
                            assert(seen =~= seq![seen[0], seen[1]]);
                        } else {
                            assert(seen =~= seq![seen[0], seen[1], seen[2]]);
                        }
                    }
                    failure.partial_bytes = partial;
                    return Err(failure);
                },
            }
            offset = offset + 1;
        }
        assert(address.wrapping_add(0) == address);
        assert(T::byte_inspected(machine, address.wrapping_add(0)) == Some(partial@[0]));
        Ok(long_from_bytes(partial[0], partial[1], partial[2], partial[3]))
    }

    fn mark_used(&mut self, _address: u32, _original: u32) -> (result: Result<(), WalkFailure>) {
        Ok(())
    }
}

/// The slot of a cache, if it is occupied.
pub open spec fn atc_slot<M>(cpu: CpuModel<M>, bank: int, index: int) -> Option<AtcSlot> {
    if !(0 <= bank < cpu.atc.len() && 0 <= index < cpu.atc[bank].len()) {
        None
    } else {
        match cpu.atc[bank][index] {
            Some(entry) => Some(
                AtcSlot {
                    bank: if bank == 0 {
                        RootBank::Cpu
                    } else {
                        RootBank::Supervisor
                    },
                    index: index as usize,
                    function_code: entry.function_code,
                    logical_page: (index as usize as u32) << cpu.regs.pmmu.tc.ps(),
                    physical_page: entry.paddr,
                    write_protected: entry.wp,
                    supervisor_only: entry.s,
                    leaf_address: entry.leaf_desc_addr,
                    modified: entry.modified,
                    generation: entry.generation,
                    valid: entry.generation == cpu.generation,
                },
            ),
            None => None,
        }
    }
}

/// The page that a slot answers a query with: only a valid slot of the same function code does.
pub open spec fn slot_page(cached: Option<AtcSlot>, query: TranslationQuery, ps: u32) -> Option<
    ResolvedPage,
> {
    match cached {
        Some(slot) => if slot.valid && slot.function_code == query.function_code {
            Some(
                ResolvedPage {
                    physical_address: slot.physical_page | (query.address & ((1u32 << ps)
                        - 1) as u32),
                    offset_bits: ps as u8,
                    write_protected: slot.write_protected,
                    supervisor_only: slot.supervisor_only,
                    leaf_address: slot.leaf_address,
                    modified: slot.modified,
                },
            )
        } else {
            None
        },
        None => None,
    }
}

/// Whether two pages send an access to the same place under the same protection.
pub open spec fn pages_agree(cached: ResolvedPage, table: ResolvedPage) -> bool {
    &&& cached.physical_address == table.physical_address
    &&& cached.write_protected == table.write_protected
    &&& cached.supervisor_only == table.supervisor_only
}

/// The U bits that a search would set.
pub open spec fn used_effects(steps: Seq<StepModel>) -> Seq<DescriptorEffect>
    decreases steps.len(),
{
    if steps.len() == 0 {
        Seq::empty()
    } else {
        let before = used_effects(steps.drop_last());
        if !steps.last().used && steps.last().descriptor_type != 0 {
            before.push(DescriptorEffect { address: steps.last().address, set_bits: 8 })
        } else {
            before
        }
    }
}

/// What an inspection reports before it knows more than the registers.
pub open spec fn inspection_base<M>(
    pmmu: bool,
    mask: u32,
    cpu: CpuModel<M>,
    query: TranslationQuery,
) -> InspectionModel {
    let regs = cpu.regs.pmmu;
    InspectionModel {
        query,
        route: TranslationRoute::NoMmu,
        root: if pmmu {
            Some(root_bank(regs, query.function_code))
        } else {
            None
        },
        root_pointer: if pmmu {
            Some(root_pointer(regs, query.function_code).0)
        } else {
            None
        },
        transparent_register: None,
        cache_generation: cpu.generation,
        page_bits: regs.tc.ps() as u8,
        ignored_bits: regs.tc.is() as u8,
        cached: None,
        tables: None,
        cache_matches_tables: None,
        physical_address: Some(query.address),
        bus_address: Some(query.address & mask),
        write_protected: false,
        supervisor_only: false,
        failure: None,
        descriptor_effects: Seq::empty(),
        limitations: Seq::empty(),
    }
}

/// What an inspection reports of an access that goes through the cache and the tables.
pub open spec fn paged_inspection<M>(
    base: InspectionModel,
    mask: u32,
    cpu: CpuModel<M>,
    query: TranslationQuery,
    tables: WalkModel,
) -> InspectionModel {
    let tc = cpu.regs.pmmu.tc;
    let cached = atc_slot(
        cpu,
        cache_bank(cpu.regs.pmmu, query.function_code),
        page_number(tc, query.address) as int,
    );
    let cached_page = slot_page(cached, query, tc.ps());
    let by_cache = query.mode is CacheAware && cached_page is Some;
    let selected = if by_cache {
        cached_page
    } else {
        tables.resolved
    };
    let rejected = match selected {
        Some(page) => protection_failure(page, query.function_code, query.writing),
        None => None,
    };
    let allowed = selected is Some && rejected is None;
    let used = if by_cache {
        Seq::empty()
    } else {
        used_effects(tables.descriptors)
    };
    InspectionModel {
        route: if by_cache {
            TranslationRoute::Atc
        } else {
            TranslationRoute::Table
        },
        cached,
        tables: Some(tables),
        cache_matches_tables: match cached_page {
            Some(page) => Some(tables.resolved is Some && pages_agree(page, tables.resolved->0)),
            None => None,
        },
        physical_address: if allowed {
            Some(selected->0.physical_address)
        } else {
            None
        },
        bus_address: if allowed {
            Some(selected->0.physical_address & mask)
        } else {
            None
        },
        write_protected: selected is Some && selected->0.write_protected,
        supervisor_only: selected is Some && selected->0.supervisor_only,
        failure: match rejected {
            Some(kind) => Some(
                plain_failure(
                    kind,
                    if by_cache {
                        full_depth(tc)
                    } else {
                        tables.level
                    },
                    Some(selected->0.leaf_address),
                    PROTECTION_DETAIL@,
                ),
            ),
            None => if by_cache {
                None
            } else {
                tables.failure
            },
        },
        descriptor_effects: if allowed && query.writing && !selected->0.modified {
            used.push(DescriptorEffect { address: selected->0.leaf_address, set_bits: 16 })
        } else {
            used
        },
        ..base
    }
}

impl<
    TBus: Bus,
    const ADDRESS_MASK: u32,
    const CPU_TYPE: usize,
    const FPU_TYPE: usize,
    const PMMU: bool,
> CpuM68k<TBus, ADDRESS_MASK, CPU_TYPE, FPU_TYPE, PMMU> {
    /// What an inspection reports.
    pub open spec fn inspected(cpu: CpuModel<TBus::Model>, query: TranslationQuery) -> Result<
        InspectionModel,
        InspectError,
    > {
        let regs = cpu.regs.pmmu;
        let fc = query.function_code;
        let base = inspection_base(PMMU, ADDRESS_MASK, cpu, query);
        let limited = InspectionModel { limitations: seq![ORGANIZATION_LIMITATION@], ..base };
        if fc > 7 {
            Err(InspectError::FunctionCode)
        } else if !PMMU {
            Ok(base)
        } else if fc == 7 {
            Ok(InspectionModel { route: TranslationRoute::CpuSpace, ..limited })
        } else if let Some(index) = transparent_register(regs, fc, query.address, query.writing) {
            Ok(
                InspectionModel {
                    route: TranslationRoute::Transparent,
                    transparent_register: Some(index as u8),
                    ..limited
                },
            )
        } else if !regs.tc.enable() {
            Ok(InspectionModel { route: TranslationRoute::Disabled, ..limited })
        } else if geometry(regs.tc) != 32 {
            Ok(
                InspectionModel {
                    route: TranslationRoute::Table,
                    physical_address: None,
                    bus_address: None,
                    failure: Some(
                        plain_failure(
                            WalkFailureKind::InvalidConfiguration,
                            0,
                            None,
                            walk::GEOMETRY_DETAIL@,
                        ),
                    ),
                    ..limited
                },
            )
        } else {
            let tables = walked::<InspectionMemory<'static, TBus>>(
                cpu.bus,
                regs.tc,
                root_pointer(regs, fc),
                query.address,
                fc,
            ).0;
            Ok(paged_inspection(limited, ADDRESS_MASK, cpu, query, tables))
        }
    }

    /// Predict one byte access without timed reads, status updates, cache fills or U/M writes.
    /// Table-only mode bypasses the ATC, but retains disabled and transparent bypass behavior.
    pub fn inspect_translation(&self, query: TranslationQuery) -> (result: Result<
        TranslationInspection,
        InspectError,
    >)
        ensures
            match result {
                Ok(inspection) => Self::inspected(self.model(), query) == Ok::<
                    InspectionModel,
                    InspectError,
                >(inspection@),
                Err(error) => Self::inspected(self.model(), query) == Err::<
                    InspectionModel,
                    InspectError,
                >(error),
            },
    {
        if query.function_code > 7 {
            return Err(InspectError::FunctionCode);
        }
        let tc = self.regs.pmmu.tc;
        let bank_index: usize = self.pmmu_atc_tableidx(query.function_code);
        let root_pointer = self.pmmu_rootptr(query.function_code);
        proof {
            lemma_field_widths(tc);
            lemma_page_mask(tc.ps());
        }
        let mut result = TranslationInspection {
            query,
            route: TranslationRoute::NoMmu,
            root: if PMMU {
                Some(
                    if bank_index == 0 {
                        RootBank::Cpu
                    } else {
                        RootBank::Supervisor
                    },
                )
            } else {
                None
            },
            root_pointer: if PMMU {
                Some(root_pointer.0)
            } else {
                None
            },
            transparent_register: None,
            cache_generation: self.pmmu_atc_generation,
            page_bits: tc.ps() as u8,
            ignored_bits: tc.is() as u8,
            cached: None,
            tables: None,
            cache_matches_tables: None,
            physical_address: Some(query.address),
            bus_address: Some(query.address & ADDRESS_MASK),
            write_protected: false,
            supervisor_only: false,
            failure: None,
            descriptor_effects: Vec::new(),
            limitations: Vec::new(),
        };
        assert(result@ =~= inspection_base(PMMU, ADDRESS_MASK, self.model(), query));
        if !PMMU {
            return Ok(result);
        }
        result.limitations.push(ORGANIZATION_LIMITATION.to_owned());
        assert(result@.limitations =~= seq![ORGANIZATION_LIMITATION@]);
        if query.function_code == 7 {
            result.route = TranslationRoute::CpuSpace;
            return Ok(result);
        }
        if let Some(index) = self.pmmu_tt_index(
            query.function_code,
            query.address,
            query.writing,
        ) {
            result.route = TranslationRoute::Transparent;
            result.transparent_register = Some(index as u8);
            return Ok(result);
        }
        if !tc.enable() {
            result.route = TranslationRoute::Disabled;
            return Ok(result);
        }
        result.route = TranslationRoute::Table;
        result.physical_address = None;
        result.bus_address = None;
        if tc.is() + tc.ps() + tc.tia() + tc.tib() + tc.tic() + tc.tid() != 32 {
            result.failure = Some(
                WalkFailure::new(
                    WalkFailureKind::InvalidConfiguration,
                    None,
                    walk::GEOMETRY_DETAIL.to_owned(),
                ),
            );
            return Ok(result);
        }
        let key: usize = ((query.address & (u32::MAX >> tc.is())) >> tc.ps()) as usize;
        result.cached = self.inspection_atc_slot(bank_index, key);
        let mut reader = InspectionMemory { bus: &self.bus };
        let tables = walk_tables(
            &mut reader,
            tc,
            root_pointer,
            query.address,
            query.function_code,
        );
        let cached_page: Option<ResolvedPage> = match result.cached {
            Some(slot) => if slot.valid && slot.function_code == query.function_code {
                Some(
                    ResolvedPage {
                        physical_address: slot.physical_page | (query.address & ((1u32 << tc.ps())
                            - 1)),
                        offset_bits: tc.ps() as u8,
                        write_protected: slot.write_protected,
                        supervisor_only: slot.supervisor_only,
                        leaf_address: slot.leaf_address,
                        modified: slot.modified,
                    },
                )
            } else {
                None
            },
            None => None,
        };
        assert(cached_page == slot_page(result.cached, query, tc.ps()));
        result.cache_matches_tables = match cached_page {
            Some(cached) => match tables.resolved {
                Some(table) => Some(
                    cached.physical_address == table.physical_address && cached.write_protected
                        == table.write_protected && cached.supervisor_only
                        == table.supervisor_only,
                ),
                None => Some(false),
            },
            None => None,
        };
        let selected: Option<ResolvedPage> = if query.mode == TranslationMode::CacheAware
            && cached_page.is_some() {
            result.route = TranslationRoute::Atc;
            cached_page
        } else {
            result.failure = match &tables.failure {
                Some(failure) => Some(failure.duplicate()),
                None => None,
            };
            tables.resolved
        };
        if result.route == TranslationRoute::Table {
            result.descriptor_effects = list_used_effects(&tables.descriptors);
        }
        if let Some(page) = selected {
            result.write_protected = page.write_protected;
            result.supervisor_only = page.supervisor_only;
            if let Some(kind) = protection_failure(page, query.function_code, query.writing) {
                let mut failure = WalkFailure::new(
                    kind,
                    Some(page.leaf_address),
                    PROTECTION_DETAIL.to_owned(),
                );
                failure.level = if result.route == TranslationRoute::Atc {
                    count_levels(tc)
                } else {
                    tables.level
                };
                result.failure = Some(failure);
            } else {
                result.physical_address = Some(page.physical_address);
                result.bus_address = Some(page.physical_address & ADDRESS_MASK);
                if query.writing && !page.modified {
                    result.descriptor_effects.push(
                        DescriptorEffect { address: page.leaf_address, set_bits: 16 },
                    );
                }
            }
        }
        result.tables = Some(tables);
        assert(Self::inspected(self.model(), query)->Ok_0 =~= result@);
        Ok(result)
    }

    /// The slot of a cache, if it is occupied.
    pub fn inspection_atc_slot(&self, bank: usize, index: usize) -> (slot: Option<AtcSlot>)
        ensures
            slot == atc_slot(self.model(), bank as int, index as int),
    {
        if bank >= 2 {
            return None;
        }
        if index >= self.pmmu_atc[bank].len() {
            return None;
        }
        proof {
            lemma_field_widths(self.regs.pmmu.tc);
        }
        match self.pmmu_atc[bank][index] {
            Some(entry) => Some(
                AtcSlot {
                    bank: if bank == 0 {
                        RootBank::Cpu
                    } else {
                        RootBank::Supervisor
                    },
                    index,
                    function_code: entry.function_code,
                    logical_page: (index as u32) << self.regs.pmmu.tc.ps(),
                    physical_page: entry.paddr,
                    write_protected: entry.wp,
                    supervisor_only: entry.s,
                    leaf_address: entry.leaf_desc_addr,
                    modified: entry.modified,
                    generation: entry.generation,
                    valid: entry.generation == self.pmmu_atc_generation,
                },
            ),
            None => None,
        }
    }
}

/// Lists the U bits that a search would set.
fn list_used_effects(steps: &Vec<DescriptorStep>) -> (effects: Vec<DescriptorEffect>)
    ensures
        effects@ == used_effects(step_models(steps@)),
{
    let mut effects: Vec<DescriptorEffect> = Vec::new();
    let mut i: usize = 0;
    while i < steps.len()
        invariant
            i <= steps@.len(),
            effects@ == used_effects(step_models(steps@.take(i as int))),
        decreases steps@.len() - i,
    {
        assert(step_models(steps@.take(i + 1)).drop_last() =~= step_models(steps@.take(i as int)));
        assert(step_models(steps@.take(i + 1)).last() == steps@[i as int]@);
        if !steps[i].used && steps[i].descriptor_type != 0 {
            effects.push(DescriptorEffect { address: steps[i].address, set_bits: 8 });
        }
        i = i + 1;
    }
    assert(steps@.take(i as int) =~= steps@);
    effects
}

/// The slot at a cursor: CPU slots come first, then supervisor slots.
pub open spec fn slot_at<M>(cpu: CpuModel<M>, cursor: int) -> Option<AtcSlot> {
    if cursor < cpu.atc[0].len() {
        atc_slot(cpu, 0, cursor)
    } else {
        atc_slot(cpu, 1, cursor - cpu.atc[0].len())
    }
}

/// The occupied slots from one cursor up to another, in order.
pub open spec fn slots_between<M>(cpu: CpuModel<M>, from: int, to: int) -> Seq<AtcSlot>
    decreases to - from,
{
    if to <= from {
        Seq::empty()
    } else {
        match slot_at(cpu, to - 1) {
            Some(slot) => slots_between(cpu, from, to - 1).push(slot),
            None => slots_between(cpu, from, to - 1),
        }
    }
}

/// Slots in both caches together.
pub open spec fn total_slots<M>(cpu: CpuModel<M>) -> int {
    (cpu.atc[0].len() + cpu.atc[1].len()) as int
}

/// Where a scan stops by its limit or at the end of the caches.
pub open spec fn scan_bound<M>(cpu: CpuModel<M>, start: int, scan_limit: int) -> int {
    if start + scan_limit < total_slots(cpu) {
        start + scan_limit
    } else {
        total_slots(cpu)
    }
}

/// Whether a scan from `start` with these limits stops at `stop`: as soon as it has enough
/// entries, and otherwise at its bound.
pub open spec fn scan_stops<M>(
    cpu: CpuModel<M>,
    start: int,
    scan_limit: int,
    entry_limit: int,
    stop: int,
) -> bool {
    let bound = scan_bound(cpu, start, scan_limit);
    &&& start <= stop <= bound
    &&& stop == bound || slots_between(cpu, start, stop).len() == entry_limit
    &&& forall|earlier: int|
        start <= earlier < stop ==> #[trigger] slots_between(cpu, start, earlier).len()
            < entry_limit
}

impl<
    TBus: Bus,
    const ADDRESS_MASK: u32,
    const CPU_TYPE: usize,
    const FPU_TYPE: usize,
    const PMMU: bool,
> CpuM68k<TBus, ADDRESS_MASK, CPU_TYPE, FPU_TYPE, PMMU> {
    /// Bounded sparse cache enumeration. A cursor spans CPU slots then supervisor slots.
    pub fn inspect_atc(&self, start: usize, scan_limit: usize, entry_limit: usize) -> (result:
        Result<AtcPage, InspectError>)
        requires
            total_slots(self.model()) <= usize::MAX,
        ensures
            match result {
                Err(InspectError::ScanLimit) => !(1 <= scan_limit <= 65536),
                Err(InspectError::EntryLimit) => {
                    &&& 1 <= scan_limit <= 65536
                    &&& !(1 <= entry_limit <= 4096)
                },
                Err(InspectError::Cursor) => {
                    &&& 1 <= scan_limit <= 65536
                    &&& 1 <= entry_limit <= 4096
                    &&& start > total_slots(self.model())
                },
                Err(InspectError::FunctionCode) => false,
                Ok(page) => {
                    let cpu = self.model();
                    let stop = start + page.scanned;
                    &&& 1 <= scan_limit <= 65536
                    &&& 1 <= entry_limit <= 4096
                    &&& start <= total_slots(cpu)
                    &&& page.generation == cpu.generation
                    &&& page.tc == cpu.regs.pmmu.tc.0
                    &&& page.table_sizes[0] == cpu.atc[0].len()
                    &&& page.table_sizes[1] == cpu.atc[1].len()
                    &&& page.start == start
                    &&& scan_stops(
                        cpu,
                        start as int,
                        scan_limit as int,
                        entry_limit as int,
                        stop,
                    )
                    &&& page.next == if stop < total_slots(cpu) {
                        Some(stop as usize)
                    } else {
                        None
                    }
                    &&& page.entries@ == slots_between(cpu, start as int, stop)
                },
            },
    {
        if scan_limit < 1 || scan_limit > 65536 {
            return Err(InspectError::ScanLimit);
        }
        if entry_limit < 1 || entry_limit > 4096 {
            return Err(InspectError::EntryLimit);
        }
        let sizes: [usize; 2] = [self.pmmu_atc[0].len(), self.pmmu_atc[1].len()];
        let total: usize = sizes[0] + sizes[1];
        if start > total {
            return Err(InspectError::Cursor);
        }
        let end: usize = if total - start > scan_limit {
            start + scan_limit
        } else {
            total
        };
        let mut entries: Vec<AtcSlot> = Vec::new();
        let mut cursor: usize = start;
        while cursor < end && entries.len() < entry_limit
            invariant
                start <= cursor <= end <= total,
                total == total_slots(self.model()),
                end == scan_bound(self.model(), start as int, scan_limit as int),
                sizes[0] == self.model().atc[0].len(),
                1 <= entry_limit,
                entries@.len() <= entry_limit,
                entries@ == slots_between(self.model(), start as int, cursor as int),
                forall|earlier: int|
                    start <= earlier < cursor ==> #[trigger] slots_between(
                        self.model(),
                        start as int,
                        earlier,
                    ).len() < entry_limit,
            decreases end - cursor,
        {
            let slot = if cursor < sizes[0] {
                self.inspection_atc_slot(0, cursor)
            } else {
                self.inspection_atc_slot(1, cursor - sizes[0])
            };
            assert(slot == slot_at(self.model(), cursor as int));
            if let Some(slot) = slot {
                entries.push(slot);
            }
            cursor = cursor + 1;
        }
        Ok(
            AtcPage {
                generation: self.pmmu_atc_generation,
                tc: self.regs.pmmu.tc.0,
                table_sizes: sizes,
                start,
                scanned: cursor - start,
                next: if cursor < total {
                    Some(cursor)
                } else {
                    None
                },
                entries,
            },
        )
    }
}

} // verus!
