//! What a translation leaves in the cache agrees with the tables that it came from.

use vstd::prelude::*;

use crate::bus::Bus;
use crate::cpu_m68k::cpu::{CpuM68k, CpuModel};
use crate::cpu_m68k::pmmu::access::{
    answer, bank_of, goes_through, lemma_function_code, lemma_page_join, lemma_page_number,
    lemma_root, lemma_tt, page_of, page_size, rejection, table_page,
};
use crate::cpu_m68k::pmmu::inspect::{InspectionMemory, TranslationQuery};
use crate::cpu_m68k::pmmu::laws::{
    law_walk_is_bounded_and_inherits_protection, lemma_page_offset_survives,
};
use crate::cpu_m68k::pmmu::meaning::lemma_tc_numbers;
use crate::cpu_m68k::pmmu::outcome::{entry_of, lemma_page_base, root_of};
use crate::cpu_m68k::pmmu::prediction::{
    lemma_entry_aligned, lemma_inspected_long, lemma_root_aligned, long_in, long_of, long_settled,
    memory_alike, plain_memory, steps_in, writes_complete,
};
use crate::cpu_m68k::pmmu::regs::TcReg;
use crate::cpu_m68k::pmmu::translate::page_mask;
use crate::cpu_m68k::pmmu::walk::{
    consumed_by, decoded, descended, descriptor_index, descriptor_read, entry_address, index_fields,
    law_walk_resolves_or_fails, lemma_consumed_by, lemma_field_widths, search_start, searched,
    walked, ResolvedPage, Search, StepModel, WalkMemory,
};
use crate::util::bytes::{long_byte0, long_byte1, long_byte2, long_byte3, long_from_bytes};

verus! {

/// Whether inspection sees every byte of a region.
pub open spec fn sees<B: Bus>(
    region: spec_fn(u32) -> bool,
    plain: spec_fn(B::Model) -> bool,
) -> bool {
    forall|machine: B::Model, address: u32|
        plain(machine) && region(address) ==> #[trigger] B::byte_inspected(machine, address) is Some
}

/// Whether memory in a region differs at most by U bits of aligned long words, and by the M bit of
/// one.
pub open spec fn memory_marked<M>(
    region: spec_fn(u32) -> bool,
    byte: spec_fn(M, u32) -> u8,
    leaf: Option<u32>,
    first: M,
    other: M,
) -> bool {
    forall|at: u32|
        #![trigger byte(other, at)]
        region(at) ==> {
            let held = byte(first, at);
            ||| byte(other, at) == held
            ||| at % 4 == 3 && byte(other, at) == held | 8
            ||| leaf matches Some(leaf) && at == leaf.wrapping_add(3) && (byte(other, at) == held
                | 16 || byte(other, at) == held | 24)
        }
}

/// Whether a word is another with at most its U bit set in addition, and its M bit if it may.
pub open spec fn marked_alike(word: u32, other: u32, may: bool) -> bool {
    other == word || other == word | 8 || may && (other == word | 16 || other == word | 24)
}

/// What the U and the M bit of a word leave alone.
proof fn lemma_marks(b0: u8, b1: u8, b2: u8, b3: u8)
    ensures
        ({
            let word = long_from_bytes(b0, b1, b2, b3);
            &&& long_from_bytes(b0, b1, b2, b3 | 8) == word | 8
            &&& long_from_bytes(b0, b1, b2, b3 | 16) == word | 16
            &&& long_from_bytes(b0, b1, b2, b3 | 24) == word | 24
            &&& long_byte0(word | 16) == b0
            &&& long_byte1(word | 16) == b1
            &&& long_byte2(word | 16) == b2
            &&& long_byte3(word | 16) == b3 | 16
            &&& (b3 | 8) | 16 == b3 | 24
            &&& forall|other: u32| #[trigger]
                marked_alike(word, other, true) ==> {
                    &&& other & 3 == word & 3
                    &&& other & 4 == word & 4
                    &&& other & 0x100 == word & 0x100
                    &&& other >> 16 == word >> 16
                    &&& other >> 31 == word >> 31
                    &&& other & !255u32 == word & !255u32
                    &&& marked_alike(word, other, false) ==> other & !15u32 == word & !15u32
                }
            &&& (word & !15u32) % 16 == 0
        }),
{
    let word = long_from_bytes(b0, b1, b2, b3);
    assert(forall|other: u32|
        (other == word || other == word | 8 || other == word | 16 || other == word | 24)
            ==> #[trigger] (other & 3) == word & 3 && other & 4 == word & 4 && other & 0x100 == word
            & 0x100 && other >> 16 == word >> 16 && other >> 31 == word >> 31 && other & !255u32
            == word & !255u32 && ((other == word || other == word | 8) ==> other & !15u32 == word
            & !15u32)) by (bit_vector);
    assert(((b0 as u32) << 24) | ((b1 as u32) << 16) | ((b2 as u32) << 8) | ((b3 | 8) as u32) == word
        | 8 && ((b0 as u32) << 24) | ((b1 as u32) << 16) | ((b2 as u32) << 8) | ((b3 | 16) as u32)
        == word | 16 && ((b0 as u32) << 24) | ((b1 as u32) << 16) | ((b2 as u32) << 8) | ((b3
        | 24) as u32) == word | 24 && (((word | 16) >> 24) & 0xFF) as u8 == b0 && (((word | 16) >> 16)
        & 0xFF) as u8 == b1 && (((word | 16) >> 8) & 0xFF) as u8 == b2 && ((word | 16) & 0xFF) as u8
        == b3 | 16 && (b3 | 8) | 16 == b3 | 24 && (word & !15u32) % 16 == 0) by (bit_vector)
        requires
            word == ((b0 as u32) << 24) | ((b1 as u32) << 16) | ((b2 as u32) << 8) | (b3 as u32),
    ;
}

/// An aligned long word of memory that differs at most by marks.
proof fn lemma_marked_long<M>(
    region: spec_fn(u32) -> bool,
    byte: spec_fn(M, u32) -> u8,
    leaf: Option<u32>,
    first: M,
    other: M,
    address: u32,
)
    requires
        memory_marked(region, byte, leaf, first, other),
        long_in(region, address),
        address % 4 == 0,
        leaf matches Some(leaf) ==> leaf % 4 == 0,
    ensures
        ({
            let word = long_of(byte, first, address);
            let new = long_of(byte, other, address);
            &&& marked_alike(word, new, leaf == Some(address))
            &&& new & 3 == word & 3
            &&& new & 4 == word & 4
            &&& new & 0x100 == word & 0x100
            &&& new >> 16 == word >> 16
            &&& new >> 31 == word >> 31
            &&& new & !255u32 == word & !255u32
            &&& leaf != Some(address) ==> new & !15u32 == word & !15u32
            &&& (word & !15u32) % 16 == 0
        }),
{
    let a1 = address.wrapping_add(1);
    let a2 = address.wrapping_add(2);
    let a3 = address.wrapping_add(3);
    assert(byte(other, address) == byte(first, address));
    assert(byte(other, a1) == byte(first, a1));
    assert(byte(other, a2) == byte(first, a2));
    let b3 = byte(first, a3);
    assert(byte(other, a3) == b3 || byte(other, a3) == b3 | 8 || leaf == Some(address) && (byte(
        other,
        a3,
    ) == b3 | 16 || byte(other, a3) == b3 | 24));
    lemma_marks(byte(first, address), byte(first, a1), byte(first, a2), b3);
    assert(marked_alike(long_of(byte, first, address), long_of(byte, other, address), true));
}

/// Whether no wide descriptor of a search has its second word at an address.
pub open spec fn no_second_word_at(steps: Seq<StepModel>, leaf: u32) -> bool {
    forall|i: int|
        0 <= i < steps.len() && (#[trigger] steps[i]).width == 8
            ==> steps[i].address.wrapping_add(4) != leaf
}

/// Marks on the tables leave where an inspecting search ends, and what protects it.
proof fn lemma_marks_lead_alike<T: Bus>(
    region: spec_fn(u32) -> bool,
    plain: spec_fn(T::Model) -> bool,
    byte: spec_fn(T::Model, u32) -> u8,
    leaf: Option<u32>,
    machine: T::Model,
    marked: T::Model,
    tc: TcReg,
    logical: u32,
    fc: u8,
    done: nat,
    first: Search,
    other: Search,
)
    requires
        plain_memory::<T>(region, plain, byte),
        sees::<T>(region, plain),
        plain(machine),
        plain(marked),
        memory_marked(region, byte, leaf, machine, marked),
        other == (Search { steps: other.steps, ..first }),
        first.table % 16 == 0,
        ({
            let walk = searched::<InspectionMemory<'static, T>>(
                machine,
                tc,
                logical,
                fc,
                done,
                first,
            ).0;
            &&& walk.resolved is Some
            &&& steps_in(region, walk.descriptors)
            &&& leaf matches Some(leaf) ==> {
                &&& leaf % 4 == 0
                &&& long_of(byte, machine, leaf) & 3 == 1
                &&& no_second_word_at(walk.descriptors, leaf)
            }
        }),
    ensures
        ({
            let page = searched::<InspectionMemory<'static, T>>(
                machine,
                tc,
                logical,
                fc,
                done,
                first,
            ).0.resolved->0;
            searched::<InspectionMemory<'static, T>>(
                marked,
                tc,
                logical,
                fc,
                done,
                other,
            ).0.resolved matches Some(found) && found == (ResolvedPage {
                modified: found.modified,
                ..page
            })
        }),
    decreases 5 - done,
{
    let (source, bits) = index_fields(tc)[done as int];
    let level = (done + 1) as u8;
    let index = descriptor_index(source, bits, first.consumed, logical, fc);
    let address = entry_address(first, index);
    lemma_entry_aligned(first, index);
    let words = descriptor_read::<InspectionMemory<'_, T>>(machine, address, first.long).0->Ok_0;
    CpuM68k::<T, 0, 0, 0, true>::lemma_step_is_found(machine, tc, logical, fc, done, first, words);
    let step = decoded(level, source, index, address, first.long, words, first.limit);
    let steps = searched::<InspectionMemory<'_, T>>(
        machine,
        tc,
        logical,
        fc,
        done,
        first,
    ).0.descriptors;
    assert(steps[first.steps.len() as int] == step);
    lemma_inspected_long::<T>(region, plain, byte, machine, address);
    lemma_inspected_long::<T>(region, plain, byte, marked, address);
    lemma_marked_long(region, byte, leaf, machine, marked, address);
    assert(words[0] == long_of(byte, machine, address));
    if first.long {
        let second = address.wrapping_add(4);
        assert(step.width == 8);
        lemma_inspected_long::<T>(region, plain, byte, machine, second);
        lemma_inspected_long::<T>(region, plain, byte, marked, second);
        lemma_marked_long(region, byte, leaf, machine, marked, second);
    }
    let read = descriptor_read::<InspectionMemory<'_, T>>(marked, address, first.long).0;
    assert(read is Ok);
    let others = read->Ok_0;
    let step2 = decoded(level, source, index, address, first.long, others, first.limit);
    assert(step2.descriptor_type == step.descriptor_type);
    assert(step2.child_limit == step.child_limit);
    if step.descriptor_type != 1 {
        assert(leaf != Some(address));
        assert(others.last() & !15u32 == words.last() & !15u32);
        lemma_marks_lead_alike::<T>(
            region,
            plain,
            byte,
            leaf,
            machine,
            marked,
            tc,
            logical,
            fc,
            done + 1,
            descended(first, bits, step),
            descended(other, bits, step2),
        );
    }
}

impl<
    TBus: Bus,
    const ADDRESS_MASK: u32,
    const CPU_TYPE: usize,
    const FPU_TYPE: usize,
    const PMMU: bool,
> CpuM68k<TBus, ADDRESS_MASK, CPU_TYPE, FPU_TYPE, PMMU> {
    /// What a successful translation leaves of the tables, and where they lead then.
    proof fn lemma_tables_lead_alike(
        region: spec_fn(u32) -> bool,
        writable: spec_fn(u32) -> bool,
        plain: spec_fn(TBus::Model) -> bool,
        byte: spec_fn(TBus::Model, u32) -> u8,
        cpu: CpuModel<TBus::Model>,
        query: TranslationQuery,
    )
        requires
            plain_memory::<TBus>(region, plain, byte),
            writes_complete::<TBus>(region, writable, plain, byte),
            sees::<TBus>(region, plain),
            plain(cpu.bus),
            Self::descriptors_lie_in(region, writable, cpu, query),
            cpu.atc.len() == 2,
            query.function_code <= 7,
            query.mode is CacheAware,
            goes_through(PMMU, cpu.regs.pmmu, query.function_code, query.address, query.writing),
            page_of(cpu.regs.pmmu.tc, query.address) < cpu.atc[bank_of(
                cpu.regs.pmmu,
                query.function_code,
            )].len(),
            answer(cpu, query.function_code, query.address) is None,
            Self::inspected(cpu, query)->Ok_0.physical_address is Some,
            query.writing ==> no_second_word_at(
                Self::inspected(cpu, query)->Ok_0.tables->0.descriptors,
                (Self::inspected(cpu, query)->Ok_0.tables->0.resolved->0).leaf_address,
            ),
        ensures
            ({
                let fc = query.function_code;
                let tc = cpu.regs.pmmu.tc;
                let root = root_of(cpu.regs.pmmu, fc);
                let (outcome, after) = Self::translated(cpu, fc, query.address, query.writing);
                let execution = walked::<Self>(
                    CpuModel { walk_mutate: true, walk_error: None, ..cpu },
                    tc,
                    root,
                    query.address,
                    fc,
                ).0;
                &&& outcome is Ok
                &&& execution.resolved matches Some(page)
                &&& walked::<InspectionMemory<'static, TBus>>(
                    after.bus,
                    tc,
                    root,
                    query.address,
                    fc,
                ).0.resolved matches Some(found)
                &&& found == (ResolvedPage { modified: found.modified, ..page })
                &&& rejection(table_page(execution)->0, fc, query.writing) is None
            }),
    {
        let regs = cpu.regs.pmmu;
        let fc = query.function_code;
        let tc = regs.tc;
        let root = root_of(regs, fc);
        let start = CpuModel { walk_mutate: true, walk_error: None, ..cpu };
        lemma_root(regs, fc);
        lemma_tc_numbers(tc);
        lemma_page_number(tc, query.address);
        lemma_tt(regs.tt[0], fc, query.address, query.writing);
        lemma_tt(regs.tt[1], fc, query.address, query.writing);
        let inspection = walked::<InspectionMemory<'_, TBus>>(
            cpu.bus,
            tc,
            root,
            query.address,
            fc,
        ).0;
        law_walk_resolves_or_fails::<InspectionMemory<'_, TBus>>(
            cpu.bus,
            tc,
            root,
            query.address,
            fc,
        );
        Self::law_inspection_predicts_translation(region, writable, plain, byte, cpu, query);
        Self::lemma_walk_marks_in(writable, cpu, query);
        Self::law_walks_alike(region, writable, plain, byte, start, tc, root, query.address, fc);
        let (execution, searched) = walked::<Self>(start, tc, root, query.address, fc);
        let page = execution.resolved->0;
        let after = Self::translated(cpu, fc, query.address, query.writing).1;
        lemma_function_code(fc);
        assert(start == Self::lookup_start(cpu, false));
        let marks = query.writing && !page.modified;
        let leaf = if marks {
            Some(page.leaf_address)
        } else {
            None
        };
        lemma_root_aligned(root);
        if marks {
            let effects = Self::inspected(cpu, query)->Ok_0.descriptor_effects;
            assert(effects.last() == effects[effects.len() - 1]);
            let (word, read) = TBus::long_read(searched.bus, page.leaf_address);
            let written = TBus::long_written(read, page.leaf_address, word->Ok_0 | 16).1;
            assert(after.bus == written);
            Self::lemma_leaf_is_a_page(
                region,
                plain,
                byte,
                cpu.bus,
                tc,
                query.address,
                fc,
                0,
                search_start(tc, root),
            );
            lemma_mark_keeps_marked(region, byte, cpu.bus, read, written, page.leaf_address);
        } else {
            assert(memory_marked(region, byte, leaf, cpu.bus, after.bus));
        }
        lemma_marks_lead_alike::<TBus>(
            region,
            plain,
            byte,
            leaf,
            cpu.bus,
            after.bus,
            tc,
            query.address,
            fc,
            0,
            search_start(tc, root),
            search_start(tc, root),
        );
    }

    /// The leaf of a resolved search is an aligned page descriptor in memory.
    proof fn lemma_leaf_is_a_page(
        region: spec_fn(u32) -> bool,
        plain: spec_fn(TBus::Model) -> bool,
        byte: spec_fn(TBus::Model, u32) -> u8,
        machine: TBus::Model,
        tc: TcReg,
        logical: u32,
        fc: u8,
        done: nat,
        search: Search,
    )
        requires
            plain_memory::<TBus>(region, plain, byte),
            plain(machine),
            search.table % 16 == 0,
            ({
                let walk = searched::<InspectionMemory<'static, TBus>>(
                    machine,
                    tc,
                    logical,
                    fc,
                    done,
                    search,
                ).0;
                &&& walk.resolved is Some
                &&& steps_in(region, walk.descriptors)
            }),
        ensures
            ({
                let leaf = (searched::<InspectionMemory<'static, TBus>>(
                    machine,
                    tc,
                    logical,
                    fc,
                    done,
                    search,
                ).0.resolved->0).leaf_address;
                &&& leaf % 4 == 0
                &&& long_in(region, leaf)
                &&& long_of(byte, machine, leaf) & 3 == 1
            }),
        decreases 5 - done,
    {
        let (source, bits) = index_fields(tc)[done as int];
        let level = (done + 1) as u8;
        let index = descriptor_index(source, bits, search.consumed, logical, fc);
        let address = entry_address(search, index);
        lemma_entry_aligned(search, index);
        let words = descriptor_read::<InspectionMemory<'_, TBus>>(
            machine,
            address,
            search.long,
        ).0->Ok_0;
        Self::lemma_step_is_found(machine, tc, logical, fc, done, search, words);
        let step = decoded(level, source, index, address, search.long, words, search.limit);
        let steps = searched::<InspectionMemory<'_, TBus>>(
            machine,
            tc,
            logical,
            fc,
            done,
            search,
        ).0.descriptors;
        assert(steps[search.steps.len() as int] == step);
        lemma_inspected_long::<TBus>(region, plain, byte, machine, address);
        lemma_marks(
            byte(machine, address),
            byte(machine, address.wrapping_add(1)),
            byte(machine, address.wrapping_add(2)),
            byte(machine, address.wrapping_add(3)),
        );
        if search.long {
            let second = address.wrapping_add(4);
            lemma_inspected_long::<TBus>(region, plain, byte, machine, second);
            lemma_marks(
                byte(machine, second),
                byte(machine, second.wrapping_add(1)),
                byte(machine, second.wrapping_add(2)),
                byte(machine, second.wrapping_add(3)),
            );
        }
        if step.descriptor_type != 1 {
            Self::lemma_leaf_is_a_page(
                region,
                plain,
                byte,
                machine,
                tc,
                logical,
                fc,
                done + 1,
                descended(search, bits, step),
            );
        }
    }

    /// Inspecting an access right after its translation has filled the cache finds that the cache
    /// matches the tables, for reads and for writes and whichever of the two is asked. The
    /// descriptors that the access takes lie in plain memory that inspection sees, and those that it
    /// marks take the write, even if they ignore it. A write may mark its page descriptor modified
    /// only where no wider descriptor of the same search has its second word.
    pub proof fn law_filled_cache_matches_the_tables(
        region: spec_fn(u32) -> bool,
        writable: spec_fn(u32) -> bool,
        plain: spec_fn(TBus::Model) -> bool,
        byte: spec_fn(TBus::Model, u32) -> u8,
        cpu: CpuModel<TBus::Model>,
        query: TranslationQuery,
        later: TranslationQuery,
    )
        requires
            plain_memory::<TBus>(region, plain, byte),
            writes_complete::<TBus>(region, writable, plain, byte),
            sees::<TBus>(region, plain),
            plain(cpu.bus),
            Self::descriptors_lie_in(region, writable, cpu, query),
            cpu.atc.len() == 2,
            query.function_code <= 7,
            query.mode is CacheAware,
            goes_through(PMMU, cpu.regs.pmmu, query.function_code, query.address, query.writing),
            page_of(cpu.regs.pmmu.tc, query.address) < cpu.atc[bank_of(
                cpu.regs.pmmu,
                query.function_code,
            )].len(),
            answer(cpu, query.function_code, query.address) is None,
            Self::inspected(cpu, query)->Ok_0.physical_address is Some,
            query.writing ==> no_second_word_at(
                Self::inspected(cpu, query)->Ok_0.tables->0.descriptors,
                (Self::inspected(cpu, query)->Ok_0.tables->0.resolved->0).leaf_address,
            ),
            later.function_code == query.function_code,
            later.address == query.address,
            goes_through(PMMU, cpu.regs.pmmu, query.function_code, query.address, later.writing),
        ensures
            ({
                let (outcome, after) = Self::translated(
                    cpu,
                    query.function_code,
                    query.address,
                    query.writing,
                );
                &&& outcome is Ok
                &&& Self::inspected(after, later) matches Ok(found)
                &&& found.cache_matches_tables == Some(true)
            }),
    {
        let regs = cpu.regs.pmmu;
        let fc = query.function_code;
        let address = query.address;
        let tc = regs.tc;
        let root = root_of(regs, fc);
        let start = CpuModel { walk_mutate: true, walk_error: None, ..cpu };
        lemma_root(regs, fc);
        lemma_tc_numbers(tc);
        lemma_field_widths(tc);
        lemma_page_number(tc, address);
        lemma_tt(regs.tt[0], fc, address, later.writing);
        lemma_tt(regs.tt[1], fc, address, later.writing);
        Self::lemma_tables_lead_alike(region, writable, plain, byte, cpu, query);
        Self::law_translation_means(cpu, fc, address, query.writing);
        let after = Self::translated(cpu, fc, address, query.writing).1;
        let execution = walked::<Self>(start, tc, root, address, fc).0;
        law_walk_resolves_or_fails::<Self>(start, tc, root, address, fc);
        let page = execution.resolved->0;
        let place = page.physical_address;
        let entry = entry_of(table_page(execution)->0, tc, fc, query.writing, cpu.generation);
        assert(after.atc[bank_of(regs, fc)][page_of(tc, address)] == Some(entry));
        assert(place == (place - place as int % page_size(tc)) + address as int % page_size(tc)
            && entry.paddr as int % page_size(tc) == 0 && entry.paddr == place - place as int
            % page_size(tc)) by {
            law_walk_is_bounded_and_inherits_protection::<Self>(start, tc, root, address, fc);
            lemma_consumed_by(tc);
            let consumed = consumed_by(tc, execution.level as nat) as u32;
            lemma_page_offset_survives(place, address, consumed, tc.ps());
            lemma_page_base(place, tc);
            let size = page_size(tc);
            vstd::arithmetic::div_mod::lemma_fundamental_div_mod(place as int, size);
            vstd::arithmetic::div_mod::lemma_mod_bound(place as int, size);
            vstd::arithmetic::div_mod::lemma_mod_multiples_basic(place as int / size, size);
            assert(place - place as int % size == place as int / size * size) by {
                vstd::arithmetic::mul::lemma_mul_is_commutative(place as int / size, size);
            }
            lemma_page_join(entry.paddr, address, tc.ps());
        }
        Self::law_inspection_means(after, later);
    }
}

/// Setting the M bit of a descriptor once U bits have been set.
proof fn lemma_mark_keeps_marked<M>(
    region: spec_fn(u32) -> bool,
    byte: spec_fn(M, u32) -> u8,
    first: M,
    before: M,
    after: M,
    leaf: u32,
)
    requires
        memory_alike(region, byte, first, before),
        leaf % 4 == 0,
        long_in(region, leaf),
        long_settled(region, byte, before, after, leaf, long_of(byte, before, leaf) | 16),
    ensures
        memory_marked(region, byte, Some(leaf), first, after),
{
    let a3 = leaf.wrapping_add(3);
    lemma_marks(
        byte(before, leaf),
        byte(before, leaf.wrapping_add(1)),
        byte(before, leaf.wrapping_add(2)),
        byte(before, a3),
    );
    lemma_marks(0, 0, 0, byte(first, a3));
    assert forall|at: u32|
        #![trigger byte(after, at)]
        region(at) implies {
        let held = byte(first, at);
        ||| byte(after, at) == held
        ||| at % 4 == 3 && byte(after, at) == held | 8
        ||| at == leaf.wrapping_add(3) && (byte(after, at) == held | 16 || byte(after, at) == held
            | 24)
    } by {
        let _ = byte(before, at);
    }
}

} // verus!
