//! What holds of every search, translation and inspection.

use vstd::prelude::*;

use crate::bus::Bus;
use crate::cpu_m68k::cpu::{CpuErrorModel, CpuM68k, CpuModel};
use crate::cpu_m68k::pmmu::inspect::{
    atc_slot, slot_page, slots_between, TranslationMode, TranslationQuery,
};
use crate::cpu_m68k::pmmu::regs::{RootPointerReg, TcReg};
use crate::cpu_m68k::pmmu::translate::{
    cache_bank, cache_hit, cache_size, flushed, lemma_page_mask, lemma_page_number_bounded,
    page_mask, page_number, paged, root_pointer, transparent_register, PmmuAtcEntry,
};
use crate::cpu_m68k::pmmu::walk::{
    consumed_by, decoded, descended, descriptor_index, descriptor_read, entry_address, geometry,
    index_fields, law_walk_resolves_or_fails, lemma_consumed_by, lemma_field_widths, offset_mask,
    search_start, searched, walked, within_limit, IndexLimit, Search, StepModel, WalkMemory,
    WalkModel,
};

verus! {

/// Whether any step so far is write-protected.
pub open spec fn any_write_protected(steps: Seq<StepModel>) -> bool {
    exists|i: int| 0 <= i < steps.len() && (#[trigger] steps[i]).write_protected
}

/// Whether any step so far is supervisor-only.
pub open spec fn any_supervisor_only(steps: Seq<StepModel>) -> bool {
    exists|i: int| 0 <= i < steps.len() && (#[trigger] steps[i]).supervisor_only
}

/// Whether the steps take the index fields in order, one level each.
pub open spec fn steps_in_order(tc: TcReg, steps: Seq<StepModel>) -> bool {
    &&& steps.len() <= index_fields(tc).len()
    &&& forall|i: int|
        0 <= i < steps.len() ==> (#[trigger] steps[i]).level == i + 1 && steps[i].index_source
            == index_fields(tc)[i].0
}

/// Whether a search has gathered what its steps say.
pub open spec fn search_consistent(tc: TcReg, done: nat, search: Search) -> bool {
    &&& search.steps.len() == done
    &&& steps_in_order(tc, search.steps)
    &&& search.write_protected == any_write_protected(search.steps)
    &&& search.supervisor_only == any_supervisor_only(search.steps)
    &&& search.consumed == consumed_by(tc, done)
}

/// Whether a finished walk reports a page that its steps justify.
pub open spec fn walk_consistent(tc: TcReg, logical: u32, walk: WalkModel) -> bool {
    &&& walk.level <= index_fields(tc).len()
    &&& walk.descriptors.len() <= walk.level
    &&& steps_in_order(tc, walk.descriptors)
    &&& walk.failure matches Some(failure) ==> failure.level == walk.level
    &&& walk.resolved matches Some(page) ==> {
        let mask = offset_mask(consumed_by(tc, walk.level as nat) as u32);
        &&& 1 <= walk.level == walk.descriptors.len()
        &&& page.leaf_address == walk.descriptors.last().address
        &&& page.modified == walk.descriptors.last().modified
        &&& page.write_protected == any_write_protected(walk.descriptors)
        &&& page.supervisor_only == any_supervisor_only(walk.descriptors)
        &&& page.offset_bits == 32 - consumed_by(tc, walk.level as nat)
        &&& page.physical_address & mask == logical & mask
        &&& walk.descriptors.last().target_address is Some
        &&& page.physical_address & !mask == walk.descriptors.last().target_address->0 & !mask
    }
}

/// One more step adds its own protection to what was inherited.
proof fn lemma_protection_push(steps: Seq<StepModel>, step: StepModel)
    ensures
        any_write_protected(steps.push(step)) == (any_write_protected(steps)
            || step.write_protected),
        any_supervisor_only(steps.push(step)) == (any_supervisor_only(steps)
            || step.supervisor_only),
{
    let longer = steps.push(step);
    assert(longer[steps.len() as int] == step);
    assert forall|i: int| 0 <= i < steps.len() implies #[trigger] steps[i] == longer[i] by {}
    if any_write_protected(longer) {
        let i = choose|i: int| 0 <= i < longer.len() && (#[trigger] longer[i]).write_protected;
        if i < steps.len() {
            assert(steps[i].write_protected);
        }
    }
    if any_supervisor_only(longer) {
        let i = choose|i: int| 0 <= i < longer.len() && (#[trigger] longer[i]).supervisor_only;
        if i < steps.len() {
            assert(steps[i].supervisor_only);
        }
    }
}

/// A page's address and an offset share no bits.
proof fn lemma_joined_address(target: u32, logical: u32, mask: u32)
    ensures
        ((target & !255u32 & !mask) | (logical & mask)) & mask == logical & mask,
        ((target & !255u32 & !mask) | (logical & mask)) & !mask == (target & !255u32) & !mask,
{
    assert(((target & !255u32 & !mask) | (logical & mask)) & mask == logical & mask && ((target
        & !255u32 & !mask) | (logical & mask)) & !mask == (target & !255u32) & !mask)
        by (bit_vector);
}

/// A consistent search ends in a consistent walk.
proof fn lemma_search_consistent<M: WalkMemory>(
    memory: M::State,
    tc: TcReg,
    logical: u32,
    fc: u8,
    done: nat,
    search: Search,
)
    requires
        geometry(tc) == 32,
        search_consistent(tc, done, search),
    ensures
        walk_consistent(tc, logical, searched::<M>(memory, tc, logical, fc, done, search).0),
    decreases 5 - done,
{
    let fields = index_fields(tc);
    lemma_consumed_by(tc);
    lemma_field_widths(tc);
    if done < fields.len() && done < 5 {
        let (source, bits) = fields[done as int];
        let index = descriptor_index(source, bits, search.consumed, logical, fc);
        let address = entry_address(search, index);
        let (read, after) = descriptor_read::<M>(
            M::selected(memory, address),
            address,
            search.long,
        );
        if let Ok(words) = read {
            let level = (done + 1) as u8;
            let step = decoded(level, source, index, address, search.long, words, search.limit);
            let next = if step.used {
                after
            } else {
                M::used_marked(after, address, words[0]).1
            };
            lemma_protection_push(search.steps, step);
            assert(consumed_by(tc, done + 1) == search.consumed + bits);
            assert(steps_in_order(tc, search.steps.push(step)));
            let consumed = (search.consumed + bits) as u32;
            lemma_joined_address(words.last(), logical, offset_mask(consumed));
            assert(search.steps.push(step).last() == step);
            lemma_search_consistent::<M>(
                next,
                tc,
                logical,
                fc,
                done + 1,
                descended(search, bits, step),
            );
        }
    }
}

/// Every walk is bounded by the configured levels, takes their index fields in order, and
/// resolves a page that inherits the protection of every step, keeps the logical offset and
/// takes the rest of the address from the leaf.
pub proof fn law_walk_is_bounded_and_inherits_protection<M: WalkMemory>(
    memory: M::State,
    tc: TcReg,
    root: RootPointerReg,
    logical: u32,
    fc: u8,
)
    requires
        geometry(tc) == 32,
    ensures
        walk_consistent(tc, logical, walked::<M>(memory, tc, root, logical, fc).0),
        walked::<M>(memory, tc, root, logical, fc).0.level <= 5,
{
    lemma_search_consistent::<M>(memory, tc, logical, fc, 0, search_start(tc, root));
}

/// A machine after its bus has read some long words.
pub open spec fn after_reads<B: Bus>(machine: B::Model, addresses: Seq<u32>) -> B::Model
    decreases addresses.len(),
{
    if addresses.len() == 0 {
        machine
    } else {
        B::long_read(after_reads::<B>(machine, addresses.drop_last()), addresses.last()).1
    }
}

/// Reads after reads are reads.
proof fn lemma_reads_join<B: Bus>(machine: B::Model, first: Seq<u32>, rest: Seq<u32>)
    ensures
        after_reads::<B>(after_reads::<B>(machine, first), rest) == after_reads::<B>(
            machine,
            first + rest,
        ),
    decreases rest.len(),
{
    if rest.len() == 0 {
        assert(first + rest =~= first);
    } else {
        lemma_reads_join::<B>(machine, first, rest.drop_last());
        assert((first + rest).drop_last() =~= first + rest.drop_last());
    }
}

/// A search only ever adds steps.
pub proof fn lemma_steps_grow<M: WalkMemory>(
    memory: M::State,
    tc: TcReg,
    logical: u32,
    fc: u8,
    done: nat,
    search: Search,
)
    ensures
        ({
            let found = searched::<M>(memory, tc, logical, fc, done, search).0.descriptors;
            &&& found.len() >= search.steps.len()
            &&& forall|i: int| 0 <= i < search.steps.len() ==> #[trigger] found[i] == search.steps[i]
        }),
    decreases 5 - done,
{
    let fields = index_fields(tc);
    if done < fields.len() && done < 5 {
        let (source, bits) = fields[done as int];
        let index = descriptor_index(source, bits, search.consumed, logical, fc);
        let address = entry_address(search, index);
        let (read, after) = descriptor_read::<M>(
            M::selected(memory, address),
            address,
            search.long,
        );
        if let Ok(words) = read {
            let step = decoded(
                (done + 1) as u8,
                source,
                index,
                address,
                search.long,
                words,
                search.limit,
            );
            let next = if step.used {
                after
            } else {
                M::used_marked(after, address, words[0]).1
            };
            let below = descended(search, bits, step);
            lemma_steps_grow::<M>(next, tc, logical, fc, done + 1, below);
            let found = searched::<M>(next, tc, logical, fc, done + 1, below).0.descriptors;
            assert forall|i: int| 0 <= i < search.steps.len() implies #[trigger] found[i]
                == search.steps[i] by {
                assert(below.steps[i] == search.steps[i]);
            }
        }
    }
}

/// With FCL the first descriptor is selected by the function code alone, before any address
/// bits, and the root limit does not apply to it. Without FCL the root limit does apply.
pub proof fn law_function_code_level_comes_first<M: WalkMemory>(
    memory: M::State,
    tc: TcReg,
    root: RootPointerReg,
    logical: u32,
    fc: u8,
)
    requires
        walked::<M>(memory, tc, root, logical, fc).0.descriptors.len() > 0,
    ensures
        ({
            let first = walked::<M>(memory, tc, root, logical, fc).0.descriptors[0];
            if tc.fcl() {
                &&& first.index_source is FunctionCode
                &&& first.index == fc & 7
                &&& first.parent_limit is None
            } else {
                &&& first.index_source is TableA
                &&& first.parent_limit == Some(IndexLimit { value: root.limit(), lower: root.lu() })
                &&& within_limit(first.parent_limit, first.index)
            }
        }),
{
    let start = search_start(tc, root);
    let fields = index_fields(tc);
    let (source, bits) = fields[0];
    let index = descriptor_index(source, bits, start.consumed, logical, fc);
    let address = entry_address(start, index);
    let (read, after) = descriptor_read::<M>(M::selected(memory, address), address, start.long);
    if let Ok(words) = read {
        let step = decoded(1, source, index, address, start.long, words, start.limit);
        let next = if step.used {
            after
        } else {
            M::used_marked(after, address, words[0]).1
        };
        let below = descended(start, bits, step);
        lemma_steps_grow::<M>(next, tc, logical, fc, 1, below);
        assert(below.steps[0] == step);
        assert(start.steps.push(step)[0] == step);
    }
}

/// The scan of a cache can be cut anywhere: continuing at the cut neither skips nor repeats.
pub proof fn law_cache_pages_join<M>(cpu: CpuModel<M>, from: int, cut: int, to: int)
    requires
        from <= cut <= to,
    ensures
        slots_between(cpu, from, to) == slots_between(cpu, from, cut) + slots_between(cpu, cut, to),
    decreases to - cut,
{
    if cut == to {
        assert(slots_between(cpu, from, cut) + slots_between(cpu, cut, to) =~= slots_between(
            cpu,
            from,
            to,
        ));
    } else {
        law_cache_pages_join(cpu, from, cut, to - 1);
        assert(slots_between(cpu, from, to) =~= slots_between(cpu, from, cut) + slots_between(
            cpu,
            cut,
            to,
        ));
    }
}

/// Whether every entry belongs to this generation or an earlier one.
pub open spec fn generations_ordered<M>(cpu: CpuModel<M>) -> bool {
    &&& cpu.generation >= 1
    &&& cpu.atc.len() == 2
    &&& forall|bank: int, key: int|
        0 <= bank < 2 && 0 <= key < cpu.atc[bank].len() ==> (
        #[trigger] cpu.atc[bank][key] matches Some(entry) ==> entry.generation <= cpu.generation)
}

/// Whether every entry of this generation holds the base of a page.
pub open spec fn pages_aligned<M>(cpu: CpuModel<M>) -> bool {
    forall|bank: int, key: int|
        0 <= bank < 2 && 0 <= key < cpu.atc[bank].len() ==> (
        #[trigger] cpu.atc[bank][key] matches Some(entry) ==> entry.generation == cpu.generation
            ==> entry.paddr & page_mask(cpu.regs.pmmu.tc) == 0)
}

/// After a flush no access is answered by the cache. The order of generations holds on, and no
/// entry of the new generation holds anything but the base of a page.
pub proof fn law_flush_forgets_every_entry<M>(cpu: CpuModel<M>, fc: u8, vaddr: u32)
    requires
        generations_ordered(cpu),
    ensures
        generations_ordered(flushed(cpu)),
        pages_aligned(flushed(cpu)),
        page_number(cpu.regs.pmmu.tc, vaddr) < cpu.atc[cache_bank(cpu.regs.pmmu, fc)].len()
            ==> cache_hit(flushed(cpu), fc, vaddr) is None,
{
    let after = flushed(cpu);
    let bank = cache_bank(cpu.regs.pmmu, fc);
    let key = page_number(cpu.regs.pmmu.tc, vaddr) as int;
    assert(after.atc[bank].len() == cpu.atc[bank].len());
    if key < cpu.atc[bank].len() {
        let _ = cpu.atc[bank][key];
        let _ = after.atc[bank][key];
    }
    assert forall|bank: int, key: int|
        0 <= bank < 2 && 0 <= key < after.atc[bank].len() implies (
    #[trigger] after.atc[bank][key] matches Some(entry) ==> entry.generation
        <= after.generation) by {
        let _ = cpu.atc[bank][key];
    }
    assert forall|bank: int, key: int|
        0 <= bank < 2 && 0 <= key < after.atc[bank].len() implies (
    #[trigger] after.atc[bank][key] matches Some(entry) ==> entry.generation == after.generation
        ==> entry.paddr & page_mask(after.regs.pmmu.tc) == 0) by {
        let _ = cpu.atc[bank][key];
    }
}

/// Caches of the size that the configuration calls for have a slot for every address, whatever
/// the function code.
pub proof fn law_full_caches_have_every_slot<M>(cpu: CpuModel<M>, fc: u8, vaddr: u32)
    requires
        cpu.atc.len() == 2,
        cpu.atc[0].len() >= cache_size(cpu.regs.pmmu.tc),
        cpu.atc[1].len() >= cache_size(cpu.regs.pmmu.tc),
    ensures
        page_number(cpu.regs.pmmu.tc, vaddr) < cpu.atc[cache_bank(cpu.regs.pmmu, fc)].len(),
{
    lemma_page_number_bounded(cpu.regs.pmmu.tc, vaddr);
}

/// An entry answers only for the function code that filled it, and only in its generation.
pub proof fn law_cache_entries_are_tagged<M>(cpu: CpuModel<M>, fc: u8, vaddr: u32)
    ensures
        cache_hit(cpu, fc, vaddr) matches Some(entry) ==> entry.function_code == fc
            && entry.generation == cpu.generation,
{
}

impl<
    TBus: Bus,
    const ADDRESS_MASK: u32,
    const CPU_TYPE: usize,
    const FPU_TYPE: usize,
    const PMMU: bool,
> CpuM68k<TBus, ADDRESS_MASK, CPU_TYPE, FPU_TYPE, PMMU> {
    /// Accesses that bypass the unit keep their address and leave no trace: without an MMU, in
    /// CPU space, through a transparent translation register, or while translation is off.
    pub proof fn law_bypass_changes_nothing(
        cpu: CpuModel<TBus::Model>,
        fc: u8,
        vaddr: u32,
        writing: bool,
    )
        requires
            !PMMU || fc == 7 || transparent_register(cpu.regs.pmmu, fc, vaddr, writing) is Some
                || !cpu.regs.pmmu.tc.enable(),
        ensures
            Self::translated(cpu, fc, vaddr, writing) == (Ok::<u32, CpuErrorModel>(vaddr), cpu),
    {
    }

    /// Translation keeps the size of the caches, the order of generations, and that entries hold
    /// the bases of pages.
    pub proof fn law_translation_keeps_cache_shape(
        cpu: CpuModel<TBus::Model>,
        fc: u8,
        vaddr: u32,
        writing: bool,
    )
        requires
            cpu.atc.len() == 2,
            paged(PMMU, cpu, fc, vaddr, writing) ==> page_number(cpu.regs.pmmu.tc, vaddr)
                < cpu.atc[cache_bank(cpu.regs.pmmu, fc)].len(),
        ensures
            ({
                let after = Self::translated(cpu, fc, vaddr, writing).1;
                &&& after.atc.len() == 2
                &&& after.atc[0].len() == cpu.atc[0].len()
                &&& after.atc[1].len() == cpu.atc[1].len()
                &&& after.generation == cpu.generation
                &&& after.regs.pmmu.tc == cpu.regs.pmmu.tc
                &&& generations_ordered(cpu) ==> generations_ordered(after)
                &&& pages_aligned(cpu) ==> pages_aligned(after)
            }),
    {
        Self::lemma_lookup_keeps_caches(cpu, false, fc, vaddr, writing);
        let after = Self::translated(cpu, fc, vaddr, writing).1;
        if generations_ordered(cpu) {
            assert forall|bank: int, key: int|
                0 <= bank < 2 && 0 <= key < after.atc[bank].len() implies (
            #[trigger] after.atc[bank][key] matches Some(entry) ==> entry.generation
                <= after.generation) by {
                let _ = cpu.atc[bank][key];
                let _ = cpu.atc[cache_bank(cpu.regs.pmmu, fc)][page_number(
                    cpu.regs.pmmu.tc,
                    vaddr,
                ) as int];
            }
        }
        if pages_aligned(cpu) {
            let bank0 = cache_bank(cpu.regs.pmmu, fc);
            let key0 = page_number(cpu.regs.pmmu.tc, vaddr) as int;
            assert forall|bank: int, key: int|
                0 <= bank < 2 && 0 <= key < after.atc[bank].len() implies (
            #[trigger] after.atc[bank][key] matches Some(entry) ==> entry.generation
                == after.generation ==> entry.paddr & page_mask(after.regs.pmmu.tc) == 0) by {
                let _ = cpu.atc[bank][key];
                let _ = cpu.atc[bank0][key0];
                if let Ok((physical, _, _, _, _)) = Self::looked_up(
                    cpu,
                    false,
                    fc,
                    vaddr,
                    writing,
                ).0 {
                    let mask = page_mask(cpu.regs.pmmu.tc);
                    assert((physical & !mask) & mask == 0) by (bit_vector);
                }
            }
        }
    }

    /// An access that the cache rejects touches neither the tables nor the cache.
    pub proof fn law_cached_rejection_touches_nothing_else(
        cpu: CpuModel<TBus::Model>,
        entry: PmmuAtcEntry,
        fc: u8,
        vaddr: u32,
        writing: bool,
    )
        requires
            fc & 4 == 0 && entry.s || writing && entry.wp,
        ensures
            ({
                let (outcome, after) = Self::translated_by_cache(cpu, entry, fc, vaddr, writing);
                &&& outcome is Err
                &&& after.bus == cpu.bus
                &&& after.atc == cpu.atc
            }),
    {
    }

    /// PTEST reads the tables and never writes them: the bus is as some reads leave it, and beyond
    /// that only the status and the last descriptor change.
    pub proof fn law_ptest_writes_no_tables(
        cpu: CpuModel<TBus::Model>,
        fc: u8,
        vaddr: u32,
        writing: bool,
    )
        ensures
            ({
                let after = Self::looked_up(cpu, true, fc, vaddr, writing).1;
                &&& exists|addresses: Seq<u32>|
                    after.bus == #[trigger] after_reads::<TBus>(cpu.bus, addresses)
                &&& after.atc == cpu.atc
                &&& after.history == cpu.history
            }),
    {
        let start = Self::lookup_start(cpu, true);
        let root = root_pointer(cpu.regs.pmmu, fc);
        let tc = cpu.regs.pmmu.tc;
        Self::lemma_walk_frame(start, tc, root, vaddr, fc);
        let addresses = Self::lemma_probe_reads(start, tc, vaddr, fc, 0, search_start(tc, root));
        let after = Self::looked_up(cpu, true, fc, vaddr, writing).1;
        if after.bus == cpu.bus {
            assert(after.bus == after_reads::<TBus>(cpu.bus, Seq::empty()));
        } else {
            assert(after.bus == after_reads::<TBus>(cpu.bus, addresses));
        }
    }

    /// A search that may not mark descriptors leaves the bus as its reads leave it.
    proof fn lemma_probe_reads(
        cpu: CpuModel<TBus::Model>,
        tc: TcReg,
        logical: u32,
        fc: u8,
        done: nat,
        search: Search,
    ) -> (addresses: Seq<u32>)
        requires
            !cpu.walk_mutate,
        ensures
            searched::<Self>(cpu, tc, logical, fc, done, search).1.bus == after_reads::<TBus>(
                cpu.bus,
                addresses,
            ),
        decreases 5 - done,
    {
        let fields = index_fields(tc);
        if done < fields.len() && done < 5 {
            let (source, bits) = fields[done as int];
            let index = descriptor_index(source, bits, search.consumed, logical, fc);
            let address = entry_address(search, index);
            let second = address.wrapping_add(4);
            let (read, after) = descriptor_read::<Self>(
                Self::selected(cpu, address),
                address,
                search.long,
            );
            let one = seq![address];
            let two = seq![address, second];
            assert(one.drop_last() =~= Seq::empty());
            assert(two.drop_last() =~= one);
            reveal_with_fuel(after_reads, 3);
            let reads = if search.long && TBus::long_read(cpu.bus, address).0 is Ok {
                two
            } else {
                one
            };
            assert(after.bus == after_reads::<TBus>(cpu.bus, reads));
            let reached = (bits != 0 || source is FunctionCode) && within_limit(
                search.limit,
                index,
            );
            if !reached {
                Seq::empty()
            } else if let Ok(words) = read {
                let step = decoded(
                    (done + 1) as u8,
                    source,
                    index,
                    address,
                    search.long,
                    words,
                    search.limit,
                );
                if step.descriptor_type == 2 || step.descriptor_type == 3 {
                    let rest = Self::lemma_probe_reads(
                        after,
                        tc,
                        logical,
                        fc,
                        done + 1,
                        descended(search, bits, step),
                    );
                    lemma_reads_join::<TBus>(cpu.bus, reads, rest);
                    reads + rest
                } else {
                    reads
                }
            } else {
                reads
            }
        } else {
            Seq::empty()
        }
    }

    /// Once an access has been translated, through the tables or by the cache, reading any address
    /// of the same page with the same function code is answered by the cache. Edits of the tables do
    /// not show: whatever memory holds by then, the access goes to the same page, and neither the
    /// bus nor the caches are touched. Reading the same address again gives the same place.
    pub proof fn law_translation_is_cached(
        cpu: CpuModel<TBus::Model>,
        fc: u8,
        vaddr: u32,
        writing: bool,
        later: CpuModel<TBus::Model>,
        other: u32,
    )
        requires
            paged(PMMU, cpu, fc, vaddr, writing),
            cpu.atc.len() == 2,
            pages_aligned(cpu),
            page_number(cpu.regs.pmmu.tc, vaddr) < cpu.atc[cache_bank(cpu.regs.pmmu, fc)].len(),
            Self::translated(cpu, fc, vaddr, writing).0 is Ok,
            later.atc == Self::translated(cpu, fc, vaddr, writing).1.atc,
            later.generation == cpu.generation,
            later.regs.pmmu.tc == cpu.regs.pmmu.tc,
            paged(PMMU, later, fc, other, false),
            other & !page_mask(cpu.regs.pmmu.tc) == vaddr & !page_mask(cpu.regs.pmmu.tc),
        ensures
            ({
                let physical = Self::translated(cpu, fc, vaddr, writing).0->Ok_0;
                let mask = page_mask(cpu.regs.pmmu.tc);
                let place = (physical & !mask) | (other & mask);
                &&& Self::translated(later, fc, other, false) == (
                    Ok::<u32, CpuErrorModel>(place),
                    later,
                )
                &&& other == vaddr && geometry(cpu.regs.pmmu.tc) == 32 ==> place == physical
            }),
    {
        let tc = cpu.regs.pmmu.tc;
        let mask = page_mask(tc);
        let bank = cache_bank(cpu.regs.pmmu, fc);
        lemma_field_widths(tc);
        lemma_page_mask(tc.ps());
        lemma_same_page(tc, vaddr, other);
        Self::lemma_lookup_keeps_caches(cpu, false, fc, vaddr, writing);
        if let Some(entry) = cache_hit(cpu, fc, vaddr) {
            let _ = cpu.atc[bank][page_number(tc, vaddr) as int];
            let base = entry.paddr;
            assert((base | (vaddr & mask)) & !mask == base && ((base | (vaddr & mask)) & !mask) | (
            vaddr & mask) == base | (vaddr & mask)) by (bit_vector)
                requires
                    base & mask == 0,
            ;
        } else if geometry(tc) == 32 {
            let root = root_pointer(cpu.regs.pmmu, fc);
            let start = Self::lookup_start(cpu, false);
            Self::lemma_walk_frame(start, tc, root, vaddr, fc);
            law_walk_is_bounded_and_inherits_protection::<Self>(start, tc, root, vaddr, fc);
            law_walk_resolves_or_fails::<Self>(start, tc, root, vaddr, fc);
            lemma_consumed_by(tc);
            let walk = walked::<Self>(start, tc, root, vaddr, fc).0;
            let page = walk.resolved->0;
            let consumed = consumed_by(tc, walk.level as nat) as u32;
            lemma_page_offset_survives(page.physical_address, vaddr, consumed, tc.ps());
        }
    }

    /// A translation that fails leaves the caches as they were.
    pub proof fn law_failed_translation_keeps_the_caches(
        cpu: CpuModel<TBus::Model>,
        fc: u8,
        vaddr: u32,
        writing: bool,
    )
        requires
            Self::translated(cpu, fc, vaddr, writing).0 is Err,
        ensures
            Self::translated(cpu, fc, vaddr, writing).1.atc == cpu.atc,
            Self::translated(cpu, fc, vaddr, writing).1.generation == cpu.generation,
    {
        Self::lemma_lookup_keeps_caches(cpu, false, fc, vaddr, writing);
    }
}

/// Addresses that differ in the page offset alone have the same page number.
proof fn lemma_same_page(tc: TcReg, a: u32, b: u32)
    requires
        a & !page_mask(tc) == b & !page_mask(tc),
    ensures
        page_number(tc, a) == page_number(tc, b),
{
    lemma_field_widths(tc);
    let shift = tc.is();
    let bits = tc.ps();
    let mask = page_mask(tc);
    assert((a & (0xFFFF_FFFFu32 >> shift)) >> bits == (b & (0xFFFF_FFFFu32 >> shift)) >> bits)
        by (bit_vector)
        requires
            shift <= 15,
            bits <= 15,
            mask == ((1u32 << bits) - 1) as u32,
            a & !mask == b & !mask,
    ;
}

/// An address that agrees on a longer offset splits and joins again on the page offset.
pub proof fn lemma_page_offset_survives(physical: u32, logical: u32, consumed: u32, bits: u32)
    requires
        bits <= 15,
        consumed <= 32 - bits,
        physical & offset_mask(consumed) == logical & offset_mask(consumed),
    ensures
        (physical & !(((1u32 << bits) - 1) as u32)) | (logical & ((1u32 << bits) - 1) as u32)
            == physical,
{
    let mask = offset_mask(consumed);
    assert((physical & !(((1u32 << bits) - 1) as u32)) | (logical & (((1u32 << bits) - 1) as u32))
        == physical) by (bit_vector)
        requires
            bits <= 15,
            consumed <= 32 - bits,
            mask == (if consumed >= 32 {
                0u32
            } else {
                0xFFFF_FFFFu32 >> consumed
            }),
            physical & mask == logical & mask,
    ;
}

impl<
    TBus: Bus,
    const ADDRESS_MASK: u32,
    const CPU_TYPE: usize,
    const FPU_TYPE: usize,
    const PMMU: bool,
> CpuM68k<TBus, ADDRESS_MASK, CPU_TYPE, FPU_TYPE, PMMU> {
    /// What table-only inspection predicts is what inspection predicts once the caches are flushed:
    /// the same route, page, protection, failure and effects.
    pub proof fn law_table_only_ignores_the_caches(
        cpu: CpuModel<TBus::Model>,
        query: TranslationQuery,
    )
        requires
            generations_ordered(cpu),
            query.function_code <= 7,
            query.mode is CacheAware,
        ensures
            ({
                let bare = TranslationQuery { mode: TranslationMode::TableOnly, ..query };
                let tables = Self::inspected(cpu, bare)->Ok_0;
                let fresh = Self::inspected(flushed(cpu), query)->Ok_0;
                &&& tables.route == fresh.route
                &&& tables.tables == fresh.tables
                &&& tables.physical_address == fresh.physical_address
                &&& tables.bus_address == fresh.bus_address
                &&& tables.write_protected == fresh.write_protected
                &&& tables.supervisor_only == fresh.supervisor_only
                &&& tables.failure == fresh.failure
                &&& tables.descriptor_effects == fresh.descriptor_effects
            }),
    {
        law_flush_forgets_every_entry(cpu, query.function_code, query.address);
        let bank = cache_bank(cpu.regs.pmmu, query.function_code);
        let key = page_number(cpu.regs.pmmu.tc, query.address) as int;
        let after = flushed(cpu);
        assert(after.atc[bank].len() == cpu.atc[bank].len());
        if key < cpu.atc[bank].len() {
            let _ = cpu.atc[bank][key];
            let _ = after.atc[bank][key];
        }
        assert(slot_page(atc_slot(after, bank, key), query, cpu.regs.pmmu.tc.ps()) is None);
    }
}

} // verus!
