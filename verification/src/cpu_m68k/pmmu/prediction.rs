//! Inspection predicts translation, on every machine where the descriptors of the search lie in
//! plain memory. What else there is in the address space, ROM, devices or nothing, does not matter.
//!
//! Execution sets U bits while it searches, so it may read descriptors that its own search has
//! just changed. Those changes never steer a search: both searches agree on everything but the
//! U bits themselves.

use vstd::prelude::*;

use crate::bus::{sparse_byte, sparse_long, AccessErrorModel, Bus, SparseBus, SparseModel};
use crate::cpu_m68k::cpu::{CpuErrorModel, CpuM68k, CpuModel};
use crate::cpu_m68k::pmmu::inspect::{
    inspected_long, used_effects, DescriptorEffect, InspectionMemory, TranslationQuery,
};
use crate::cpu_m68k::pmmu::laws::lemma_steps_grow;
use crate::cpu_m68k::pmmu::regs::{RootPointerReg, TcReg};
use crate::cpu_m68k::pmmu::translate::{
    cache_bank, cache_hit, fault_cause, page_number, paged, pagefault_frame, root_pointer,
};
use crate::cpu_m68k::pmmu::walk::{
    law_walk_resolves_or_fails, decoded, descended, descriptor_index, descriptor_read,
    entry_address, geometry, index_fields, protection_failure, search_start, searched, walked,
    within_limit,
    DescriptorIndex, FailureModel, IndexLimit, Search, StepModel, WalkModel, WalkMemory,
};
use crate::util::bytes::{long_byte0, long_byte1, long_byte2, long_byte3, long_from_bytes};

verus! {

/// The long word at an address, from single bytes.
pub open spec fn long_of<M>(byte: spec_fn(M, u32) -> u8, machine: M, address: u32) -> u32 {
    long_from_bytes(
        byte(machine, address),
        byte(machine, address.wrapping_add(1)),
        byte(machine, address.wrapping_add(2)),
        byte(machine, address.wrapping_add(3)),
    )
}

/// Whether the four bytes of a long word lie in a region.
pub open spec fn long_in(region: spec_fn(u32) -> bool, address: u32) -> bool {
    &&& region(address)
    &&& region(address.wrapping_add(1))
    &&& region(address.wrapping_add(2))
    &&& region(address.wrapping_add(3))
}

/// The byte at a place that held `held`, once `value` has been stored at `address`.
pub open spec fn byte_stored(held: u8, address: u32, value: u32, at: u32) -> u8 {
    if at == address {
        long_byte0(value)
    } else if at == address.wrapping_add(1) {
        long_byte1(value)
    } else if at == address.wrapping_add(2) {
        long_byte2(value)
    } else if at == address.wrapping_add(3) {
        long_byte3(value)
    } else {
        held
    }
}

/// Whether `value` has been stored at `address` and nothing else in the region has changed.
pub open spec fn long_stored<M>(
    region: spec_fn(u32) -> bool,
    byte: spec_fn(M, u32) -> u8,
    before: M,
    after: M,
    address: u32,
    value: u32,
) -> bool {
    forall|at: u32|
        #![trigger byte(after, at)]
        region(at) ==> byte(after, at) == byte_stored(byte(before, at), address, value, at)
}

/// Whether every byte of the region either is as storing `value` at `address` makes it, or has
/// stayed.
pub open spec fn long_settled<M>(
    region: spec_fn(u32) -> bool,
    byte: spec_fn(M, u32) -> u8,
    before: M,
    after: M,
    address: u32,
    value: u32,
) -> bool {
    forall|at: u32|
        #![trigger byte(after, at)]
        region(at) ==> byte(after, at) == byte(before, at) || byte(after, at) == byte_stored(
            byte(before, at),
            address,
            value,
            at,
        )
}

/// Whether the machines that `plain` picks out have plain memory in a region of their address
/// space: reads there return what `byte` says and change nothing in the region, and inspection
/// sees nothing else. What lies outside the region can be anything.
pub open spec fn plain_memory<B: Bus>(
    region: spec_fn(u32) -> bool,
    plain: spec_fn(B::Model) -> bool,
    byte: spec_fn(B::Model, u32) -> u8,
) -> bool {
    &&& forall|machine: B::Model, address: u32|
        #![trigger B::long_read(machine, address)]
        plain(machine) && long_in(region, address) ==> {
            let (word, after) = B::long_read(machine, address);
            &&& word == Ok::<u32, AccessErrorModel>(long_of(byte, machine, address))
            &&& plain(after)
            &&& forall|at: u32| region(at) ==> #[trigger] byte(after, at) == byte(machine, at)
        }
    &&& forall|machine: B::Model, address: u32|
        #![trigger B::byte_inspected(machine, address)]
        plain(machine) && region(address) ==> (B::byte_inspected(machine, address) matches Some(
            seen,
        ) ==> seen == byte(machine, address))
}

/// Whether writes to some of the region are completed, be it that they store, be it that they are
/// ignored, as they are by a ROM.
pub open spec fn writes_complete<B: Bus>(
    region: spec_fn(u32) -> bool,
    writable: spec_fn(u32) -> bool,
    plain: spec_fn(B::Model) -> bool,
    byte: spec_fn(B::Model, u32) -> u8,
) -> bool {
    forall|machine: B::Model, address: u32, value: u32|
        #![trigger B::long_written(machine, address, value)]
        plain(machine) && long_in(writable, address) ==> {
            let (done, after) = B::long_written(machine, address, value);
            &&& done is Ok
            &&& plain(after)
            &&& long_settled(region, byte, machine, after, address, value)
        }
}

/// Whether writes to some of the region store.
pub open spec fn writes_store<B: Bus>(
    region: spec_fn(u32) -> bool,
    writable: spec_fn(u32) -> bool,
    plain: spec_fn(B::Model) -> bool,
    byte: spec_fn(B::Model, u32) -> u8,
) -> bool {
    forall|machine: B::Model, address: u32, value: u32|
        #![trigger B::long_written(machine, address, value)]
        plain(machine) && long_in(writable, address) ==> {
            let (done, after) = B::long_written(machine, address, value);
            &&& done is Ok
            &&& plain(after)
            &&& long_stored(region, byte, machine, after, address, value)
        }
}

/// Sparse memory is plain memory that stores, everywhere.
pub proof fn law_sparse_memory_is_plain()
    ensures
        ({
            let all = |at: u32| true;
            let plain = |machine: SparseModel| true;
            let byte = |machine: SparseModel, at: u32| sparse_byte(machine.mem, at);
            &&& plain_memory::<SparseBus>(all, plain, byte)
            &&& writes_store::<SparseBus>(all, all, plain, byte)
        }),
{
    let byte = |machine: SparseModel, at: u32| sparse_byte(machine.mem, at);
    assert forall|machine: SparseModel, address: u32|
        #![trigger SparseBus::long_read(machine, address)]
        {
            let (word, after) = SparseBus::long_read(machine, address);
            &&& word == Ok::<u32, AccessErrorModel>(long_of(byte, machine, address))
            &&& forall|at: u32| #[trigger] byte(after, at) == byte(machine, at)
        } by {
        assert(sparse_long(machine.mem, address) == long_of(byte, machine, address));
    }
}

/// Whether a descriptor lies in a region, both long words of a wide one.
pub open spec fn step_in(region: spec_fn(u32) -> bool, step: StepModel) -> bool {
    &&& long_in(region, step.address)
    &&& step.width == 8 ==> long_in(region, step.address.wrapping_add(4))
}

/// Whether the descriptors of a search lie in a region.
pub open spec fn steps_in(region: spec_fn(u32) -> bool, steps: Seq<StepModel>) -> bool {
    forall|i: int| 0 <= i < steps.len() ==> step_in(region, #[trigger] steps[i])
}

/// Whether the valid descriptors of a search that are not yet marked used lie in a region.
pub open spec fn unused_in(region: spec_fn(u32) -> bool, steps: Seq<StepModel>) -> bool {
    forall|i: int|
        0 <= i < steps.len() && !(#[trigger] steps[i]).used && steps[i].descriptor_type != 0
            ==> long_in(region, steps[i].address)
}

/// Whether the descriptors that effects fall on lie in a region.
pub open spec fn effects_in(region: spec_fn(u32) -> bool, effects: Seq<DescriptorEffect>) -> bool {
    forall|i: int| 0 <= i < effects.len() ==> long_in(region, (#[trigger] effects[i]).address)
}

/// The descriptors that a search would mark are those that its effects fall on.
pub proof fn lemma_unused_in(region: spec_fn(u32) -> bool, steps: Seq<StepModel>)
    requires
        effects_in(region, used_effects(steps)),
    ensures
        unused_in(region, steps),
    decreases steps.len(),
{
    if steps.len() > 0 {
        let shorter = steps.drop_last();
        let effects = used_effects(steps);
        let before = used_effects(shorter);
        assert forall|i: int| 0 <= i < before.len() implies long_in(
            region,
            (#[trigger] before[i]).address,
        ) by {
            assert(effects[i] == before[i]);
        }
        lemma_unused_in(region, shorter);
        assert forall|i: int|
            0 <= i < steps.len() && !(#[trigger] steps[i]).used && steps[i].descriptor_type
                != 0 implies long_in(region, steps[i].address) by {
            if i < shorter.len() {
                assert(shorter[i] == steps[i]);
            } else {
                assert(effects.last() == effects[effects.len() - 1]);
            }
        }
    }
}

/// Whether a word is another with at most its U bit set in addition.
pub open spec fn used_alike(word: u32, other: u32) -> bool {
    other == word || other == word | 8
}

/// Whether memory in a region differs at most by U bits of aligned long words.
pub open spec fn memory_alike<M>(
    region: spec_fn(u32) -> bool,
    byte: spec_fn(M, u32) -> u8,
    first: M,
    other: M,
) -> bool {
    forall|at: u32|
        #![trigger byte(other, at)]
        region(at) ==> byte(other, at) == byte(first, at) || at % 4 == 3 && byte(other, at) == byte(
            first,
            at,
        ) | 8
}

/// Whether two steps differ at most in their U bits.
pub open spec fn step_alike(first: StepModel, other: StepModel) -> bool {
    other == (StepModel { words: other.words, used: other.used, ..first })
}

/// Whether two lists of steps differ at most in U bits.
pub open spec fn steps_alike(first: Seq<StepModel>, other: Seq<StepModel>) -> bool {
    &&& first.len() == other.len()
    &&& forall|i: int| 0 <= i < first.len() ==> step_alike(#[trigger] first[i], other[i])
}

/// Whether two searches differ at most in U bits.
pub open spec fn searches_alike(first: Search, other: Search) -> bool {
    &&& other == (Search { steps: other.steps, ..first })
    &&& steps_alike(first.steps, other.steps)
}

/// Whether two walks differ at most in U bits.
pub open spec fn walks_alike(first: WalkModel, other: WalkModel) -> bool {
    &&& other == (WalkModel { descriptors: other.descriptors, ..first })
    &&& steps_alike(first.descriptors, other.descriptors)
}

/// Bytes and words agree about the U bit.
proof fn lemma_used_byte(b0: u8, b1: u8, b2: u8, b3: u8)
    ensures
        long_from_bytes(b0, b1, b2, b3 | 8) == long_from_bytes(b0, b1, b2, b3) | 8,
        long_byte0(long_from_bytes(b0, b1, b2, b3) | 8) == b0,
        long_byte1(long_from_bytes(b0, b1, b2, b3) | 8) == b1,
        long_byte2(long_from_bytes(b0, b1, b2, b3) | 8) == b2,
        long_byte3(long_from_bytes(b0, b1, b2, b3) | 8) == b3 | 8,
        (b3 | 8) | 8 == b3 | 8,
{
    let word = long_from_bytes(b0, b1, b2, b3);
    assert(word == ((b0 as u32) << 24) | ((b1 as u32) << 16) | ((b2 as u32) << 8) | (b3 as u32)
        ==> ((b0 as u32) << 24) | ((b1 as u32) << 16) | ((b2 as u32) << 8) | ((b3 | 8) as u32)
        == word | 8 && (((word | 8) >> 24) & 0xFF) as u8 == b0 && (((word | 8) >> 16) & 0xFF) as u8
        == b1 && (((word | 8) >> 8) & 0xFF) as u8 == b2 && ((word | 8) & 0xFF) as u8 == b3 | 8 && (b3
        | 8) | 8 == b3 | 8) by (bit_vector);
}

/// The U bit of either word of a descriptor changes nothing else that is read from it.
proof fn lemma_used_bit_is_ignored(flags: u32, flags2: u32, target: u32, target2: u32)
    requires
        used_alike(flags, flags2),
        used_alike(target, target2),
    ensures
        flags & 3 == flags2 & 3,
        flags & 4 == flags2 & 4,
        flags & 16 == flags2 & 16,
        flags & 64 == flags2 & 64,
        flags & 0x100 == flags2 & 0x100,
        flags >> 16 == flags2 >> 16,
        flags >> 31 == flags2 >> 31,
        target & !15u32 == target2 & !15u32,
        target & !255u32 == target2 & !255u32,
        flags2 & 8 == 0 ==> flags == flags2,
        (target & !15u32) % 16 == 0,
{
    assert(flags & 3 == flags2 & 3 && flags & 4 == flags2 & 4 && flags & 16 == flags2 & 16 && flags
        & 64 == flags2 & 64 && flags & 0x100 == flags2 & 0x100 && flags >> 16 == flags2 >> 16
        && flags >> 31 == flags2 >> 31 && target & !15u32 == target2 & !15u32 && target & !255u32
        == target2 & !255u32 && (flags2 & 8 == 0 ==> flags == flags2) && (target & !15u32) % 16
        == 0) by (bit_vector)
        requires
            flags2 == flags || flags2 == flags | 8,
            target2 == target || target2 == target | 8,
    ;
}

/// An aligned long word that differs at most by U bits in memory does so in value.
pub proof fn lemma_alike_long<M>(
    region: spec_fn(u32) -> bool,
    byte: spec_fn(M, u32) -> u8,
    first: M,
    other: M,
    address: u32,
)
    requires
        memory_alike(region, byte, first, other),
        long_in(region, address),
        address % 4 == 0,
    ensures
        used_alike(long_of(byte, first, address), long_of(byte, other, address)),
{
    assert(byte(other, address) == byte(first, address));
    let a1 = address.wrapping_add(1);
    let a2 = address.wrapping_add(2);
    let a3 = address.wrapping_add(3);
    assert(byte(other, a1) == byte(first, a1));
    assert(byte(other, a2) == byte(first, a2));
    assert(byte(other, a3) == byte(first, a3) || byte(other, a3) == byte(first, a3) | 8);
    lemma_used_byte(byte(first, address), byte(first, a1), byte(first, a2), byte(first, a3));
}

/// Marking an unmarked descriptor keeps memory alike.
proof fn lemma_mark_keeps_alike<M>(
    region: spec_fn(u32) -> bool,
    byte: spec_fn(M, u32) -> u8,
    first: M,
    before: M,
    after: M,
    address: u32,
)
    requires
        memory_alike(region, byte, first, before),
        address % 4 == 0,
        long_settled(region, byte, before, after, address, long_of(byte, first, address) | 8),
    ensures
        memory_alike(region, byte, first, after),
{
    lemma_used_byte(
        byte(first, address),
        byte(first, address.wrapping_add(1)),
        byte(first, address.wrapping_add(2)),
        byte(first, address.wrapping_add(3)),
    );
    assert forall|at: u32|
        #![trigger byte(after, at)]
        region(at) implies byte(after, at) == byte(first, at) || at % 4 == 3 && byte(after, at)
        == byte(first, at) | 8 by {
        let _ = byte(before, at);
    }
}

/// What inspection sees of a long word is what memory holds.
pub proof fn lemma_inspected_long<B: Bus>(
    region: spec_fn(u32) -> bool,
    plain: spec_fn(B::Model) -> bool,
    byte: spec_fn(B::Model, u32) -> u8,
    machine: B::Model,
    address: u32,
)
    requires
        plain_memory::<B>(region, plain, byte),
        plain(machine),
        long_in(region, address),
    ensures
        inspected_long::<B>(machine, address) matches Ok(word) ==> word == long_of(
            byte,
            machine,
            address,
        ),
{
    let _ = B::byte_inspected(machine, address);
    let _ = B::byte_inspected(machine, address.wrapping_add(1));
    let _ = B::byte_inspected(machine, address.wrapping_add(2));
    let _ = B::byte_inspected(machine, address.wrapping_add(3));
}

/// Table entries are aligned long words.
pub proof fn lemma_entry_aligned(search: Search, index: u32)
    requires
        search.table % 16 == 0,
    ensures
        entry_address(search, index) % 4 == 0,
        entry_address(search, index).wrapping_add(4) % 4 == 0,
{
    let offset = (index * (if search.long {
        8int
    } else {
        4int
    })) as u32;
    let product = index * (if search.long {
        8int
    } else {
        4int
    });
    assert(offset % 4 == 0) by {
        if search.long {
            assert((index * 8) as u32 % 4 == 0) by (bit_vector);
        } else {
            assert((index * 4) as u32 % 4 == 0) by (bit_vector);
        }
    }
}

/// The first table is aligned.
pub proof fn lemma_root_aligned(root: RootPointerReg)
    ensures
        (root.table_addr() << 4) % 16 == 0,
{
    let field = root.table_addr();
    assert((field << 4) % 16 == 0) by (bit_vector);
}

/// Two readings of descriptors that differ at most in U bits.
pub proof fn lemma_decoded_alike(
    level: u8,
    source: DescriptorIndex,
    index: u32,
    address: u32,
    long: bool,
    words: Seq<u32>,
    other: Seq<u32>,
    limit: Option<IndexLimit>,
)
    requires
        words.len() == other.len() >= 1,
        used_alike(words[0], other[0]),
        used_alike(words.last(), other.last()),
    ensures
        step_alike(
            decoded(level, source, index, address, long, words, limit),
            decoded(level, source, index, address, long, other, limit),
        ),
        words.last() & !15u32 == other.last() & !15u32,
        words.last() & !255u32 == other.last() & !255u32,
        (words.last() & !15u32) % 16 == 0,
        other[0] & 8 == 0 ==> words[0] == other[0],
{
    lemma_used_bit_is_ignored(words[0], other[0], words.last(), other.last());
}

impl<
    TBus: Bus,
    const ADDRESS_MASK: u32,
    const CPU_TYPE: usize,
    const FPU_TYPE: usize,
    const PMMU: bool,
> CpuM68k<TBus, ADDRESS_MASK, CPU_TYPE, FPU_TYPE, PMMU> {
    /// Inspection and execution find the same way through the tables.
    pub proof fn lemma_searches_alike(
        region: spec_fn(u32) -> bool,
        writable: spec_fn(u32) -> bool,
        plain: spec_fn(TBus::Model) -> bool,
        byte: spec_fn(TBus::Model, u32) -> u8,
        machine: TBus::Model,
        cpu: CpuModel<TBus::Model>,
        tc: TcReg,
        logical: u32,
        fc: u8,
        done: nat,
        first: Search,
        other: Search,
    )
        requires
            plain_memory::<TBus>(region, plain, byte),
            writes_complete::<TBus>(region, writable, plain, byte),
            plain(machine),
            plain(cpu.bus),
            memory_alike(region, byte, machine, cpu.bus),
            searches_alike(first, other),
            first.table % 16 == 0,
            ({
                let steps = searched::<InspectionMemory<'static, TBus>>(
                    machine,
                    tc,
                    logical,
                    fc,
                    done,
                    first,
                ).0.descriptors;
                &&& steps_in(region, steps)
                &&& cpu.walk_mutate ==> unused_in(writable, steps)
            }),
            searched::<InspectionMemory<'static, TBus>>(
                machine,
                tc,
                logical,
                fc,
                done,
                first,
            ).0.failure matches Some(failure) ==> !(failure.kind is UnreadableDescriptor),
        ensures
            ({
                let inspection = searched::<InspectionMemory<'static, TBus>>(
                    machine,
                    tc,
                    logical,
                    fc,
                    done,
                    first,
                ).0;
                let (execution, after) = searched::<Self>(cpu, tc, logical, fc, done, other);
                &&& walks_alike(inspection, execution)
                &&& plain(after.bus)
                &&& memory_alike(region, byte, machine, after.bus)
                &&& after.walk_error == cpu.walk_error
            }),
        decreases 5 - done,
    {
        let fields = index_fields(tc);
        if done < fields.len() && done < 5 {
            let (source, bits) = fields[done as int];
            let level = (done + 1) as u8;
            let index = descriptor_index(source, bits, first.consumed, logical, fc);
            let address = entry_address(first, index);
            lemma_entry_aligned(first, index);
            let (inspected, _) = descriptor_read::<InspectionMemory<'_, TBus>>(
                machine,
                address,
                first.long,
            );
            let (executed, after) = descriptor_read::<Self>(
                Self::selected(cpu, address),
                address,
                first.long,
            );
            assert(other.consumed == first.consumed);
            let reached = (bits != 0 || source is FunctionCode) && within_limit(first.limit, index);
            if reached && inspected is Ok {
                let words = inspected->Ok_0;
                let step = decoded(level, source, index, address, first.long, words, first.limit);
                let found = searched::<InspectionMemory<'_, TBus>>(
                    machine,
                    tc,
                    logical,
                    fc,
                    done,
                    first,
                ).0.descriptors;
                Self::lemma_step_is_found(machine, tc, logical, fc, done, first, words);
                assert(found[first.steps.len() as int] == step);
                lemma_inspected_long::<TBus>(region, plain, byte, machine, address);
                lemma_alike_long(region, byte, machine, cpu.bus, address);
                let read1 = TBus::long_read(cpu.bus, address).1;
                assert(memory_alike(region, byte, machine, read1));
                if first.long {
                    let second = address.wrapping_add(4);
                    lemma_inspected_long::<TBus>(region, plain, byte, machine, second);
                    lemma_alike_long(region, byte, machine, read1, second);
                    let read2 = TBus::long_read(read1, second).1;
                    assert(memory_alike(region, byte, machine, read2));
                }
                assert(executed is Ok);
                let others = executed->Ok_0;
                let step2 = decoded(level, source, index, address, first.long, others, first.limit);
                lemma_decoded_alike(
                    level,
                    source,
                    index,
                    address,
                    first.long,
                    words,
                    others,
                    first.limit,
                );
                assert(steps_alike(first.steps.push(step), other.steps.push(step2)));
                let (marked, marked_cpu) = Self::used_marked(after, address, others[0]);
                if step.descriptor_type != 0 && !step2.used && after.walk_mutate {
                    assert(others[0] == long_of(byte, machine, address));
                    let written = TBus::long_written(after.bus, address, others[0] | 8).1;
                    lemma_mark_keeps_alike(region, byte, machine, after.bus, written, address);
                }
                let next = if step2.used {
                    after
                } else {
                    marked_cpu
                };
                if step.descriptor_type == 2 || step.descriptor_type == 3 {
                    assert(plain(next.bus) && memory_alike(region, byte, machine, next.bus));
                    Self::lemma_searches_alike(
                        region,
                        writable,
                        plain,
                        byte,
                        machine,
                        next,
                        tc,
                        logical,
                        fc,
                        done + 1,
                        descended(first, bits, step),
                        descended(other, bits, step2),
                    );
                }
            }
        }
    }

    /// The descriptor that an inspecting search reads is among those that it finds.
    pub proof fn lemma_step_is_found(
        machine: TBus::Model,
        tc: TcReg,
        logical: u32,
        fc: u8,
        done: nat,
        search: Search,
        words: Seq<u32>,
    )
        requires
            done < index_fields(tc).len(),
            done < 5,
            ({
                let (source, bits) = index_fields(tc)[done as int];
                let index = descriptor_index(source, bits, search.consumed, logical, fc);
                &&& bits != 0 || source is FunctionCode
                &&& within_limit(search.limit, index)
                &&& descriptor_read::<InspectionMemory<'static, TBus>>(
                    machine,
                    entry_address(search, index),
                    search.long,
                ).0 == Ok::<Seq<u32>, FailureModel>(words)
            }),
        ensures
            ({
                let (source, bits) = index_fields(tc)[done as int];
                let index = descriptor_index(source, bits, search.consumed, logical, fc);
                let found = searched::<InspectionMemory<'static, TBus>>(
                    machine,
                    tc,
                    logical,
                    fc,
                    done,
                    search,
                ).0.descriptors;
                &&& found.len() > search.steps.len()
                &&& found[search.steps.len() as int] == decoded(
                    (done + 1) as u8,
                    source,
                    index,
                    entry_address(search, index),
                    search.long,
                    words,
                    search.limit,
                )
            }),
    {
        let (source, bits) = index_fields(tc)[done as int];
        let index = descriptor_index(source, bits, search.consumed, logical, fc);
        let address = entry_address(search, index);
        let step = decoded(
            (done + 1) as u8,
            source,
            index,
            address,
            search.long,
            words,
            search.limit,
        );
        let below = descended(search, bits, step);
        lemma_steps_grow::<InspectionMemory<'_, TBus>>(
            machine,
            tc,
            logical,
            fc,
            done + 1,
            below,
        );
        assert(below.steps[search.steps.len() as int] == step);
    }

    /// Inspection and execution walk the tables alike, whether or not execution sets U bits, where
    /// the descriptors of the walk lie in plain memory. If execution sets U bits, the descriptors
    /// that lack theirs have to take the write, even if they ignore it.
    pub proof fn law_walks_alike(
        region: spec_fn(u32) -> bool,
        writable: spec_fn(u32) -> bool,
        plain: spec_fn(TBus::Model) -> bool,
        byte: spec_fn(TBus::Model, u32) -> u8,
        cpu: CpuModel<TBus::Model>,
        tc: TcReg,
        root: RootPointerReg,
        logical: u32,
        fc: u8,
    )
        requires
            plain_memory::<TBus>(region, plain, byte),
            writes_complete::<TBus>(region, writable, plain, byte),
            plain(cpu.bus),
            ({
                let steps = walked::<InspectionMemory<'static, TBus>>(
                    cpu.bus,
                    tc,
                    root,
                    logical,
                    fc,
                ).0.descriptors;
                &&& steps_in(region, steps)
                &&& cpu.walk_mutate ==> unused_in(writable, steps)
            }),
            walked::<InspectionMemory<'static, TBus>>(
                cpu.bus,
                tc,
                root,
                logical,
                fc,
            ).0.failure matches Some(failure) ==> !(failure.kind is UnreadableDescriptor),
        ensures
            ({
                let inspection = walked::<InspectionMemory<'static, TBus>>(
                    cpu.bus,
                    tc,
                    root,
                    logical,
                    fc,
                ).0;
                let (execution, after) = walked::<Self>(cpu, tc, root, logical, fc);
                &&& walks_alike(inspection, execution)
                &&& plain(after.bus)
                &&& memory_alike(region, byte, cpu.bus, after.bus)
                &&& after.walk_error == cpu.walk_error
            }),
    {
        let start = search_start(tc, root);
        lemma_root_aligned(root);
        assert(steps_alike(start.steps, start.steps));
        if geometry(tc) == 32 && (root.dt() is Valid4b || root.dt() is Valid8b) {
            Self::lemma_searches_alike(
                region,
                writable,
                plain,
                byte,
                cpu.bus,
                cpu,
                tc,
                logical,
                fc,
                0,
                start,
                start,
            );
        }
    }

    /// Whether what translating an access reads lies in a region, and what it writes lies in a part
    /// of it: the descriptors of the search, if the cache does not answer, and those that inspection
    /// lists an effect on.
    pub open spec fn descriptors_lie_in(
        region: spec_fn(u32) -> bool,
        writable: spec_fn(u32) -> bool,
        cpu: CpuModel<TBus::Model>,
        query: TranslationQuery,
    ) -> bool {
        let prediction = Self::inspected(cpu, query)->Ok_0;
        &&& paged(PMMU, cpu, query.function_code, query.address, query.writing) && cache_hit(
            cpu,
            query.function_code,
            query.address,
        ) is None ==> steps_in(region, prediction.tables->0.descriptors)
        &&& effects_in(region, prediction.descriptor_effects)
        &&& effects_in(writable, prediction.descriptor_effects)
    }

    /// What inspection predicts of an access is what translating it does: an allowed access gets
    /// the predicted physical address, and a rejected one fails the predicted way. Only the
    /// descriptors that the access takes have to lie in plain memory, and only those that it marks
    /// have to take the write, even if they ignore it.
    pub proof fn law_inspection_predicts_translation(
        region: spec_fn(u32) -> bool,
        writable: spec_fn(u32) -> bool,
        plain: spec_fn(TBus::Model) -> bool,
        byte: spec_fn(TBus::Model, u32) -> u8,
        cpu: CpuModel<TBus::Model>,
        query: TranslationQuery,
    )
        requires
            plain_memory::<TBus>(region, plain, byte),
            writes_complete::<TBus>(region, writable, plain, byte),
            plain(cpu.bus),
            Self::descriptors_lie_in(region, writable, cpu, query),
            cpu.atc.len() == 2,
            query.function_code <= 7,
            query.mode is CacheAware,
            paged(PMMU, cpu, query.function_code, query.address, query.writing) ==> geometry(
                cpu.regs.pmmu.tc,
            ) == 32 && page_number(cpu.regs.pmmu.tc, query.address) < cpu.atc[cache_bank(
                cpu.regs.pmmu,
                query.function_code,
            )].len(),
            Self::inspected(cpu, query)->Ok_0.failure matches Some(failure) ==> !(
            failure.kind is UnreadableDescriptor),
        ensures
            ({
                let prediction = Self::inspected(cpu, query)->Ok_0;
                let outcome = Self::translated(
                    cpu,
                    query.function_code,
                    query.address,
                    query.writing,
                ).0;
                &&& Self::inspected(cpu, query) is Ok
                &&& prediction.failure is None <==> prediction.physical_address is Some
                &&& match prediction.failure {
                    None => outcome == Ok::<u32, CpuErrorModel>(prediction.physical_address->0),
                    Some(failure) => outcome == Err::<u32, CpuErrorModel>(
                        if fault_cause(failure.kind) is Some {
                            CpuErrorModel::BusError(
                                pagefault_frame(
                                    query.function_code,
                                    query.address,
                                    query.writing,
                                ),
                            )
                        } else {
                            CpuErrorModel::Walk(failure.detail)
                        },
                    ),
                }
            }),
    {
        let fc = query.function_code;
        let regs = cpu.regs.pmmu;
        if paged(PMMU, cpu, fc, query.address, query.writing) {
            let root = root_pointer(regs, fc);
            let inspection = walked::<InspectionMemory<'_, TBus>>(
                cpu.bus,
                regs.tc,
                root,
                query.address,
                fc,
            ).0;
            law_walk_resolves_or_fails::<InspectionMemory<'_, TBus>>(
                cpu.bus,
                regs.tc,
                root,
                query.address,
                fc,
            );
            if cache_hit(cpu, fc, query.address) is None {
                let start = Self::lookup_start(cpu, false);
                Self::lemma_walk_marks_in(writable, cpu, query);
                Self::law_walks_alike(
                    region,
                    writable,
                    plain,
                    byte,
                    start,
                    regs.tc,
                    root,
                    query.address,
                    fc,
                );
                let (execution, after) = walked::<Self>(start, regs.tc, root, query.address, fc);
                if let Some(page) = execution.resolved {
                    let effects = Self::inspected(cpu, query)->Ok_0.descriptor_effects;
                    if protection_failure(page, fc, query.writing) is None && query.writing
                        && !page.modified {
                        assert(effects.last() == effects[effects.len() - 1]);
                    }
                    let (word, read) = TBus::long_read(after.bus, page.leaf_address);
                    let _ = TBus::long_written(read, page.leaf_address, word->Ok_0 | 16);
                }
                Self::lemma_walk_failures_have_no_protection_kind(
                    cpu.bus,
                    regs.tc,
                    root,
                    query.address,
                    fc,
                );
            } else {
                let entry = cache_hit(cpu, fc, query.address)->0;
                let effects = Self::inspected(cpu, query)->Ok_0.descriptor_effects;
                if effects.len() > 0 {
                    assert(effects[0].address == entry.leaf_desc_addr);
                }
                let (word, read) = TBus::long_read(cpu.bus, entry.leaf_desc_addr);
                let _ = TBus::long_written(read, entry.leaf_desc_addr, word->Ok_0 | 16);
            }
        }
    }

    /// The descriptors that the search of an access marks lie where its effects do.
    pub proof fn lemma_walk_marks_in(
        writable: spec_fn(u32) -> bool,
        cpu: CpuModel<TBus::Model>,
        query: TranslationQuery,
    )
        requires
            query.function_code <= 7,
            query.mode is CacheAware,
            paged(PMMU, cpu, query.function_code, query.address, query.writing),
            geometry(cpu.regs.pmmu.tc) == 32,
            cpu.atc.len() == 2,
            page_number(cpu.regs.pmmu.tc, query.address) < cpu.atc[cache_bank(
                cpu.regs.pmmu,
                query.function_code,
            )].len(),
            cache_hit(cpu, query.function_code, query.address) is None,
            effects_in(writable, Self::inspected(cpu, query)->Ok_0.descriptor_effects),
        ensures
            unused_in(
                writable,
                walked::<InspectionMemory<'static, TBus>>(
                    cpu.bus,
                    cpu.regs.pmmu.tc,
                    root_pointer(cpu.regs.pmmu, query.function_code),
                    query.address,
                    query.function_code,
                ).0.descriptors,
            ),
    {
        let steps = walked::<InspectionMemory<'_, TBus>>(
            cpu.bus,
            cpu.regs.pmmu.tc,
            root_pointer(cpu.regs.pmmu, query.function_code),
            query.address,
            query.function_code,
        ).0.descriptors;
        let effects = Self::inspected(cpu, query)->Ok_0.descriptor_effects;
        let used = used_effects(steps);
        assert forall|i: int| 0 <= i < used.len() implies long_in(
            writable,
            (#[trigger] used[i]).address,
        ) by {
            assert(effects[i] == used[i]);
        }
        lemma_unused_in(writable, steps);
    }

    /// An inspecting search itself never fails for protection or for an update.
    proof fn lemma_walk_failures_have_no_protection_kind(
        machine: TBus::Model,
        tc: TcReg,
        root: RootPointerReg,
        logical: u32,
        fc: u8,
    )
        ensures
            walked::<InspectionMemory<'static, TBus>>(
                machine,
                tc,
                root,
                logical,
                fc,
            ).0.failure matches Some(failure) ==> !(failure.kind is SupervisorOnly
                || failure.kind is WriteProtected || failure.kind is DescriptorUpdate),
    {
        Self::lemma_search_failure_kinds(machine, tc, logical, fc, 0, search_start(tc, root));
    }

    /// An inspecting search from any level never fails for protection or for an update.
    proof fn lemma_search_failure_kinds(
        machine: TBus::Model,
        tc: TcReg,
        logical: u32,
        fc: u8,
        done: nat,
        search: Search,
    )
        ensures
            searched::<InspectionMemory<'static, TBus>>(
                machine,
                tc,
                logical,
                fc,
                done,
                search,
            ).0.failure matches Some(failure) ==> !(failure.kind is SupervisorOnly
                || failure.kind is WriteProtected || failure.kind is DescriptorUpdate),
        decreases 5 - done,
    {
        let fields = index_fields(tc);
        if done < fields.len() && done < 5 {
            let (source, bits) = fields[done as int];
            let index = descriptor_index(source, bits, search.consumed, logical, fc);
            let address = entry_address(search, index);
            let (read, _) = descriptor_read::<InspectionMemory<'_, TBus>>(
                machine,
                address,
                search.long,
            );
            if let Ok(words) = read {
                let step = decoded(
                    (done + 1) as u8,
                    source,
                    index,
                    address,
                    search.long,
                    words,
                    search.limit,
                );
                Self::lemma_search_failure_kinds(
                    machine,
                    tc,
                    logical,
                    fc,
                    done + 1,
                    descended(search, bits, step),
                );
            }
        }
    }
}

} // verus!
