//! Inspection lists exactly the U and M bits that translation sets, on every machine where the
//! descriptors of the search lie in plain memory and those that are marked store their marks.

use vstd::prelude::*;

use crate::bus::Bus;
use crate::cpu_m68k::cpu::{CpuM68k, CpuModel};
use crate::cpu_m68k::pmmu::inspect::{
    used_effects, DescriptorEffect, InspectionMemory, TranslationQuery,
};
use crate::cpu_m68k::pmmu::prediction::{
    lemma_alike_long, lemma_decoded_alike, lemma_entry_aligned, lemma_inspected_long, lemma_root_aligned,
    long_in, long_of, long_stored, memory_alike, plain_memory, searches_alike, steps_alike,
    steps_in, unused_in, writes_complete, writes_store,
};
use crate::cpu_m68k::pmmu::regs::TcReg;
use crate::cpu_m68k::pmmu::translate::{cache_bank, cache_hit, page_number, paged, root_pointer};
use crate::cpu_m68k::pmmu::walk::{
    decoded, descended, descriptor_index, descriptor_read, entry_address, geometry, index_fields,
    law_walk_resolves_or_fails, search_start, searched, walked, within_limit, Search, StepModel,
    WalkMemory,
};
use crate::util::bytes::{long_byte0, long_byte1, long_byte2, long_byte3, long_from_bytes};

verus! {

/// The bits that a list of effects sets in the byte at an address.
pub open spec fn effect_bits(effects: Seq<DescriptorEffect>, at: u32) -> u8
    decreases effects.len(),
{
    if effects.len() == 0 {
        0
    } else {
        let before = effect_bits(effects.drop_last(), at);
        if effects.last().address.wrapping_add(3) == at {
            before | (effects.last().set_bits as u8)
        } else {
            before
        }
    }
}

/// Whether memory in a region is another with a list of effects applied.
pub open spec fn effects_applied<M>(
    region: spec_fn(u32) -> bool,
    byte: spec_fn(M, u32) -> u8,
    before: M,
    after: M,
    effects: Seq<DescriptorEffect>,
) -> bool {
    forall|at: u32|
        #![trigger byte(after, at)]
        region(at) ==> byte(after, at) == byte(before, at) | effect_bits(effects, at)
}

/// Whether steps say of their U bits what memory says, at aligned addresses.
spec fn steps_faithful<M>(byte: spec_fn(M, u32) -> u8, machine: M, steps: Seq<StepModel>) -> bool {
    forall|i: int|
        0 <= i < steps.len() ==> (#[trigger] steps[i]).address % 4 == 0 && steps[i].used == (byte(
            machine,
            steps[i].address.wrapping_add(3),
        ) & 8 != 0)
}

/// The bits of used effects are U bits.
proof fn lemma_used_effect_bits(steps: Seq<StepModel>, at: u32)
    ensures
        effect_bits(used_effects(steps), at) == 0 || effect_bits(used_effects(steps), at) == 8,
    decreases steps.len(),
{
    if steps.len() > 0 {
        lemma_used_effect_bits(steps.drop_last(), at);
        let before = used_effects(steps.drop_last());
        let effects = used_effects(steps);
        if effects.len() > before.len() {
            assert(effects.drop_last() =~= before);
        }
        assert(0u8 | 8u8 == 8u8 && 8u8 | 8u8 == 8u8) by (bit_vector);
    }
}

/// The bits of used effects fall on the last bytes of the steps' descriptors.
proof fn lemma_used_effect_places(steps: Seq<StepModel>, at: u32)
    requires
        forall|i: int| 0 <= i < steps.len() ==> (#[trigger] steps[i]).address % 4 == 0,
    ensures
        at % 4 != 3 ==> effect_bits(used_effects(steps), at) == 0,
    decreases steps.len(),
{
    if steps.len() > 0 {
        let shorter = steps.drop_last();
        assert forall|i: int| 0 <= i < shorter.len() implies (#[trigger] shorter[i]).address % 4
            == 0 by {
            assert(shorter[i] == steps[i]);
        }
        lemma_used_effect_places(shorter, at);
        assert(steps.last() == steps[steps.len() - 1]);
        let before = used_effects(shorter);
        let effects = used_effects(steps);
        if effects.len() > before.len() {
            assert(effects.drop_last() =~= before);
        }
    }
}

/// Setting no bits changes nothing, and setting a bit twice is setting it once.
proof fn lemma_or_facts(b: u8)
    ensures
        b | 0 == b,
        (b | 8) | 8 == b | 8,
        b & 8 != 0 ==> b | 8 == b,
        0u8 | 8u8 == 8u8,
        8u8 | 8u8 == 8u8,
        0u8 | 16u8 == 16u8,
        b | (8u8 | 16u8) == (b | 8) | 16,
        (b | 8) | 16 == (b | 16) | 8,
{
    assert(b | 0 == b && (b | 8) | 8 == b | 8 && (b & 8 != 0 ==> b | 8 == b) && 0u8 | 8u8 == 8u8
        && 8u8 | 8u8 == 8u8 && 0u8 | 16u8 == 16u8 && b | (8u8 | 16u8) == (b | 8) | 16 && (b | 8) | 16
        == (b | 16) | 8) by (bit_vector);
}

/// Effects on aligned descriptors leave memory alike.
proof fn lemma_effects_alike<M>(
    region: spec_fn(u32) -> bool,
    byte: spec_fn(M, u32) -> u8,
    first: M,
    other: M,
    steps: Seq<StepModel>,
)
    requires
        steps_faithful(byte, first, steps),
        effects_applied(region, byte, first, other, used_effects(steps)),
    ensures
        memory_alike(region, byte, first, other),
{
    assert forall|at: u32|
        #![trigger byte(other, at)]
        region(at) implies byte(other, at) == byte(first, at) || at % 4 == 3 && byte(other, at)
        == byte(first, at) | 8 by {
        lemma_used_effect_bits(steps, at);
        lemma_used_effect_places(steps, at);
        lemma_or_facts(byte(first, at));
    }
}

/// The U and M bits of a word are in its last byte.
proof fn lemma_used_flag(b0: u8, b1: u8, b2: u8, b3: u8)
    ensures
        (long_from_bytes(b0, b1, b2, b3) & 8 != 0) == (b3 & 8 != 0),
        long_byte0(long_from_bytes(b0, b1, b2, b3) | 8) == b0,
        long_byte1(long_from_bytes(b0, b1, b2, b3) | 8) == b1,
        long_byte2(long_from_bytes(b0, b1, b2, b3) | 8) == b2,
        long_byte3(long_from_bytes(b0, b1, b2, b3) | 8) == b3 | 8,
        long_byte0(long_from_bytes(b0, b1, b2, b3) | 16) == b0,
        long_byte1(long_from_bytes(b0, b1, b2, b3) | 16) == b1,
        long_byte2(long_from_bytes(b0, b1, b2, b3) | 16) == b2,
        long_byte3(long_from_bytes(b0, b1, b2, b3) | 16) == b3 | 16,
{
    let word = long_from_bytes(b0, b1, b2, b3);
    assert((word & 8 != 0) == (b3 & 8 != 0) && (((word | 8) >> 24) & 0xFF) as u8 == b0 && (((word
        | 8) >> 16) & 0xFF) as u8 == b1 && (((word | 8) >> 8) & 0xFF) as u8 == b2 && ((word | 8)
        & 0xFF) as u8 == b3 | 8 && (((word | 16) >> 24) & 0xFF) as u8 == b0 && (((word | 16) >> 16)
        & 0xFF) as u8 == b1 && (((word | 16) >> 8) & 0xFF) as u8 == b2 && ((word | 16) & 0xFF) as u8
        == b3 | 16) by (bit_vector)
        requires
            word == ((b0 as u32) << 24) | ((b1 as u32) << 16) | ((b2 as u32) << 8) | (b3 as u32),
    ;
}

/// One more valid step adds its U bit to the effects, unless memory already has it.
proof fn lemma_effects_push<M>(
    region: spec_fn(u32) -> bool,
    byte: spec_fn(M, u32) -> u8,
    first: M,
    before: M,
    after: M,
    steps: Seq<StepModel>,
    step: StepModel,
)
    requires
        steps_faithful(byte, first, steps),
        effects_applied(region, byte, first, before, used_effects(steps)),
        long_in(region, step.address),
        step.descriptor_type != 0,
        step.address % 4 == 0,
        step.used == (byte(first, step.address.wrapping_add(3)) & 8 != 0),
        ({
            let a3 = step.address.wrapping_add(3);
            if byte(before, a3) & 8 != 0 {
                forall|at: u32| region(at) ==> #[trigger] byte(after, at) == byte(before, at)
            } else {
                long_stored(
                    region,
                    byte,
                    before,
                    after,
                    step.address,
                    long_of(byte, first, step.address) | 8,
                )
            }
        }),
    ensures
        steps_faithful(byte, first, steps.push(step)),
        effects_applied(region, byte, first, after, used_effects(steps.push(step))),
{
    let longer = steps.push(step);
    let a3 = step.address.wrapping_add(3);
    assert(longer.drop_last() =~= steps);
    let old_effects = used_effects(steps);
    let effects = used_effects(longer);
    if !step.used {
        assert(effects.drop_last() =~= old_effects);
        assert(effects.last() == (DescriptorEffect { address: step.address, set_bits: 8 }));
    }
    lemma_used_flag(
        byte(first, step.address),
        byte(first, step.address.wrapping_add(1)),
        byte(first, step.address.wrapping_add(2)),
        byte(first, a3),
    );
    assert(8u32 as u8 == 8u8);
    assert forall|at: u32|
        #![trigger byte(after, at)]
        region(at) implies byte(after, at) == byte(first, at) | effect_bits(effects, at) by {
        lemma_used_effect_bits(steps, at);
        lemma_used_effect_bits(steps, a3);
        lemma_used_effect_places(steps, at);
        lemma_or_facts(byte(first, at));
        lemma_or_facts(byte(first, a3));
        let _ = byte(before, at);
        let _ = byte(before, a3);
        assert((byte(first, a3) | 8) & 8 != 0) by {
            let b = byte(first, a3);
            assert((b | 8) & 8 != 0) by (bit_vector);
        }
    }
}

impl<
    TBus: Bus,
    const ADDRESS_MASK: u32,
    const CPU_TYPE: usize,
    const FPU_TYPE: usize,
    const PMMU: bool,
> CpuM68k<TBus, ADDRESS_MASK, CPU_TYPE, FPU_TYPE, PMMU> {
    /// An executing search sets the U bits that inspection lists.
    proof fn lemma_search_effects(
        region: spec_fn(u32) -> bool,
        writable: spec_fn(u32) -> bool,
        plain: spec_fn(TBus::Model) -> bool,
        byte: spec_fn(TBus::Model, u32) -> u8,
        machine: TBus::Model,
        cpu: CpuModel<TBus::Model>,
        tc: TcReg,
        logical: u32,
        fc: u8,
        done: nat,
        first: Search,
        other: Search,
    )
        requires
            plain_memory::<TBus>(region, plain, byte),
            writes_store::<TBus>(region, writable, plain, byte),
            plain(machine),
            plain(cpu.bus),
            cpu.walk_mutate,
            ({
                let steps = searched::<InspectionMemory<'static, TBus>>(
                    machine,
                    tc,
                    logical,
                    fc,
                    done,
                    first,
                ).0.descriptors;
                &&& steps_in(region, steps)
                &&& unused_in(writable, steps)
            }),
            searches_alike(first, other),
            first.table % 16 == 0,
            steps_faithful(byte, machine, first.steps),
            effects_applied(region, byte, machine, cpu.bus, used_effects(first.steps)),
            searched::<InspectionMemory<'static, TBus>>(
                machine,
                tc,
                logical,
                fc,
                done,
                first,
            ).0.failure matches Some(failure) ==> !(failure.kind is UnreadableDescriptor),
        ensures
            effects_applied(
                region,
                byte,
                machine,
                searched::<Self>(cpu, tc, logical, fc, done, other).1.bus,
                used_effects(
                    searched::<InspectionMemory<'static, TBus>>(
                        machine,
                        tc,
                        logical,
                        fc,
                        done,
                        first,
                    ).0.descriptors,
                ),
            ),
        decreases 5 - done,
    {
        let fields = index_fields(tc);
        if done < fields.len() && done < 5 {
            let (source, bits) = fields[done as int];
            let level = (done + 1) as u8;
            let index = descriptor_index(source, bits, first.consumed, logical, fc);
            let address = entry_address(first, index);
            lemma_entry_aligned(first, index);
            lemma_effects_alike(region, byte, machine, cpu.bus, first.steps);
            let (inspected, _) = descriptor_read::<InspectionMemory<'_, TBus>>(
                machine,
                address,
                first.long,
            );
            let (executed, after) = descriptor_read::<Self>(
                Self::selected(cpu, address),
                address,
                first.long,
            );
            assert(other.consumed == first.consumed);
            let reached = (bits != 0 || source is FunctionCode) && within_limit(first.limit, index);
            if reached && inspected is Ok {
                let words = inspected->Ok_0;
                let step = decoded(level, source, index, address, first.long, words, first.limit);
                let found = searched::<InspectionMemory<'_, TBus>>(
                    machine,
                    tc,
                    logical,
                    fc,
                    done,
                    first,
                ).0.descriptors;
                Self::lemma_step_is_found(machine, tc, logical, fc, done, first, words);
                assert(found[first.steps.len() as int] == step);
                lemma_inspected_long::<TBus>(region, plain, byte, machine, address);
                lemma_alike_long(region, byte, machine, cpu.bus, address);
                let read1 = TBus::long_read(cpu.bus, address).1;
                assert(memory_alike(region, byte, machine, read1));
                if first.long {
                    let second = address.wrapping_add(4);
                    lemma_inspected_long::<TBus>(region, plain, byte, machine, second);
                    lemma_alike_long(region, byte, machine, read1, second);
                    let read2 = TBus::long_read(read1, second).1;
                    assert(memory_alike(region, byte, machine, read2));
                }
                assert(effects_applied(region, byte, machine, after.bus, used_effects(first.steps)));
                let others = executed->Ok_0;
                let step2 = decoded(level, source, index, address, first.long, others, first.limit);
                lemma_decoded_alike(
                    level,
                    source,
                    index,
                    address,
                    first.long,
                    words,
                    others,
                    first.limit,
                );
                assert(first.steps.push(step).drop_last() =~= first.steps);
                if step.descriptor_type != 0 {
                    let a3 = address.wrapping_add(3);
                    lemma_used_flag(
                        byte(machine, address),
                        byte(machine, address.wrapping_add(1)),
                        byte(machine, address.wrapping_add(2)),
                        byte(machine, a3),
                    );
                    lemma_used_flag(
                        byte(cpu.bus, address),
                        byte(cpu.bus, address.wrapping_add(1)),
                        byte(cpu.bus, address.wrapping_add(2)),
                        byte(cpu.bus, a3),
                    );
                    assert(byte(after.bus, a3) == byte(cpu.bus, a3));
                    let (marked, marked_cpu) = Self::used_marked(after, address, others[0]);
                    let next = if step2.used {
                        after
                    } else {
                        marked_cpu
                    };
                    let _ = TBus::long_written(after.bus, address, others[0] | 8);
                    lemma_effects_push(
                        region,
                        byte,
                        machine,
                        after.bus,
                        next.bus,
                        first.steps,
                        step,
                    );
                    assert(steps_alike(first.steps.push(step), other.steps.push(step2)));
                    if step.descriptor_type == 2 || step.descriptor_type == 3 {
                        Self::lemma_search_effects(
                            region,
                            writable,
                            plain,
                            byte,
                            machine,
                            next,
                            tc,
                            logical,
                            fc,
                            done + 1,
                            descended(first, bits, step),
                            descended(other, bits, step2),
                        );
                    }
                }
            }
        }
    }

    /// The descriptor bits that inspection lists are the ones that translating the access sets,
    /// and translating it changes nothing else in plain memory. Only the descriptors that the access
    /// takes have to lie there, and only those that it marks have to store.
    pub proof fn law_inspection_lists_descriptor_effects(
        region: spec_fn(u32) -> bool,
        writable: spec_fn(u32) -> bool,
        plain: spec_fn(TBus::Model) -> bool,
        byte: spec_fn(TBus::Model, u32) -> u8,
        cpu: CpuModel<TBus::Model>,
        query: TranslationQuery,
    )
        requires
            plain_memory::<TBus>(region, plain, byte),
            writes_store::<TBus>(region, writable, plain, byte),
            plain(cpu.bus),
            Self::descriptors_lie_in(region, writable, cpu, query),
            cpu.atc.len() == 2,
            query.function_code <= 7,
            query.mode is CacheAware,
            paged(PMMU, cpu, query.function_code, query.address, query.writing) ==> geometry(
                cpu.regs.pmmu.tc,
            ) == 32 && page_number(cpu.regs.pmmu.tc, query.address) < cpu.atc[cache_bank(
                cpu.regs.pmmu,
                query.function_code,
            )].len(),
            Self::inspected(cpu, query)->Ok_0.failure matches Some(failure) ==> !(
            failure.kind is UnreadableDescriptor),
        ensures
            effects_applied(
                region,
                byte,
                cpu.bus,
                Self::translated(cpu, query.function_code, query.address, query.writing).1.bus,
                Self::inspected(cpu, query)->Ok_0.descriptor_effects,
            ),
    {
        let fc = query.function_code;
        let regs = cpu.regs.pmmu;
        let prediction = Self::inspected(cpu, query)->Ok_0;
        let end = Self::translated(cpu, fc, query.address, query.writing).1.bus;
        assert forall|at: u32| #[trigger] byte(cpu.bus, at) | 0 == byte(cpu.bus, at) by {
            lemma_or_facts(byte(cpu.bus, at));
        }
        if paged(PMMU, cpu, fc, query.address, query.writing) {
            if cache_hit(cpu, fc, query.address) is None {
                let root = root_pointer(regs, fc);
                let start = Self::lookup_start(cpu, false);
                let inspection = walked::<InspectionMemory<'_, TBus>>(
                    cpu.bus,
                    regs.tc,
                    root,
                    query.address,
                    fc,
                ).0;
                law_walk_resolves_or_fails::<InspectionMemory<'_, TBus>>(
                    cpu.bus,
                    regs.tc,
                    root,
                    query.address,
                    fc,
                );
                Self::lemma_walk_marks_in(writable, cpu, query);
                assert(writes_complete::<TBus>(region, writable, plain, byte));
                Self::law_walks_alike(
                    region,
                    writable,
                    plain,
                    byte,
                    start,
                    regs.tc,
                    root,
                    query.address,
                    fc,
                );
                let (execution, after) = walked::<Self>(start, regs.tc, root, query.address, fc);
                let used = used_effects(inspection.descriptors);
                assert(effects_applied(region, byte, cpu.bus, after.bus, used)) by {
                    let first = search_start(regs.tc, root);
                    lemma_root_aligned(root);
                    assert(steps_alike(first.steps, first.steps));
                    if root.dt() is Valid4b || root.dt() is Valid8b {
                        Self::lemma_search_effects(
                            region,
                            writable,
                            plain,
                            byte,
                            cpu.bus,
                            start,
                            regs.tc,
                            query.address,
                            fc,
                            0,
                            first,
                            first,
                        );
                    }
                }
                let effects = prediction.descriptor_effects;
                if effects.len() > used.len() {
                    let leaf = execution.resolved->0.leaf_address;
                    assert(effects[used.len() as int].address == leaf);
                    let (word, read) = TBus::long_read(after.bus, leaf);
                    let written = TBus::long_written(read, leaf, word->Ok_0 | 16).1;
                    assert(word->Ok_0 == long_of(byte, read, leaf));
                    lemma_modified_effect(region, byte, cpu.bus, read, written, used, leaf);
                }
            } else {
                let leaf = cache_hit(cpu, fc, query.address)->0.leaf_desc_addr;
                if prediction.descriptor_effects.len() > 0 {
                    assert(prediction.descriptor_effects[0].address == leaf);
                    let (word, read) = TBus::long_read(cpu.bus, leaf);
                    let written = TBus::long_written(read, leaf, word->Ok_0 | 16).1;
                    assert(word->Ok_0 == long_of(byte, read, leaf));
                    lemma_modified_effect(region, byte, cpu.bus, read, written, Seq::empty(), leaf);
                }
            }
        }
    }
}

/// Setting the M bit of a descriptor is one more effect.
proof fn lemma_modified_effect<M>(
    region: spec_fn(u32) -> bool,
    byte: spec_fn(M, u32) -> u8,
    first: M,
    before: M,
    after: M,
    effects: Seq<DescriptorEffect>,
    address: u32,
)
    requires
        effects_applied(region, byte, first, before, effects),
        long_stored(region, byte, before, after, address, long_of(byte, before, address) | 16),
    ensures
        effects_applied(
            region,
            byte,
            first,
            after,
            effects.push(DescriptorEffect { address, set_bits: 16 }),
        ),
{
    let longer = effects.push(DescriptorEffect { address, set_bits: 16 });
    assert(longer.drop_last() =~= effects);
    assert(16u32 as u8 == 16u8);
    let b0 = byte(before, address);
    let b1 = byte(before, address.wrapping_add(1));
    let b2 = byte(before, address.wrapping_add(2));
    let b3 = byte(before, address.wrapping_add(3));
    lemma_used_flag(b0, b1, b2, b3);
    assert forall|at: u32|
        #![trigger byte(after, at)]
        region(at) implies byte(after, at) == byte(first, at) | effect_bits(longer, at) by {
        let _ = byte(before, at);
        let (b, bits) = (byte(first, at), effect_bits(effects, at));
        assert((b | bits) | 16 == b | (bits | 16)) by (bit_vector);
    }
}

} // verus!
