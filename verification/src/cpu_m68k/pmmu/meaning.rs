//! What a table search means, in numbers: which bits of the registers, of the address and of the
//! descriptors decide which step, and how a search ends.

use vstd::arithmetic::power2::pow2;
use vstd::prelude::*;

use crate::bus::Bus;
use crate::cpu_m68k::cpu::{CpuM68k, CpuModel};
use crate::cpu_m68k::pmmu::inspect::{inspected_long, InspectionMemory};
use crate::cpu_m68k::pmmu::regs::{RootPointerReg, TcReg};
use crate::cpu_m68k::pmmu::walk::{
    address_field, decoded, descended, descriptor_index, descriptor_read,
    entry_address, geometry, index_fields, lemma_field_widths, offset_mask, resolved, search_start,
    searched, walked, within_limit, DescriptorIndex, IndexLimit, ResolvedPage, Search, StepModel,
    WalkFailureKind, WalkMemory, WalkModel,
};
use crate::util::bytes::law_long_words_are_big_endian;

verus! {

/// Whether the F level comes before the others: bit 24 of TC.
pub open spec fn tc_fcl(tc: TcReg) -> bool {
    tc.0 / 0x100_0000 % 2 == 1
}

/// IS: bits 16 to 19 of TC.
pub open spec fn tc_is(tc: TcReg) -> int {
    tc.0 as int / 0x1_0000 % 16
}

/// PS: bits 20 to 23 of TC.
pub open spec fn tc_ps(tc: TcReg) -> int {
    tc.0 as int / 0x10_0000 % 16
}

/// TIA, TIB, TIC and TID: bits 12 to 15, 8 to 11, 4 to 7 and 0 to 3 of TC.
pub open spec fn tc_table(tc: TcReg, table: int) -> int {
    if table == 1 {
        tc.0 as int / 0x1000 % 16
    } else if table == 2 {
        tc.0 as int / 0x100 % 16
    } else if table == 3 {
        tc.0 as int / 0x10 % 16
    } else if table == 4 {
        tc.0 as int % 16
    } else {
        0
    }
}

/// How many levels a search can have.
pub open spec fn level_count(tc: TcReg) -> int {
    if tc_fcl(tc) {
        5
    } else {
        4
    }
}

/// Which table a level is of: A to D are 1 to 4, and the F level is 0.
pub open spec fn level_table(tc: TcReg, level: int) -> int {
    if tc_fcl(tc) {
        level - 1
    } else {
        level
    }
}

/// Address bits above those that index a table: the ignored ones and those of the tables before.
pub open spec fn bits_above(tc: TcReg, table: int) -> int {
    tc_is(tc) + (if table > 1 {
        tc_table(tc, 1)
    } else {
        0
    }) + (if table > 2 {
        tc_table(tc, 2)
    } else {
        0
    }) + (if table > 3 {
        tc_table(tc, 3)
    } else {
        0
    }) + (if table > 4 {
        tc_table(tc, 4)
    } else {
        0
    })
}

/// The index that a level takes from the function code or from the address.
pub open spec fn level_index(tc: TcReg, logical: u32, fc: u8, level: int) -> int {
    let table = level_table(tc, level);
    if table == 0 {
        fc as int % 8
    } else {
        let width = tc_table(tc, table);
        logical as int / pow2((32 - bits_above(tc, table) - width) as nat) as int % pow2(
            width as nat,
        ) as int
    }
}

/// The field that a level is indexed by.
pub open spec fn level_source(tc: TcReg, level: int) -> DescriptorIndex {
    let table = level_table(tc, level);
    if table == 0 {
        DescriptorIndex::FunctionCode
    } else if table == 1 {
        DescriptorIndex::TableA
    } else if table == 2 {
        DescriptorIndex::TableB
    } else if table == 3 {
        DescriptorIndex::TableC
    } else {
        DescriptorIndex::TableD
    }
}

/// Where the table starts that comes after some steps: at the address in the root pointer, or at
/// the one in the last step's descriptor, in units of sixteen bytes.
pub open spec fn table_start(root: RootPointerReg, steps: Seq<StepModel>, count: int) -> int {
    if count == 0 {
        root.0 as int % 0x1_0000_0000 - root.0 as int % 16
    } else {
        steps[count - 1].words.last() as int - steps[count - 1].words.last() as int % 16
    }
}

/// Whether the table that comes after some steps has eight-byte descriptors: DT is 3 in the root
/// pointer or in the last step's descriptor.
pub open spec fn table_wide(root: RootPointerReg, steps: Seq<StepModel>, count: int) -> bool {
    if count == 0 {
        root.0 / 0x1_0000_0000 % 4 == 3
    } else {
        steps[count - 1].words[0] % 4 == 3
    }
}

/// The limit on indices into the table that comes after some steps, and whether it is a lower one.
/// The root's does not hold for the F level, and narrow descriptors have none.
pub open spec fn table_limit(
    tc: TcReg,
    root: RootPointerReg,
    steps: Seq<StepModel>,
    count: int,
) -> Option<(int, bool)> {
    if count == 0 {
        if tc_fcl(tc) {
            None
        } else {
            Some(
                (
                    root.0 as int / 0x1_0000_0000_0000 % 0x8000,
                    root.0 / 0x8000_0000_0000_0000 == 1,
                ),
            )
        }
    } else if steps[count - 1].words.len() == 2 {
        let flags = steps[count - 1].words[0];
        Some((flags as int / 0x1_0000 % 0x8000, flags / 0x8000_0000 == 1))
    } else {
        None
    }
}

/// Whether a limit lets an index pass: from a lower one on upwards, up to an upper one.
pub open spec fn passes(limit: Option<(int, bool)>, index: int) -> bool {
    limit matches Some((value, lower)) ==> if lower {
        index >= value
    } else {
        index <= value
    }
}

/// What a step says of a limit.
pub open spec fn says_limit(said: Option<IndexLimit>, limit: Option<(int, bool)>) -> bool {
    match limit {
        Some((value, lower)) => said matches Some(bound) && bound.value == value && bound.lower
            == lower,
        None => said is None,
    }
}

/// Whether a step of a search is the one that the registers, the address and the steps before it
/// call for, and says what its words say.
pub open spec fn step_means(
    tc: TcReg,
    root: RootPointerReg,
    logical: u32,
    fc: u8,
    steps: Seq<StepModel>,
    i: int,
) -> bool {
    let step = steps[i];
    let wide = table_wide(root, steps, i);
    let limit = table_limit(tc, root, steps, i);
    let flags = step.words[0];
    let target = step.words.last();
    let kind = flags % 4;
    &&& step.level == i + 1
    &&& step.index_source == level_source(tc, i + 1)
    &&& level_table(tc, i + 1) == 0 || tc_table(tc, level_table(tc, i + 1)) > 0
    &&& step.index == level_index(tc, logical, fc, i + 1)
    &&& passes(limit, step.index as int)
    &&& says_limit(step.parent_limit, limit)
    &&& step.words.len() == if wide {
        2nat
    } else {
        1nat
    }
    &&& step.width == if wide {
        8u8
    } else {
        4u8
    }
    &&& step.address == (table_start(root, steps, i) + step.index * step.width) % 0x1_0000_0000
    &&& step.descriptor_type == kind
    &&& step.write_protected == (flags / 4 % 2 == 1)
    &&& step.used == (flags / 8 % 2 == 1)
    &&& step.modified == (kind == 1 && flags / 16 % 2 == 1)
    &&& step.cache_inhibit == (kind == 1 && flags / 64 % 2 == 1)
    &&& step.supervisor_only == (wide && flags / 256 % 2 == 1)
    &&& step.target_address == if kind == 0 {
        None
    } else if kind == 1 {
        Some((target - target % 256) as u32)
    } else {
        Some((target - target % 16) as u32)
    }
    &&& says_limit(
        step.child_limit,
        if wide && kind >= 2 {
            Some((flags as int / 0x1_0000 % 0x8000, flags / 0x8000_0000 == 1))
        } else {
            None
        },
    )
}

/// Whether the steps of a search are the ones that are called for, each but the last a table's.
pub open spec fn steps_mean(
    tc: TcReg,
    root: RootPointerReg,
    logical: u32,
    fc: u8,
    steps: Seq<StepModel>,
) -> bool {
    &&& steps.len() <= level_count(tc)
    &&& forall|i: int|
        0 <= i < steps.len() ==> #[trigger] step_means(tc, root, logical, fc, steps, i)
    &&& forall|i: int| 0 <= i < steps.len() - 1 ==> (#[trigger] steps[i]).words[0] % 4 >= 2
}

/// Whether some descriptor is write-protected: WP is bit 2.
pub open spec fn some_protected(steps: Seq<StepModel>) -> bool {
    exists|i: int| 0 <= i < steps.len() && (#[trigger] steps[i]).words[0] / 4 % 2 == 1
}

/// Whether some descriptor is for supervisors only: S is bit 8, and wide descriptors alone have it.
pub open spec fn some_supervisor(steps: Seq<StepModel>) -> bool {
    exists|i: int|
        0 <= i < steps.len() && (#[trigger] steps[i]).words.len() == 2 && steps[i].words[0] / 256 % 2
            == 1
}

/// Whether a page is the one that a search's last descriptor gives: its address, with the address
/// bits that no table was indexed by in place of its own, and what every descriptor protects.
pub open spec fn page_means(
    tc: TcReg,
    logical: u32,
    steps: Seq<StepModel>,
    page: ResolvedPage,
) -> bool {
    let offset = 32 - bits_above(tc, level_table(tc, steps.len() as int) + 1);
    let size = pow2(offset as nat) as int;
    let base = steps.last().words.last() as int - steps.last().words.last() as int % 256;
    &&& page.offset_bits == offset
    &&& page.physical_address == base - base % size + logical as int % size
    &&& page.leaf_address == steps.last().address
    &&& page.modified == (steps.last().words[0] / 16 % 2 == 1)
    &&& page.write_protected == some_protected(steps)
    &&& page.supervisor_only == some_supervisor(steps)
}

/// Whether a search fails at a level in a way.
pub open spec fn fails_with(walk: WalkModel, kind: WalkFailureKind, level: int) -> bool {
    &&& walk.resolved is None
    &&& walk.level == level
    &&& walk.failure matches Some(failure) && failure.kind == kind && failure.level == level
}

/// Whether a search ends as its configuration and its steps call for.
///
/// With fields of TC that do not sum up to 32 bits, or a root that names no table, there are no
/// steps. An invalid descriptor ends the search, and a page descriptor resolves it. After a table
/// descriptor, or at the start, the search fails if no level is left, if the next level has no
/// bits to index with, or if the index does not pass the limit, in this order. Nothing else ends it
/// but a failed read of the next descriptor or a failed mark on the last.
pub open spec fn walk_means(
    tc: TcReg,
    root: RootPointerReg,
    logical: u32,
    fc: u8,
    walk: WalkModel,
) -> bool {
    let steps = walk.descriptors;
    let count = steps.len() as int;
    if tc_is(tc) + tc_ps(tc) + tc_table(tc, 1) + tc_table(tc, 2) + tc_table(tc, 3) + tc_table(tc, 4)
        != 32 {
        count == 0 && fails_with(walk, WalkFailureKind::InvalidConfiguration, 0)
    } else if root.0 / 0x1_0000_0000 % 4 < 2 {
        count == 0 && fails_with(walk, WalkFailureKind::UnsupportedRoot, 0)
    } else {
        &&& steps_mean(tc, root, logical, fc, steps)
        &&& if count > 0 && fails_with(walk, WalkFailureKind::DescriptorUpdate, count) {
            steps.last().words[0] % 4 != 0 && steps.last().words[0] / 8 % 2 == 0
        } else if count > 0 && steps.last().words[0] % 4 == 0 {
            &&& fails_with(walk, WalkFailureKind::InvalidDescriptor, count)
            &&& walk.failure->0.address == Some(steps.last().address)
        } else if count > 0 && steps.last().words[0] % 4 == 1 {
            &&& walk.failure is None
            &&& walk.level == count
            &&& walk.resolved matches Some(page) && page_means(tc, logical, steps, page)
        } else if count == level_count(tc) {
            fails_with(walk, WalkFailureKind::DepthExceeded, count)
        } else if level_table(tc, count + 1) != 0 && tc_table(tc, level_table(tc, count + 1)) == 0 {
            fails_with(walk, WalkFailureKind::DepthExceeded, count + 1)
        } else if !passes(
            table_limit(tc, root, steps, count),
            level_index(tc, logical, fc, count + 1),
        ) {
            fails_with(walk, WalkFailureKind::LimitViolation, count + 1)
        } else {
            fails_with(walk, WalkFailureKind::UnreadableDescriptor, count + 1)
        }
    }
}

/// Whether the failures of a memory are failed reads and failed marks, and nothing else.
pub open spec fn fails_plainly<M: WalkMemory>() -> bool {
    &&& forall|state: M::State, address: u32|
        #![trigger M::long_read(state, address)]
        M::long_read(state, address).0 matches Err(failure)
            ==> failure.kind is UnreadableDescriptor
    &&& forall|state: M::State, address: u32, original: u32|
        #![trigger M::used_marked(state, address, original)]
        M::used_marked(state, address, original).0 matches Err(failure)
            ==> failure.kind is DescriptorUpdate
}

/// The fields of TC, by their bits.
pub proof fn lemma_tc_numbers(tc: TcReg)
    ensures
        tc.enable() == (tc.0 / 0x8000_0000 == 1),
        tc.sre() == (tc.0 / 0x200_0000 % 2 == 1),
        tc.fcl() == tc_fcl(tc),
        tc.ps() == tc_ps(tc),
        tc.is() == tc_is(tc),
        tc.tia() == tc_table(tc, 1),
        tc.tib() == tc_table(tc, 2),
        tc.tic() == tc_table(tc, 3),
        tc.tid() == tc_table(tc, 4),
{
    let w = tc.0;
    assert((w & 0x8000_0000 != 0) == (w / 0x8000_0000 == 1) && (w & 0x0200_0000 != 0) == (w
        / 0x200_0000 % 2 == 1) && (w & 0x0100_0000 != 0) == (w / 0x100_0000 % 2 == 1) && (w >> 20)
        & 15 == w / 0x10_0000 % 16 && (w >> 16) & 15 == w / 0x1_0000 % 16 && (w >> 12) & 15 == w
        / 0x1000 % 16 && (w >> 8) & 15 == w / 0x100 % 16 && (w >> 4) & 15 == w / 0x10 % 16 && w & 15
        == w % 16) by (bit_vector);
}

/// The fields of a root pointer, by their bits.
pub proof fn lemma_root_numbers(root: RootPointerReg)
    ensures
        root.lu() == (root.0 / 0x8000_0000_0000_0000 == 1),
        root.limit() == root.0 as int / 0x1_0000_0000_0000 % 0x8000,
        root.dt() is Valid4b <==> root.0 / 0x1_0000_0000 % 4 == 2,
        root.dt() is Valid8b <==> root.0 / 0x1_0000_0000 % 4 == 3,
        root.table_addr() << 4 == root.0 as int % 0x1_0000_0000 - root.0 as int % 16,
{
    let r = root.0;
    let kind = ((r >> 32) & 3) as u32;
    assert(((r >> 63) & 1 != 0) == (r / 0x8000_0000_0000_0000 == 1) && ((r >> 48) & 0x7FFF) as u16
        == r / 0x1_0000_0000_0000 % 0x8000 && ((((r >> 32) & 3) as u32) & 3) == r / 0x1_0000_0000 % 4
        && ((((r >> 4) & 0x0FFF_FFFF) as u32) << 4) == r % 0x1_0000_0000 - r % 16) by (bit_vector);
}

/// The bits of a descriptor, by their places.
pub proof fn lemma_descriptor_numbers(flags: u32, target: u32)
    ensures
        flags & 3 == flags % 4,
        (flags & 4 != 0) == (flags / 4 % 2 == 1),
        (flags & 8 != 0) == (flags / 8 % 2 == 1),
        (flags & 16 != 0) == (flags / 16 % 2 == 1),
        (flags & 64 != 0) == (flags / 64 % 2 == 1),
        (flags & 0x100 != 0) == (flags / 256 % 2 == 1),
        ((flags >> 16) & 0x7FFF) as u16 == flags as int / 0x1_0000 % 0x8000,
        (flags >> 31 != 0) == (flags / 0x8000_0000 == 1),
        target & !15u32 == target - target % 16,
        target & !255u32 == target - target % 256,
{
    assert(flags & 3 == flags % 4 && (flags & 4 != 0) == (flags / 4 % 2 == 1) && (flags & 8 != 0)
        == (flags / 8 % 2 == 1) && (flags & 16 != 0) == (flags / 16 % 2 == 1) && (flags & 64 != 0)
        == (flags / 64 % 2 == 1) && (flags & 0x100 != 0) == (flags / 256 % 2 == 1) && ((flags >> 16)
        & 0x7FFF) as u16 == flags / 0x1_0000 % 0x8000 && (flags >> 31 != 0) == (flags / 0x8000_0000
        == 1) && target & !15u32 == target - target % 16 && target & !255u32 == target - target
        % 256) by (bit_vector);
}

/// Ones in the low bits, and what they cut out of a number.
pub proof fn lemma_low_ones(value: u32, bits: u32)
    requires
        bits < 32,
    ensures
        ((1u32 << bits) - 1) as u32 == pow2(bits as nat) - 1,
        value & ((1u32 << bits) - 1) as u32 == value as int % pow2(bits as nat) as int,
        0 < pow2(bits as nat) <= 0x8000_0000,
{
    vstd::bits::lemma_u32_pow2_no_overflow(bits as nat);
    vstd::arithmetic::power2::lemma2_to64();
    if bits < 31 {
        vstd::arithmetic::power2::lemma_pow2_strictly_increases(bits as nat, 31);
    }
    assert(1 * pow2(bits as nat) == pow2(bits as nat));
    vstd::bits::lemma_u32_shl_is_mul(1, bits);
    vstd::bits::lemma_u32_low_bits_mask_is_mod(value, bits as nat);
}

/// A field of an address, by division.
proof fn lemma_field_number(logical: u32, consumed: u32, bits: u32)
    requires
        1 <= bits <= 15,
        consumed + bits <= 32,
    ensures
        address_field(logical, consumed, bits) == logical as int / pow2(
            (32 - consumed - bits) as nat,
        ) as int % pow2(bits as nat) as int,
{
    let shift = (32 - consumed - bits) as u32;
    lemma_low_ones(logical >> shift, bits);
    vstd::bits::lemma_u32_shr_is_div(logical, shift);
}

/// Ones below the consumed bits.
pub proof fn lemma_offset_ones(value: u32, consumed: u32)
    requires
        consumed <= 32,
    ensures
        value & offset_mask(consumed) == value as int % pow2((32 - consumed) as nat) as int,
        offset_mask(consumed) == pow2((32 - consumed) as nat) - 1,
        0 < pow2((32 - consumed) as nat) <= 0x1_0000_0000,
{
    let rest = (32 - consumed) as u32;
    vstd::arithmetic::power2::lemma2_to64();
    if consumed == 0 {
        assert(value & (0xFFFF_FFFFu32 >> 0) == value && 0xFFFF_FFFFu32 >> 0 == 0xFFFF_FFFF)
            by (bit_vector);
    } else {
        lemma_low_ones(value, rest);
        if consumed < 32 {
            assert(0xFFFF_FFFFu32 >> consumed == ((1u32 << ((32 - consumed) as u32)) - 1) as u32)
                by (bit_vector)
                requires
                    1 <= consumed < 32,
            ;
        } else {
            assert(value & 0 == 0) by (bit_vector);
        }
    }
}

/// A page's base and an offset, joined.
pub proof fn lemma_joined_number(base: u32, logical: u32, consumed: u32)
    requires
        consumed <= 32,
    ensures
        ({
            let size = pow2((32 - consumed) as nat) as int;
            (base & !offset_mask(consumed)) | (logical & offset_mask(consumed)) == base as int
                - base as int % size + logical as int % size
        }),
{
    let mask = offset_mask(consumed);
    lemma_offset_ones(base, consumed);
    lemma_offset_ones(logical, consumed);
    assert((base & !mask) | (logical & mask) == (base - (base & mask)) + (logical & mask))
        by (bit_vector);
}

/// The index fields by level.
proof fn lemma_levels(tc: TcReg, done: int)
    requires
        0 <= done < index_fields(tc).len(),
    ensures
        index_fields(tc).len() == level_count(tc),
        index_fields(tc)[done].0 == level_source(tc, done + 1),
        index_fields(tc)[done].1 == tc_table(tc, level_table(tc, done + 1)),
        index_fields(tc)[done].0 is FunctionCode <==> level_table(tc, done + 1) == 0,
        bits_above(tc, level_table(tc, done + 1) + 1) == bits_above(tc, level_table(tc, done as int + 1))
            + index_fields(tc)[done].1,
        index_fields(tc)[done].1 <= 15,
{
    lemma_tc_numbers(tc);
    lemma_field_widths(tc);
    assert(done == 0 || done == 1 || done == 2 || done == 3 || done == 4);
}

/// A step means the same among more steps.
proof fn lemma_step_stays(
    tc: TcReg,
    root: RootPointerReg,
    logical: u32,
    fc: u8,
    steps: Seq<StepModel>,
    step: StepModel,
    i: int,
)
    requires
        0 <= i < steps.len(),
    ensures
        step_means(tc, root, logical, fc, steps.push(step), i) == step_means(
            tc,
            root,
            logical,
            fc,
            steps,
            i,
        ),
{
    let longer = steps.push(step);
    assert(longer[i] == steps[i]);
    if i > 0 {
        assert(longer[i - 1] == steps[i - 1]);
    }
}

/// Whether a search has come to the place that its steps call for.
spec fn search_means(
    tc: TcReg,
    root: RootPointerReg,
    logical: u32,
    fc: u8,
    done: nat,
    search: Search,
) -> bool {
    let steps = search.steps;
    &&& steps.len() == done
    &&& steps_mean(tc, root, logical, fc, steps)
    &&& done > 0 ==> steps.last().words[0] % 4 >= 2
    &&& search.table == table_start(root, steps, done as int)
    &&& search.long == table_wide(root, steps, done as int)
    &&& says_limit(search.limit, table_limit(tc, root, steps, done as int))
    &&& search.consumed == bits_above(tc, level_table(tc, done as int + 1))
    &&& search.write_protected == some_protected(steps)
    &&& search.supervisor_only == some_supervisor(steps)
}

/// A descriptor that a search reads is the step that is called for.
proof fn lemma_step_means(
    tc: TcReg,
    root: RootPointerReg,
    logical: u32,
    fc: u8,
    done: nat,
    search: Search,
    words: Seq<u32>,
)
    requires
        geometry(tc) == 32,
        done < index_fields(tc).len(),
        search_means(tc, root, logical, fc, done, search),
        words.len() == if search.long {
            2nat
        } else {
            1nat
        },
        ({
            let (source, bits) = index_fields(tc)[done as int];
            let index = descriptor_index(source, bits, search.consumed, logical, fc);
            &&& bits != 0 || source is FunctionCode
            &&& within_limit(search.limit, index)
        }),
    ensures
        ({
            let (source, bits) = index_fields(tc)[done as int];
            let index = descriptor_index(source, bits, search.consumed, logical, fc);
            let step = decoded(
                (done + 1) as u8,
                source,
                index,
                entry_address(search, index),
                search.long,
                words,
                search.limit,
            );
            let steps = search.steps.push(step);
            &&& steps_mean(tc, root, logical, fc, steps)
            &&& some_protected(steps) == (search.write_protected || step.write_protected)
            &&& some_supervisor(steps) == (search.supervisor_only || step.supervisor_only)
            &&& words[0] % 4 == step.descriptor_type
            &&& step.descriptor_type == 1 ==> page_means(
                tc,
                logical,
                steps,
                resolved(search, bits, step, logical).resolved->0,
            )
            &&& step.descriptor_type >= 2 ==> search_means(
                tc,
                root,
                logical,
                fc,
                done + 1,
                descended(search, bits, step),
            )
        }),
{
    let (source, bits) = index_fields(tc)[done as int];
    let index = descriptor_index(source, bits, search.consumed, logical, fc);
    let address = entry_address(search, index);
    let step = decoded((done + 1) as u8, source, index, address, search.long, words, search.limit);
    let before = search.steps;
    let steps = before.push(step);
    let level = done + 1;
    lemma_tc_numbers(tc);
    lemma_levels(tc, done as int);
    lemma_index_number(tc, logical, fc, done as int);
    lemma_descriptor_numbers(words[0], words.last());
    assert(steps[done as int] == step);
    assert(table_start(root, steps, done as int) == table_start(root, before, done as int));
    assert(table_wide(root, steps, done as int) == table_wide(root, before, done as int));
    assert(table_limit(tc, root, steps, done as int) == table_limit(
        tc,
        root,
        before,
        done as int,
    ));
    lemma_entry_number(search.table, index, search.long);
    assert(step_means(tc, root, logical, fc, steps, done as int));
    assert forall|i: int| 0 <= i < steps.len() implies #[trigger] step_means(
        tc,
        root,
        logical,
        fc,
        steps,
        i,
    ) by {
        if i < done {
            lemma_step_stays(tc, root, logical, fc, before, step, i);
            assert(step_means(tc, root, logical, fc, before, i));
        }
    }
    assert forall|i: int| 0 <= i < steps.len() - 1 implies (#[trigger] steps[i]).words[0] % 4
        >= 2 by {
        assert(steps[i] == before[i]);
        assert(before.last() == before[done - 1]);
    }
    assert(some_protected(steps) == (some_protected(before) || words[0] / 4 % 2 == 1)) by {
        if some_protected(before) {
            let i = choose|i: int|
                0 <= i < before.len() && (#[trigger] before[i]).words[0] / 4 % 2 == 1;
            assert(steps[i].words[0] / 4 % 2 == 1);
        }
        if some_protected(steps) {
            let i = choose|i: int|
                0 <= i < steps.len() && (#[trigger] steps[i]).words[0] / 4 % 2 == 1;
            if i < done {
                assert(before[i].words[0] / 4 % 2 == 1);
            }
        }
    }
    assert(some_supervisor(steps) == (some_supervisor(before) || step.supervisor_only)) by {
        if some_supervisor(before) {
            let i = choose|i: int|
                0 <= i < before.len() && (#[trigger] before[i]).words.len() == 2
                    && before[i].words[0] / 256 % 2 == 1;
            assert(steps[i].words.len() == 2);
        }
        if some_supervisor(steps) {
            let i = choose|i: int|
                0 <= i < steps.len() && (#[trigger] steps[i]).words.len() == 2 && steps[i].words[0]
                    / 256 % 2 == 1;
            if i < done {
                assert(before[i].words.len() == 2);
            }
        }
    }
    lemma_bits_above(tc, level_table(tc, level as int) + 1);
    let consumed = (search.consumed + bits) as u32;
    lemma_joined_number(words.last() & !255u32, logical, consumed);
    assert(steps.last() == step);
}

/// No level takes more bits than an address has.
proof fn lemma_bits_above(tc: TcReg, table: int)
    requires
        geometry(tc) == 32,
    ensures
        0 <= bits_above(tc, table) <= 32,
{
    lemma_tc_numbers(tc);
    lemma_field_widths(tc);
}

/// The address of an entry, by multiplication.
proof fn lemma_entry_number(table: u32, index: u32, long: bool)
    requires
        index <= 0xFFFF,
    ensures
        ({
            let width = if long {
                8int
            } else {
                4int
            };
            table.wrapping_add((index * width) as u32) == (table + index * width) % 0x1_0000_0000
        }),
{
}

/// The index of a level, by division.
proof fn lemma_index_number(tc: TcReg, logical: u32, fc: u8, done: int)
    requires
        geometry(tc) == 32,
        0 <= done < index_fields(tc).len(),
        index_fields(tc)[done].1 != 0 || index_fields(tc)[done].0 is FunctionCode,
    ensures
        ({
            let (source, bits) = index_fields(tc)[done];
            let above = bits_above(tc, level_table(tc, done + 1)) as u32;
            let index = descriptor_index(source, bits, above, logical, fc);
            &&& index == level_index(tc, logical, fc, done + 1)
            &&& index <= 0xFFFF
        }),
{
    let (source, bits) = index_fields(tc)[done];
    let table = level_table(tc, done + 1);
    lemma_tc_numbers(tc);
    lemma_levels(tc, done);
    lemma_bits_above(tc, table);
    lemma_bits_above(tc, table + 1);
    if source is FunctionCode {
        assert(fc & 7 == fc % 8) by (bit_vector);
    } else {
        lemma_field_number(logical, bits_above(tc, table) as u32, bits);
        vstd::arithmetic::power2::lemma2_to64();
        if bits < 15 {
            vstd::arithmetic::power2::lemma_pow2_strictly_increases(bits as nat, 15);
        }
        vstd::arithmetic::power2::lemma_pow2_pos(bits as nat);
        vstd::arithmetic::div_mod::lemma_mod_bound(
            logical as int / pow2((32 - bits_above(tc, table) - bits) as nat) as int,
            pow2(bits as nat) as int,
        );
    }
}

/// A limit that a search goes by lets the indices pass that it should.
proof fn lemma_limit_number(said: Option<IndexLimit>, limit: Option<(int, bool)>, index: u32)
    requires
        says_limit(said, limit),
    ensures
        within_limit(said, index) == passes(limit, index as int),
{
}

/// A search that has come to the right place ends the right way.
proof fn lemma_search_means<M: WalkMemory>(
    memory: M::State,
    tc: TcReg,
    root: RootPointerReg,
    logical: u32,
    fc: u8,
    done: nat,
    search: Search,
)
    requires
        fails_plainly::<M>(),
        geometry(tc) == 32,
        root.0 / 0x1_0000_0000 % 4 >= 2,
        done <= index_fields(tc).len(),
        search_means(tc, root, logical, fc, done, search),
    ensures
        walk_means(
            tc,
            root,
            logical,
            fc,
            searched::<M>(memory, tc, logical, fc, done, search).0,
        ),
    decreases 5 - done,
{
    let fields = index_fields(tc);
    lemma_tc_numbers(tc);
    let walk = searched::<M>(memory, tc, logical, fc, done, search).0;
    if done < fields.len() {
        let (source, bits) = fields[done as int];
        let index = descriptor_index(source, bits, search.consumed, logical, fc);
        let address = entry_address(search, index);
        lemma_levels(tc, done as int);
        if bits != 0 || source is FunctionCode {
            lemma_index_number(tc, logical, fc, done as int);
            lemma_limit_number(
                search.limit,
                table_limit(tc, root, search.steps, done as int),
                index,
            );
            let (read, after) = descriptor_read::<M>(
                M::selected(memory, address),
                address,
                search.long,
            );
            if within_limit(search.limit, index) {
                if let Ok(words) = read {
                    lemma_step_means(tc, root, logical, fc, done, search, words);
                    let step = decoded(
                        (done + 1) as u8,
                        source,
                        index,
                        address,
                        search.long,
                        words,
                        search.limit,
                    );
                    assert(search.steps.push(step).last() == step);
                    lemma_descriptor_numbers(words[0], words.last());
                    let (marked, marked_memory) = M::used_marked(after, address, words[0]);
                    let next = if step.used {
                        after
                    } else {
                        marked_memory
                    };
                    if step.descriptor_type >= 2 && (step.used || marked is Ok) {
                        lemma_search_means::<M>(
                            next,
                            tc,
                            root,
                            logical,
                            fc,
                            done + 1,
                            descended(search, bits, step),
                        );
                    }
                } else {
                    let _ = M::long_read(M::selected(memory, address), address);
                    let _ = M::long_read(
                        M::long_read(M::selected(memory, address), address).1,
                        address.wrapping_add(4),
                    );
                }
            }
        }
    }
}

/// A table search takes, level by level, the descriptor that the numbers in the registers, the
/// address and the descriptors before it call for, and ends as they call for.
pub proof fn law_walk_means<M: WalkMemory>(
    memory: M::State,
    tc: TcReg,
    root: RootPointerReg,
    logical: u32,
    fc: u8,
)
    requires
        fails_plainly::<M>(),
    ensures
        walk_means(tc, root, logical, fc, walked::<M>(memory, tc, root, logical, fc).0),
{
    lemma_tc_numbers(tc);
    lemma_root_numbers(root);
    if geometry(tc) == 32 && root.0 / 0x1_0000_0000 % 4 >= 2 {
        let start = search_start(tc, root);
        assert(search_means(tc, root, logical, fc, 0, start));
        lemma_search_means::<M>(memory, tc, root, logical, fc, 0, start);
    }
}

/// Every step of a search stays within the limit of its table: at or above a lower limit, at or
/// below an upper one. A search fails with a limit violation exactly if the index of its next level
/// does not: it lies below a lower limit or above an upper one. So a lower limit of zero is never
/// violated.
pub proof fn law_limits_bound_indices<M: WalkMemory>(
    memory: M::State,
    tc: TcReg,
    root: RootPointerReg,
    logical: u32,
    fc: u8,
)
    requires
        fails_plainly::<M>(),
    ensures
        ({
            let walk = walked::<M>(memory, tc, root, logical, fc).0;
            let steps = walk.descriptors;
            let count = steps.len() as int;
            let next = level_index(tc, logical, fc, count + 1);
            &&& forall|i: int|
                0 <= i < count ==> ((#[trigger] steps[i]).parent_limit matches Some(limit) ==> if limit.lower {
                    steps[i].index >= limit.value
                } else {
                    steps[i].index <= limit.value
                })
            &&& walk.failure matches Some(failure) ==> {
                &&& failure.kind is LimitViolation ==> (table_limit(
                    tc,
                    root,
                    steps,
                    count,
                ) matches Some((value, lower)) && if lower {
                    next < value
                } else {
                    next > value
                })
                &&& failure.kind is UnreadableDescriptor ==> (table_limit(
                    tc,
                    root,
                    steps,
                    count,
                ) matches Some((value, lower)) ==> if lower {
                    next >= value
                } else {
                    next <= value
                })
                &&& failure.kind is LimitViolation && count == 0 ==> !(root.0
                    / 0x8000_0000_0000_0000 == 1 && root.0 / 0x1_0000_0000_0000 % 0x8000 == 0)
            }
        }),
{
    law_walk_means::<M>(memory, tc, root, logical, fc);
    let steps = walked::<M>(memory, tc, root, logical, fc).0.descriptors;
    assert forall|i: int| 0 <= i < steps.len() implies ((
    #[trigger] steps[i]).parent_limit matches Some(limit) ==> if limit.lower {
        steps[i].index >= limit.value
    } else {
        steps[i].index <= limit.value
    }) by {
        assert(step_means(tc, root, logical, fc, steps, i));
    }
    lemma_level_index_range(tc, logical, fc, steps.len() as int + 1);
}

/// An index is no negative number.
proof fn lemma_level_index_range(tc: TcReg, logical: u32, fc: u8, level: int)
    ensures
        level_index(tc, logical, fc, level) >= 0,
{
    let table = level_table(tc, level);
    let width = tc_table(tc, table);
    let shift = (32 - bits_above(tc, table) - width) as nat;
    vstd::arithmetic::power2::lemma_pow2_pos(width as nat);
    vstd::arithmetic::power2::lemma_pow2_pos(shift);
    vstd::arithmetic::div_mod::lemma_div_pos_is_pos(logical as int, pow2(shift) as int);
    vstd::arithmetic::div_mod::lemma_mod_bound(
        logical as int / pow2(shift) as int,
        pow2(width as nat) as int,
    );
}

/// The four bytes that inspection sees at an address make up a number, the highest byte first.
pub open spec fn bytes_hold<T: Bus>(machine: T::Model, address: u32, value: u32) -> bool {
    &&& T::byte_inspected(machine, address) == Some((value / 0x100_0000) as u8)
    &&& T::byte_inspected(machine, address.wrapping_add(1)) == Some((value / 0x1_0000 % 256) as u8)
    &&& T::byte_inspected(machine, address.wrapping_add(2)) == Some((value / 0x100 % 256) as u8)
    &&& T::byte_inspected(machine, address.wrapping_add(3)) == Some((value % 256) as u8)
}

/// The words of a step are those that inspection sees at its address.
pub open spec fn words_seen<T: Bus>(machine: T::Model, step: StepModel) -> bool {
    &&& bytes_hold::<T>(machine, step.address, step.words[0])
    &&& step.words.len() == 2 ==> bytes_hold::<T>(
        machine,
        step.address.wrapping_add(4),
        step.words[1],
    )
}

/// What inspection sees of a long word.
proof fn lemma_bytes_hold<T: Bus>(machine: T::Model, address: u32)
    ensures
        inspected_long::<T>(machine, address) matches Ok(value) ==> bytes_hold::<T>(
            machine,
            address,
            value,
        ),
{
    if let Ok(value) = inspected_long::<T>(machine, address) {
        let b0 = T::byte_inspected(machine, address)->0;
        let b1 = T::byte_inspected(machine, address.wrapping_add(1))->0;
        let b2 = T::byte_inspected(machine, address.wrapping_add(2))->0;
        let b3 = T::byte_inspected(machine, address.wrapping_add(3))->0;
        law_long_words_are_big_endian(b0, b1, b2, b3);
    }
}

/// An inspecting search reads its words where its steps say.
proof fn lemma_words_seen<T: Bus>(
    machine: T::Model,
    tc: TcReg,
    logical: u32,
    fc: u8,
    done: nat,
    search: Search,
)
    requires
        forall|i: int|
            0 <= i < search.steps.len() ==> words_seen::<T>(machine, #[trigger] search.steps[i]),
    ensures
        ({
            let steps = searched::<InspectionMemory<'static, T>>(
                machine,
                tc,
                logical,
                fc,
                done,
                search,
            ).0.descriptors;
            forall|i: int| 0 <= i < steps.len() ==> words_seen::<T>(machine, #[trigger] steps[i])
        }),
    decreases 5 - done,
{
    let fields = index_fields(tc);
    if done < fields.len() && done < 5 {
        let (source, bits) = fields[done as int];
        let index = descriptor_index(source, bits, search.consumed, logical, fc);
        let address = entry_address(search, index);
        let (read, after) = descriptor_read::<InspectionMemory<'_, T>>(
            machine,
            address,
            search.long,
        );
        lemma_bytes_hold::<T>(machine, address);
        lemma_bytes_hold::<T>(machine, address.wrapping_add(4));
        if let Ok(words) = read {
            let step = decoded(
                (done + 1) as u8,
                source,
                index,
                address,
                search.long,
                words,
                search.limit,
            );
            let steps = search.steps.push(step);
            assert(words_seen::<T>(machine, step));
            assert forall|i: int| 0 <= i < steps.len() implies words_seen::<T>(
                machine,
                #[trigger] steps[i],
            ) by {
                if i < search.steps.len() {
                    assert(steps[i] == search.steps[i]);
                }
            }
            lemma_words_seen::<T>(
                machine,
                tc,
                logical,
                fc,
                done + 1,
                descended(search, bits, step),
            );
        }
    }
}

/// An inspecting search means what `walk_means` says, and its words are those that inspection sees.
pub proof fn law_inspecting_search_means<T: Bus>(
    machine: T::Model,
    tc: TcReg,
    root: RootPointerReg,
    logical: u32,
    fc: u8,
)
    ensures
        ({
            let walk = walked::<InspectionMemory<'static, T>>(machine, tc, root, logical, fc).0;
            &&& walk_means(tc, root, logical, fc, walk)
            &&& forall|i: int|
                0 <= i < walk.descriptors.len() ==> words_seen::<T>(
                    machine,
                    #[trigger] walk.descriptors[i],
                )
        }),
{
    law_walk_means::<InspectionMemory<'_, T>>(machine, tc, root, logical, fc);
    lemma_words_seen::<T>(machine, tc, logical, fc, 0, search_start(tc, root));
}

impl<
    TBus: Bus,
    const ADDRESS_MASK: u32,
    const CPU_TYPE: usize,
    const FPU_TYPE: usize,
    const PMMU: bool,
> CpuM68k<TBus, ADDRESS_MASK, CPU_TYPE, FPU_TYPE, PMMU> {
    /// An executing search means what `walk_means` says.
    pub proof fn law_executing_search_means(
        cpu: CpuModel<TBus::Model>,
        tc: TcReg,
        root: RootPointerReg,
        logical: u32,
        fc: u8,
    )
        ensures
            walk_means(tc, root, logical, fc, walked::<Self>(cpu, tc, root, logical, fc).0),
    {
        law_walk_means::<Self>(cpu, tc, root, logical, fc);
    }
}

/// A descriptor that inspection cannot see whole is told up to its first hidden byte: its first word,
/// if that can be seen, then single bytes, and where the hidden byte is.
pub proof fn law_hidden_descriptors_are_told<T: Bus>(machine: T::Model, address: u32, long: bool)
    ensures
        descriptor_read::<InspectionMemory<'static, T>>(machine, address, long).0 matches Err(
            failure,
        ) ==> {
            let words = failure.partial_words;
            let bytes = failure.partial_bytes;
            let start = address.wrapping_add((4 * words.len()) as u32);
            &&& failure.kind is UnreadableDescriptor
            &&& words.len() <= if long {
                1nat
            } else {
                0nat
            }
            &&& words.len() == 1 ==> bytes_hold::<T>(machine, address, words[0])
            &&& bytes.len() <= 3
            &&& forall|i: int|
                0 <= i < bytes.len() ==> T::byte_inspected(
                    machine,
                    start.wrapping_add(i as u32),
                ) == Some(#[trigger] bytes[i])
            &&& T::byte_inspected(machine, start.wrapping_add(bytes.len() as u32)) is None
            &&& failure.address == Some(start.wrapping_add(bytes.len() as u32))
        },
{
    lemma_bytes_hold::<T>(machine, address);
}

} // verus!
