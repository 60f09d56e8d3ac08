//! What a page of the translation caches lists, slot by slot.

use vstd::prelude::*;

use crate::cpu_m68k::cpu::CpuModel;
use crate::cpu_m68k::pmmu::access::{lemma_page_start, page_size};
use crate::cpu_m68k::pmmu::inspect::{
    scan_stops, slot_at, slots_between, total_slots, AtcSlot, RootBank,
};
use crate::cpu_m68k::pmmu::meaning::lemma_tc_numbers;
use crate::cpu_m68k::pmmu::translate::PmmuAtcEntry;
use crate::cpu_m68k::pmmu::walk::lemma_field_widths;

verus! {

/// The entry at a cursor: the slots of the CPU root come first, then those of the supervisor root.
pub open spec fn entry_at<M>(cpu: CpuModel<M>, cursor: int) -> Option<PmmuAtcEntry> {
    if cursor < cpu.atc[0].len() {
        cpu.atc[0][cursor]
    } else {
        cpu.atc[1][cursor - cpu.atc[0].len()]
    }
}

/// Whether a listed slot says what the cache holds at a cursor.
pub open spec fn lists<M>(cpu: CpuModel<M>, cursor: int, slot: AtcSlot) -> bool {
    let first = cpu.atc[0].len();
    &&& entry_at(cpu, cursor) matches Some(entry)
    &&& slot.bank == if cursor < first {
        RootBank::Cpu
    } else {
        RootBank::Supervisor
    }
    &&& slot.index == if cursor < first {
        cursor
    } else {
        cursor - first
    }
    &&& slot.logical_page == slot.index * page_size(cpu.regs.pmmu.tc) % 0x1_0000_0000
    &&& slot.function_code == entry.function_code
    &&& slot.physical_page == entry.paddr
    &&& slot.write_protected == entry.wp
    &&& slot.supervisor_only == entry.s
    &&& slot.leaf_address == entry.leaf_desc_addr
    &&& slot.modified == entry.modified
    &&& slot.generation == entry.generation
    &&& slot.valid == (entry.generation == cpu.generation)
}

/// Whether slots are those at some cursors, in order.
pub open spec fn lists_at<M>(cpu: CpuModel<M>, cursors: Seq<int>, slots: Seq<AtcSlot>) -> bool {
    &&& cursors.len() == slots.len()
    &&& forall|i: int| 0 <= i < slots.len() ==> lists(cpu, cursors[i], #[trigger] slots[i])
    &&& forall|i: int, j: int| 0 <= i < j < cursors.len() ==> cursors[i] < cursors[j]
}

/// Whether cursors are just those of the occupied slots from one cursor up to another.
pub open spec fn all_occupied<M>(
    cpu: CpuModel<M>,
    cursors: Seq<int>,
    from: int,
    to: int,
) -> bool {
    forall|cursor: int| #[trigger]
        cursors.contains(cursor) <==> from <= cursor < to && entry_at(cpu, cursor) is Some
}

/// The slots from one cursor up to another are the occupied ones, each once, in order, as the caches
/// hold them.
pub proof fn law_pages_list_the_occupied_slots<M>(cpu: CpuModel<M>, from: int, to: int)
    requires
        cpu.atc.len() == 2,
        cpu.atc[0].len() <= 0x1_0000_0000,
        cpu.atc[1].len() <= 0x1_0000_0000,
        0 <= from <= to <= total_slots(cpu),
    ensures
        exists|cursors: Seq<int>| #[trigger]
            lists_at(cpu, cursors, slots_between(cpu, from, to)) && all_occupied(
                cpu,
                cursors,
                from,
                to,
            ),
    decreases to - from,
{
    let slots = slots_between(cpu, from, to);
    if from == to {
        let none = Seq::<int>::empty();
        assert(lists_at(cpu, none, slots));
        assert(all_occupied(cpu, none, from, to));
    } else {
        let before = slots_between(cpu, from, to - 1);
        law_pages_list_the_occupied_slots(cpu, from, to - 1);
        let cursors = choose|cursors: Seq<int>| #[trigger]
            lists_at(cpu, cursors, before) && all_occupied(cpu, cursors, from, to - 1);
        let last = to - 1;
        lemma_lists(cpu, last);
        assert forall|i: int| 0 <= i < cursors.len() implies #[trigger] cursors[i] < last by {
            assert(cursors.contains(cursors[i]));
        }
        match slot_at(cpu, last) {
            Some(slot) => {
                let longer = cursors.push(last);
                assert(slots == before.push(slot));
                assert forall|i: int| 0 <= i < slots.len() implies lists(
                    cpu,
                    longer[i],
                    #[trigger] slots[i],
                ) by {
                    if i < before.len() {
                        assert(slots[i] == before[i]);
                    }
                }
                assert forall|cursor: int| #[trigger] longer.contains(cursor) <==> (from <= cursor
                    < to && entry_at(cpu, cursor) is Some) by {
                    if longer.contains(cursor) {
                        let k = choose|k: int| 0 <= k < longer.len() && longer[k] == cursor;
                        if k < cursors.len() {
                            assert(cursors[k] == cursor);
                            assert(cursors.contains(cursor));
                        }
                    }
                    if from <= cursor < to && entry_at(cpu, cursor) is Some {
                        if cursor == last {
                            assert(longer[cursors.len() as int] == cursor);
                        } else {
                            assert(cursors.contains(cursor));
                            let k = choose|k: int| 0 <= k < cursors.len() && cursors[k] == cursor;
                            assert(longer[k] == cursor);
                        }
                    }
                }
                assert(lists_at(cpu, longer, slots));
                assert(all_occupied(cpu, longer, from, to));
            },
            None => {
                assert(all_occupied(cpu, cursors, from, to)) by {
                    assert forall|cursor: int| #[trigger] cursors.contains(cursor) <==> (from
                        <= cursor < to && entry_at(cpu, cursor) is Some) by {}
                }
            },
        }
    }
}

/// A slot by its cursor.
proof fn lemma_lists<M>(cpu: CpuModel<M>, cursor: int)
    requires
        cpu.atc.len() == 2,
        cpu.atc[0].len() <= 0x1_0000_0000,
        cpu.atc[1].len() <= 0x1_0000_0000,
        0 <= cursor < total_slots(cpu),
    ensures
        match slot_at(cpu, cursor) {
            Some(slot) => lists(cpu, cursor, slot),
            None => entry_at(cpu, cursor) is None,
        },
{
    let tc = cpu.regs.pmmu.tc;
    let index = if cursor < cpu.atc[0].len() {
        cursor
    } else {
        cursor - cpu.atc[0].len()
    };
    lemma_tc_numbers(tc);
    lemma_field_widths(tc);
    lemma_page_start(index as u32, tc.ps());
}

/// A scan stops at one place: after so many slots as it may look at, at the end of the caches, or
/// with the slot that makes up the last entry that it may list, whichever comes first.
pub proof fn law_scans_stop_at_one_place<M>(
    cpu: CpuModel<M>,
    start: int,
    scan_limit: int,
    entry_limit: int,
    stop: int,
    other: int,
)
    requires
        cpu.atc.len() == 2,
        0 <= start <= total_slots(cpu),
        1 <= scan_limit,
        1 <= entry_limit,
        scan_stops(cpu, start, scan_limit, entry_limit, stop),
    ensures
        start <= stop <= start + scan_limit,
        stop <= cpu.atc[0].len() + cpu.atc[1].len(),
        slots_between(cpu, start, stop).len() <= entry_limit,
        stop < start + scan_limit && stop < cpu.atc[0].len() + cpu.atc[1].len()
            ==> slots_between(cpu, start, stop).len() == entry_limit && stop > start && slot_at(
            cpu,
            stop - 1,
        ) is Some,
        scan_stops(cpu, start, scan_limit, entry_limit, other) ==> other == stop,
{
    if stop > start {
        let _ = slots_between(cpu, start, stop - 1);
        assert(slots_between(cpu, start, stop - 1).len() < entry_limit);
    }
    if scan_stops(cpu, start, scan_limit, entry_limit, other) {
        if other < stop {
            assert(slots_between(cpu, start, other).len() < entry_limit);
        } else if stop < other {
            assert(slots_between(cpu, start, stop).len() < entry_limit);
        }
    }
}

} // verus!
