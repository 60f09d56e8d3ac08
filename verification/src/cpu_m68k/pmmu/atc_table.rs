//! Compact form of a translation cache for saved states.
//!
//! ATC is a linear table for O(1) lookup, which can get pretty large in serialized
//! form so this is stored as key/value + size instead.

use vstd::prelude::*;

use crate::cpu_m68k::pmmu::translate::PmmuAtcEntry;

verus! {

/// A cache as its size and its occupied slots.
#[derive(Debug, Clone, PartialEq, Eq)]
pub struct AtcTable {
    pub size: usize,
    pub entries: Vec<(usize, PmmuAtcEntry)>,
}

/// The occupied slots in order, each with its index.
pub open spec fn occupied(slots: Seq<Option<PmmuAtcEntry>>) -> Seq<(usize, PmmuAtcEntry)>
    decreases slots.len(),
{
    if slots.len() == 0 {
        Seq::empty()
    } else {
        match slots.last() {
            Some(entry) => occupied(slots.drop_last()).push(((slots.len() - 1) as usize, entry)),
            None => occupied(slots.drop_last()),
        }
    }
}

/// The slots that a size and indexed entries describe. A later entry replaces an earlier one
/// at the same index; an index out of range spoils the whole table.
pub open spec fn restored(size: nat, entries: Seq<(usize, PmmuAtcEntry)>) -> Option<
    Seq<Option<PmmuAtcEntry>>,
>
    decreases entries.len(),
{
    if entries.len() == 0 {
        Some(Seq::new(size, |i: int| None::<PmmuAtcEntry>))
    } else {
        match restored(size, entries.drop_last()) {
            Some(slots) => if entries.last().0 < size {
                Some(slots.update(entries.last().0 as int, Some(entries.last().1)))
            } else {
                None
            },
            None => None,
        }
    }
}

impl AtcTable {
    /// Lists the occupied slots.
    pub fn from_slots(slots: &[Option<PmmuAtcEntry>]) -> (table: Self)
        ensures
            table.size == slots@.len(),
            table.entries@ == occupied(slots@),
    {
        let mut entries: Vec<(usize, PmmuAtcEntry)> = Vec::new();
        let mut i: usize = 0;
        while i < slots.len()
            invariant
                i <= slots@.len(),
                entries@ == occupied(slots@.take(i as int)),
            decreases slots@.len() - i,
        {
            assert(slots@.take(i + 1).drop_last() =~= slots@.take(i as int));
            if let Some(entry) = slots[i] {
                entries.push((i, entry));
            }
            i = i + 1;
        }
        assert(slots@.take(i as int) =~= slots@);
        AtcTable { size: slots.len(), entries }
    }

    /// Rebuilds the slots, unless an index is out of range.
    pub fn into_slots(self) -> (slots: Option<Vec<Option<PmmuAtcEntry>>>)
        ensures
            match slots {
                Some(slots) => restored(self.size as nat, self.entries@) == Some(slots@),
                None => restored(self.size as nat, self.entries@) is None,
            },
    {
        let mut slots: Vec<Option<PmmuAtcEntry>> = Vec::new();
        slots.resize(self.size, None);
        assert(slots@ =~= Seq::new(self.size as nat, |i: int| None::<PmmuAtcEntry>));
        let mut i: usize = 0;
        while i < self.entries.len()
            invariant
                i <= self.entries@.len(),
                slots@.len() == self.size,
                restored(self.size as nat, self.entries@.take(i as int)) == Some(slots@),
            decreases self.entries@.len() - i,
        {
            let (index, entry) = self.entries[i];
            assert(self.entries@.take(i + 1).drop_last() =~= self.entries@.take(i as int));
            if index >= slots.len() {
                proof {
                    lemma_spoilt(self.size as nat, self.entries@, i as int);
                }
                return None;
            }
            slots[index] = Some(entry);
            i = i + 1;
        }
        assert(self.entries@.take(i as int) =~= self.entries@);
        Some(slots)
    }
}

/// An index out of range spoils the table wherever it stands.
proof fn lemma_spoilt(size: nat, entries: Seq<(usize, PmmuAtcEntry)>, at: int)
    requires
        0 <= at < entries.len(),
        entries[at].0 >= size,
    ensures
        restored(size, entries) is None,
    decreases entries.len(),
{
    if at < entries.len() - 1 {
        lemma_spoilt(size, entries.drop_last(), at);
    }
}

/// The occupied slots of a prefix all lie in it.
proof fn lemma_occupied_restores(slots: Seq<Option<PmmuAtcEntry>>, size: nat)
    requires
        slots.len() <= size <= usize::MAX,
    ensures
        restored(size, occupied(slots)) == Some(
            slots + Seq::new((size - slots.len()) as nat, |i: int| None::<PmmuAtcEntry>),
        ),
    decreases slots.len(),
{
    let tail = Seq::new((size - slots.len()) as nat, |i: int| None::<PmmuAtcEntry>);
    if slots.len() == 0 {
        assert(slots + tail =~= tail);
    } else {
        lemma_occupied_restores(slots.drop_last(), size);
        let longer = Seq::new((size - slots.len() + 1) as nat, |i: int| None::<PmmuAtcEntry>);
        match slots.last() {
            Some(entry) => {
                assert(occupied(slots).drop_last() =~= occupied(slots.drop_last()));
                assert((slots.drop_last() + longer).update(slots.len() - 1, Some(entry))
                    =~= slots + tail);
            },
            None => {
                assert(slots.drop_last() + longer =~= slots + tail);
            },
        }
    }
}

/// Saving a cache and restoring it gives the same cache back.
pub proof fn law_slots_round_trip(slots: Seq<Option<PmmuAtcEntry>>)
    requires
        slots.len() <= usize::MAX,
    ensures
        restored(slots.len(), occupied(slots)) == Some(slots),
{
    lemma_occupied_restores(slots, slots.len());
    assert(slots + Seq::new(0, |i: int| None::<PmmuAtcEntry>) =~= slots);
}

/// The saved entries are the occupied slots, each once, in the order of their indices.
pub proof fn law_saved_entries_are_the_occupied_slots(
    slots: Seq<Option<PmmuAtcEntry>>,
    index: usize,
    entry: PmmuAtcEntry,
)
    requires
        slots.len() <= usize::MAX,
    ensures
        occupied(slots).contains((index, entry)) <==> index < slots.len() && slots[index as int]
            == Some(entry),
        forall|i: int, j: int|
            0 <= i < j < occupied(slots).len() ==> (#[trigger] occupied(slots)[i]).0 < (
            #[trigger] occupied(slots)[j]).0,
        forall|i: int| 0 <= i < occupied(slots).len() ==> (#[trigger] occupied(slots)[i]).0 < slots.len(),
    decreases slots.len(),
{
    let entries = occupied(slots);
    if slots.len() > 0 {
        let shorter = slots.drop_last();
        let before = occupied(shorter);
        law_saved_entries_are_the_occupied_slots(shorter, index, entry);
        if let Some(last) = slots.last() {
            let added = ((slots.len() - 1) as usize, last);
            assert(entries == before.push(added));
            if before.contains((index, entry)) {
                let k = choose|k: int| 0 <= k < before.len() && before[k] == (index, entry);
                assert(entries[k] == (index, entry));
            }
            if entries.contains((index, entry)) {
                let k = choose|k: int| 0 <= k < entries.len() && entries[k] == (index, entry);
                if k < before.len() {
                    assert(before[k] == (index, entry));
                }
            }
            assert(entries[before.len() as int] == added);
            assert forall|i: int, j: int| 0 <= i < j < entries.len() implies (
            #[trigger] entries[i]).0 < (#[trigger] entries[j]).0 by {
                assert(entries[i] == before[i]);
                if j < before.len() {
                    assert(entries[j] == before[j]);
                }
            }
            assert forall|i: int| 0 <= i < entries.len() implies (#[trigger] entries[i]).0
                < slots.len() by {
                if i < before.len() {
                    assert(entries[i] == before[i]);
                }
            }
        } else {
            assert(entries == before);
        }
    }
}

/// A table is restored exactly if all its indices are in range. A slot holds the last entry with its
/// index, and without one it is empty.
pub proof fn law_restored_slots_hold_the_last_entries(
    size: nat,
    entries: Seq<(usize, PmmuAtcEntry)>,
    index: int,
)
    requires
        0 <= index < size,
    ensures
        match restored(size, entries) {
            None => exists|i: int| 0 <= i < entries.len() && (#[trigger] entries[i]).0 >= size,
            Some(slots) => {
                &&& forall|i: int| 0 <= i < entries.len() ==> (#[trigger] entries[i]).0 < size
                &&& slots.len() == size
                &&& match slots[index] {
                    Some(entry) => exists|i: int|
                        0 <= i < entries.len() && #[trigger] entries[i] == (index as usize, entry)
                            && forall|j: int|
                            i < j < entries.len() ==> (#[trigger] entries[j]).0 != index,
                    None => forall|i: int|
                        0 <= i < entries.len() ==> (#[trigger] entries[i]).0 != index,
                }
            },
        },
    decreases entries.len(),
{
    if entries.len() > 0 {
        let shorter = entries.drop_last();
        let last = entries.last();
        law_restored_slots_hold_the_last_entries(size, shorter, index);
        assert(entries[entries.len() - 1] == last);
        match restored(size, shorter) {
            None => {
                let i = choose|i: int| 0 <= i < shorter.len() && (#[trigger] shorter[i]).0 >= size;
                assert(entries[i].0 >= size);
            },
            Some(slots) => {
                if last.0 < size {
                    assert forall|i: int| 0 <= i < entries.len() implies (
                    #[trigger] entries[i]).0 < size by {
                        if i < shorter.len() {
                            assert(shorter[i] == entries[i]);
                        }
                    }
                    if last.0 == index {
                        assert(entries[entries.len() - 1] == (index as usize, last.1));
                    } else {
                        match slots[index] {
                            Some(entry) => {
                                let i = choose|i: int|
                                    0 <= i < shorter.len() && #[trigger] shorter[i] == (
                                        index as usize,
                                        entry,
                                    ) && forall|j: int|
                                        i < j < shorter.len() ==> (#[trigger] shorter[j]).0
                                            != index;
                                assert(entries[i] == (index as usize, entry));
                                assert forall|j: int| i < j < entries.len() implies (
                                #[trigger] entries[j]).0 != index by {
                                    if j < shorter.len() {
                                        assert(shorter[j] == entries[j]);
                                    }
                                }
                            },
                            None => {
                                assert forall|i: int| 0 <= i < entries.len() implies (
                                #[trigger] entries[i]).0 != index by {
                                    if i < shorter.len() {
                                        assert(shorter[i] == entries[i]);
                                    }
                                }
                            },
                        }
                    }
                }
            },
        }
    }
}

} // verus!
