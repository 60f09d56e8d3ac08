//! How the scrap lies in memory, in numbers.

use vstd::prelude::*;

use crate::util::bytes::law_long_words_are_big_endian;
use crate::util::scrap::{
    first_text, inspected_scrap, scrap_entries, scrap_text, text_kind, ScrapEntry, ScrapError,
};

verus! {

/// The number that four bytes hold, the most significant first.
pub open spec fn number_at(bytes: Seq<u8>, at: int) -> int {
    bytes[at] * 0x100_0000 + bytes[at + 1] * 0x1_0000 + bytes[at + 2] * 0x100 + bytes[at + 3]
}

/// Whether an entry of a scrap goes from one place to another: four bytes of type, four bytes that
/// hold the length of its payload, the payload, and one more byte if the length is odd.
pub open spec fn entry_spans(scrap: Seq<u8>, from: int, to: int) -> bool {
    let length = number_at(scrap, from + 4);
    &&& 0 <= from
    &&& from + 8 <= scrap.len()
    &&& to == from + 8 + length + length % 2
    &&& to <= scrap.len()
}

/// Whether a scrap falls into entries at some places, from its start to its end.
pub open spec fn falls_apart(scrap: Seq<u8>, places: Seq<int>) -> bool {
    &&& places.len() >= 1
    &&& places[0] == 0
    &&& places.last() == scrap.len()
    &&& forall|i: int|
        0 <= i < places.len() - 1 ==> #[trigger] entry_spans(scrap, places[i], places[i + 1])
}

/// Whether the entry at a place is text: its type is "TEXT".
pub open spec fn text_at(scrap: Seq<u8>, at: int) -> bool {
    scrap[at] == 84 && scrap[at + 1] == 69 && scrap[at + 2] == 88 && scrap[at + 3] == 84
}

/// Whether the entry of a number is the first text.
pub open spec fn first_text_is(scrap: Seq<u8>, places: Seq<int>, k: int) -> bool {
    &&& 0 <= k < places.len() - 1
    &&& text_at(scrap, places[k])
    &&& forall|i: int| 0 <= i < k ==> !text_at(scrap, #[trigger] places[i])
}

/// Whether a reading of a scrap is what its entries say: the payload of the first text, and where
/// it lies. It is malformed if it does not fall into entries.
pub open spec fn reading_means(
    scrap: Seq<u8>,
    base: int,
    result: Result<(u32, Seq<u8>), ScrapError>,
) -> bool {
    if exists|places: Seq<int>| falls_apart(scrap, places) {
        let places = choose|places: Seq<int>| falls_apart(scrap, places);
        if exists|k: int| first_text_is(scrap, places, k) {
            let k = choose|k: int| first_text_is(scrap, places, k);
            let start = places[k] + 8;
            let length = number_at(scrap, places[k] + 4);
            if base + start > 0xFFFF_FFFF {
                result == Err::<(u32, Seq<u8>), ScrapError>(ScrapError::Malformed)
            } else {
                &&& result matches Ok((address, payload))
                &&& address == base + start
                &&& payload == scrap.subrange(start, start + length)
            }
        } else {
            result == Err::<(u32, Seq<u8>), ScrapError>(ScrapError::NoText)
        }
    } else {
        result == Err::<(u32, Seq<u8>), ScrapError>(ScrapError::Malformed)
    }
}

/// Whether an inspection of memory finds what low memory and the scrap say. The state at 0x96A is
/// negative if the scrap is on disk, 0x960 holds its size and 0x964 its handle, which holds its
/// address; both are taken under the mask.
pub open spec fn scrap_means(
    mem: Seq<u8>,
    limit: usize,
    mask: u32,
    result: Result<(u32, Seq<u8>), ScrapError>,
) -> bool {
    let size = number_at(mem, 0x960);
    let handle = (number_at(mem, 0x964) as u32) & mask;
    let base = (number_at(mem, handle as int) as u32) & mask;
    if mem.len() < 0x96C {
        result == Err::<(u32, Seq<u8>), ScrapError>(ScrapError::Unreadable)
    } else if mem[0x96A] > 127 {
        result == Err::<(u32, Seq<u8>), ScrapError>(ScrapError::Nonresident)
    } else if size == 0 {
        result == Err::<(u32, Seq<u8>), ScrapError>(ScrapError::Empty)
    } else if size > limit {
        result == Err::<(u32, Seq<u8>), ScrapError>(ScrapError::LimitExceeded)
    } else if handle == 0 {
        result == Err::<(u32, Seq<u8>), ScrapError>(ScrapError::Malformed)
    } else if handle + 4 > mem.len() {
        result == Err::<(u32, Seq<u8>), ScrapError>(ScrapError::Unreadable)
    } else if base == 0 || base + size > usize::MAX {
        result == Err::<(u32, Seq<u8>), ScrapError>(ScrapError::Malformed)
    } else if base + size > mem.len() {
        result == Err::<(u32, Seq<u8>), ScrapError>(ScrapError::Unreadable)
    } else {
        reading_means(mem.subrange(base as int, base + size), base as int, result)
    }
}

/// Where an entry that was read ends, with its padding.
spec fn end_of(scrap: Seq<u8>, entry: ScrapEntry) -> int {
    let length = number_at(scrap, entry.start - 4);
    entry.start + length + length % 2
}

/// Whether an entry that was read is the one that lies before its payload.
spec fn entry_lies(scrap: Seq<u8>, entry: ScrapEntry) -> bool {
    &&& entry_spans(scrap, entry.start - 8, end_of(scrap, entry))
    &&& entry.kind == scrap.subrange(entry.start - 8, entry.start - 4)
    &&& entry.payload == scrap.subrange(
        entry.start,
        entry.start + number_at(scrap, entry.start - 4),
    )
}

/// Whether the next entry, or the end of the scrap, follows on one.
spec fn followed(scrap: Seq<u8>, entries: Seq<ScrapEntry>, i: int) -> bool {
    end_of(scrap, entries[i]) == if i + 1 < entries.len() {
        entries[i + 1].start - 8
    } else {
        scrap.len() as int
    }
}

/// Entries that were read lie one after the other.
proof fn lemma_entries_lie(scrap: Seq<u8>, position: int)
    requires
        0 <= position <= scrap.len(),
    ensures
        scrap_entries(scrap.skip(position), position) matches Some(entries) ==> {
            &&& entries.len() == 0 ==> position == scrap.len()
            &&& entries.len() > 0 ==> entries[0].start == position + 8
            &&& forall|i: int| 0 <= i < entries.len() ==> entry_lies(scrap, #[trigger] entries[i])
            &&& forall|i: int| 0 <= i < entries.len() ==> #[trigger] followed(scrap, entries, i)
        },
    decreases scrap.len() - position,
{
    let rest = scrap.skip(position);
    if let Some(entries) = scrap_entries(rest, position) {
        if rest.len() > 0 {
            law_long_words_are_big_endian(rest[4], rest[5], rest[6], rest[7]);
            let length = number_at(scrap, position + 4);
            let next = 8 + length + length % 2;
            assert(rest.skip(next) =~= scrap.skip(position + next));
            lemma_entries_lie(scrap, position + next);
            let later = scrap_entries(rest.skip(next), position + next)->0;
            let first = entries[0];
            assert(first.kind =~= scrap.subrange(position, position + 4));
            assert(first.payload =~= scrap.subrange(position + 8, position + 8 + length));
            assert(entry_lies(scrap, first));
            assert forall|i: int| 0 <= i < entries.len() implies entry_lies(
                scrap,
                #[trigger] entries[i],
            ) by {
                if i > 0 {
                    assert(entries[i] == later[i - 1]);
                }
            }
            assert forall|i: int| 0 <= i < entries.len() implies #[trigger] followed(
                scrap,
                entries,
                i,
            ) by {
                if i > 0 {
                    assert(entries[i] == later[i - 1]);
                    assert(followed(scrap, later, i - 1));
                    if i + 1 < entries.len() {
                        assert(entries[i + 1] == later[i]);
                    }
                } else if entries.len() > 1 {
                    assert(entries[1] == later[0]);
                }
            }
        }
    }
}

/// A scrap that falls into entries from a place on is read as such.
proof fn lemma_reads(scrap: Seq<u8>, places: Seq<int>, i: int)
    requires
        falls_apart(scrap, places),
        0 <= i < places.len(),
        0 <= places[i] <= scrap.len(),
    ensures
        scrap_entries(scrap.skip(places[i]), places[i]) matches Some(entries) && entries.len()
            == places.len() - 1 - i && forall|j: int|
            0 <= j < entries.len() ==> (#[trigger] entries[j]).start == places[i + j] + 8,
    decreases places.len() - i,
{
    let rest = scrap.skip(places[i]);
    if i + 1 < places.len() {
        assert(entry_spans(scrap, places[i], places[i + 1]));
        law_long_words_are_big_endian(rest[4], rest[5], rest[6], rest[7]);
        let length = number_at(scrap, places[i] + 4);
        let next = 8 + length + length % 2;
        assert(rest.skip(next) =~= scrap.skip(places[i + 1]));
        lemma_reads(scrap, places, i + 1);
        let later = scrap_entries(scrap.skip(places[i + 1]), places[i + 1])->0;
        let entries = scrap_entries(rest, places[i])->0;
        assert forall|j: int| 0 <= j < entries.len() implies (#[trigger] entries[j]).start
            == places[i + j] + 8 by {
            if j > 0 {
                assert(entries[j] == later[j - 1]);
            }
        }
    } else {
        assert(rest.len() == 0);
    }
}

/// The first text among entries.
proof fn lemma_first_text_found(entries: Seq<ScrapEntry>)
    ensures
        match first_text(entries) {
            Some(entry) => exists|k: int|
                0 <= k < entries.len() && #[trigger] entries[k] == entry && entry.kind
                    == text_kind() && forall|i: int|
                    0 <= i < k ==> (#[trigger] entries[i]).kind != text_kind(),
            None => forall|i: int|
                0 <= i < entries.len() ==> (#[trigger] entries[i]).kind != text_kind(),
        },
    decreases entries.len(),
{
    if entries.len() > 0 {
        let shorter = entries.drop_last();
        lemma_first_text_found(shorter);
        assert(entries[entries.len() - 1] == entries.last());
        match first_text(shorter) {
            Some(entry) => {
                let k = choose|k: int|
                    0 <= k < shorter.len() && #[trigger] shorter[k] == entry && entry.kind
                        == text_kind() && forall|i: int|
                        0 <= i < k ==> (#[trigger] shorter[i]).kind != text_kind();
                assert(entries[k] == entry);
                assert forall|i: int| 0 <= i < k implies (#[trigger] entries[i]).kind
                    != text_kind() by {
                    assert(shorter[i] == entries[i]);
                }
            },
            None => {
                assert forall|i: int| 0 <= i < entries.len() - 1 implies (
                #[trigger] entries[i]).kind != text_kind() by {
                    assert(shorter[i] == entries[i]);
                }
            },
        }
    }
}

/// The entry of a number, among those that were read of a scrap that falls apart.
proof fn lemma_entry_read(scrap: Seq<u8>, places: Seq<int>, i: int)
    requires
        falls_apart(scrap, places),
        0 <= i < places.len() - 1,
    ensures
        scrap_entries(scrap, 0) matches Some(entries) && entries.len() == places.len() - 1 && {
            let entry = entries[i];
            &&& entry.start == places[i] + 8
            &&& entry.kind == text_kind() <==> text_at(scrap, places[i])
            &&& entry.payload == scrap.subrange(
                places[i] + 8,
                places[i] + 8 + number_at(scrap, places[i] + 4),
            )
        },
{
    assert(scrap.skip(0) =~= scrap);
    lemma_entries_lie(scrap, 0);
    lemma_reads(scrap, places, 0);
    let entries = scrap_entries(scrap, 0)->0;
    let entry = entries[i];
    let at = places[i];
    assert(entry.start == places[0 + i] + 8);
    assert(entry_lies(scrap, entry));
    assert(entry.kind.len() == 4);
    assert(entry.kind[0] == scrap[at] && entry.kind[1] == scrap[at + 1] && entry.kind[2] == scrap[at
        + 2] && entry.kind[3] == scrap[at + 3]);
    if text_at(scrap, at) {
        assert(entry.kind =~= text_kind());
    }
}

/// The places of entries that were read.
proof fn lemma_places(scrap: Seq<u8>)
    requires
        scrap_entries(scrap, 0) is Some,
    ensures
        exists|places: Seq<int>| falls_apart(scrap, places),
{
    let entries = scrap_entries(scrap, 0)->0;
    assert(scrap.skip(0) =~= scrap);
    lemma_entries_lie(scrap, 0);
    let places = Seq::new(
        entries.len() + 1,
        |i: int|
            if i < entries.len() {
                entries[i].start - 8
            } else {
                scrap.len() as int
            },
    );
    assert forall|i: int| 0 <= i < places.len() - 1 implies #[trigger] entry_spans(
        scrap,
        places[i],
        places[i + 1],
    ) by {
        assert(entry_lies(scrap, entries[i]));
        assert(followed(scrap, entries, i));
    }
    assert(falls_apart(scrap, places));
}

/// The number of the first text entry.
proof fn lemma_first_text_place(scrap: Seq<u8>, places: Seq<int>, k: int)
    requires
        falls_apart(scrap, places),
        first_text_is(scrap, places, k),
    ensures
        scrap_entries(scrap, 0) matches Some(entries) && first_text(entries) == Some(entries[k]),
{
    lemma_entry_read(scrap, places, k);
    let entries = scrap_entries(scrap, 0)->0;
    lemma_first_text_found(entries);
    if first_text(entries) is None {
        assert(entries[k].kind != text_kind());
    } else {
        let entry = first_text(entries)->0;
        let found = choose|k: int|
            0 <= k < entries.len() && #[trigger] entries[k] == entry && entry.kind == text_kind()
                && forall|i: int| 0 <= i < k ==> (#[trigger] entries[i]).kind != text_kind();
        lemma_entry_read(scrap, places, found);
        if found < k {
            let _ = places[found];
        } else if k < found {
            let _ = entries[k];
        }
    }
}

/// Without a text entry there is no text.
proof fn lemma_no_text_place(scrap: Seq<u8>, places: Seq<int>)
    requires
        falls_apart(scrap, places),
        forall|k: int| !first_text_is(scrap, places, k),
    ensures
        scrap_entries(scrap, 0) matches Some(entries) && first_text(entries) is None,
{
    assert(scrap.skip(0) =~= scrap);
    lemma_reads(scrap, places, 0);
    let entries = scrap_entries(scrap, 0)->0;
    lemma_first_text_found(entries);
    if first_text(entries) is Some {
        let entry = first_text(entries)->0;
        let found = choose|k: int|
            0 <= k < entries.len() && #[trigger] entries[k] == entry && entry.kind == text_kind()
                && forall|i: int| 0 <= i < k ==> (#[trigger] entries[i]).kind != text_kind();
        lemma_entry_read(scrap, places, found);
        assert forall|i: int| 0 <= i < found implies !text_at(scrap, #[trigger] places[i]) by {
            lemma_entry_read(scrap, places, i);
            let _ = entries[i];
        }
        assert(first_text_is(scrap, places, found));
    }
}

/// What is read of a scrap is what its entries say.
proof fn lemma_reading_means(scrap: Seq<u8>, base: int)
    requires
        0 <= base,
    ensures
        reading_means(scrap, base, scrap_text(scrap, base)),
{
    if exists|places: Seq<int>| falls_apart(scrap, places) {
        let places = choose|places: Seq<int>| falls_apart(scrap, places);
        if exists|k: int| first_text_is(scrap, places, k) {
            let k = choose|k: int| first_text_is(scrap, places, k);
            lemma_first_text_place(scrap, places, k);
            lemma_entry_read(scrap, places, k);
            assert(entry_spans(scrap, places[k], places[k + 1]));
        } else {
            lemma_no_text_place(scrap, places);
        }
    } else if scrap_entries(scrap, 0) is Some {
        lemma_places(scrap);
    }
}

/// Inspecting the scrap finds what low memory and the scrap say, byte by byte.
pub proof fn law_scrap_inspection_means(mem: Seq<u8>, limit: usize, mask: u32)
    ensures
        scrap_means(mem, limit, mask, inspected_scrap(mem, limit, mask)),
{
    if mem.len() >= 0x96C {
        law_long_words_are_big_endian(mem[0x960], mem[0x961], mem[0x962], mem[0x963]);
        law_long_words_are_big_endian(mem[0x964], mem[0x965], mem[0x966], mem[0x967]);
        let handle = ((number_at(mem, 0x964) as u32) & mask) as int;
        if handle + 4 <= mem.len() {
            law_long_words_are_big_endian(
                mem[handle],
                mem[handle + 1],
                mem[handle + 2],
                mem[handle + 3],
            );
            let base = ((number_at(mem, handle) as u32) & mask) as int;
            let size = number_at(mem, 0x960);
            if base + size <= mem.len() {
                lemma_reading_means(mem.subrange(base, base + size), base);
            }
        }
    }
}

} // verus!
