//! Read-only inspection of the resident scrap of the classic Mac OS Scrap Manager.

use vstd::prelude::*;
use vstd::slice::slice_subrange;

use crate::util::bytes::{
    lemma_long_round_trip, long_byte0, long_byte1, long_byte2, long_byte3, long_from_bytes,
};
use crate::util::mac::{host_text, macroman_to_utf8};

verus! {

/// Where low memory holds the scrap's size.
pub const SCRAP_SIZE: usize = 0x960;

/// Where low memory holds the handle of the scrap.
pub const SCRAP_HANDLE: usize = 0x964;

/// Where low memory holds the state of the scrap, negative when it is on disk.
pub const SCRAP_STATE: usize = 0x96A;

/// The largest scrap that is copied to the host.
pub const COPY_LIMIT: usize = 0x10_0000;

/// A resident TEXT payload, without encoding or newline normalization.
#[derive(Debug, PartialEq, Eq)]
pub struct ScrapText<'a> {
    pub address: u32,
    pub bytes: &'a [u8],
}

/// Why resident TEXT could not be returned. No guest routine is called.
#[derive(Debug, Clone, Copy, PartialEq, Eq, Structural)]
pub enum ScrapError {
    Empty,
    Nonresident,
    NoText,
    LimitExceeded,
    Unreadable,
    Malformed,
}

/// One entry of a scrap: its type, where its payload starts in the scrap, and its payload.
pub ghost struct ScrapEntry {
    pub kind: Seq<u8>,
    pub start: int,
    pub payload: Seq<u8>,
}

/// The type of text entries.
pub open spec fn text_kind() -> Seq<u8> {
    seq![0x54u8, 0x45, 0x58, 0x54]
}

/// The long word at an address, if memory reaches so far.
pub open spec fn long_at(mem: Seq<u8>, at: int) -> Option<u32> {
    if 0 <= at && at + 4 <= mem.len() {
        Some(long_from_bytes(mem[at], mem[at + 1], mem[at + 2], mem[at + 3]))
    } else {
        None
    }
}

/// The entries of a scrap from some place in it on, if they fill the rest exactly. An entry is a
/// type of four bytes, the length of the payload, the payload, and padding to an even length.
pub open spec fn scrap_entries(rest: Seq<u8>, position: int) -> Option<Seq<ScrapEntry>>
    decreases rest.len(),
{
    if rest.len() == 0 {
        Some(Seq::empty())
    } else if rest.len() < 8 {
        None
    } else {
        let length = long_from_bytes(rest[4], rest[5], rest[6], rest[7]) as int;
        let next = 8 + length + length % 2;
        if next > rest.len() {
            None
        } else {
            match scrap_entries(rest.skip(next), position + next) {
                Some(entries) => Some(
                    seq![
                        ScrapEntry {
                            kind: rest.take(4),
                            start: position + 8,
                            payload: rest.subrange(8, 8 + length),
                        },
                    ] + entries,
                ),
                None => None,
            }
        }
    }
}

/// The first text entry.
pub open spec fn first_text(entries: Seq<ScrapEntry>) -> Option<ScrapEntry>
    decreases entries.len(),
{
    if entries.len() == 0 {
        None
    } else {
        match first_text(entries.drop_last()) {
            Some(entry) => Some(entry),
            None => if entries.last().kind == text_kind() {
                Some(entries.last())
            } else {
                None
            },
        }
    }
}

/// The text of a scrap at an address: the address of its payload, and the payload.
pub open spec fn scrap_text(scrap: Seq<u8>, base: int) -> Result<(u32, Seq<u8>), ScrapError> {
    match scrap_entries(scrap, 0) {
        None => Err(ScrapError::Malformed),
        Some(entries) => match first_text(entries) {
            None => Err(ScrapError::NoText),
            Some(entry) => if base + entry.start > u32::MAX {
                Err(ScrapError::Malformed)
            } else {
                Ok(((base + entry.start) as u32, entry.payload))
            },
        },
    }
}

/// What inspection finds in memory.
pub open spec fn inspected_scrap(mem: Seq<u8>, limit: usize, mask: u32) -> Result<
    (u32, Seq<u8>),
    ScrapError,
> {
    if mem.len() < SCRAP_STATE + 2 {
        Err(ScrapError::Unreadable)
    } else if mem[SCRAP_STATE as int] >= 0x80 {
        Err(ScrapError::Nonresident)
    } else {
        let size = long_at(mem, SCRAP_SIZE as int)->0;
        let handle = long_at(mem, SCRAP_HANDLE as int)->0 & mask;
        if size == 0 {
            Err(ScrapError::Empty)
        } else if size > limit {
            Err(ScrapError::LimitExceeded)
        } else if handle == 0 {
            Err(ScrapError::Malformed)
        } else {
            match long_at(mem, handle as int) {
                None => Err(ScrapError::Unreadable),
                Some(pointer) => {
                    let base = pointer & mask;
                    if base == 0 {
                        Err(ScrapError::Malformed)
                    } else if base + size > usize::MAX {
                        Err(ScrapError::Malformed)
                    } else if base + size > mem.len() {
                        Err(ScrapError::Unreadable)
                    } else {
                        scrap_text(mem.subrange(base as int, base + size), base as int)
                    }
                },
            }
        }
    }
}

/// The text that a result stands for.
pub open spec fn found_text(result: Result<ScrapText<'_>, ScrapError>) -> Result<
    (u32, Seq<u8>),
    ScrapError,
> {
    match result {
        Ok(text) => Ok((text.address, text.bytes@)),
        Err(error) => Err(error),
    }
}

/// Read the long word at an address.
fn read_long(mem: &[u8], at: usize) -> (word: Option<u32>)
    ensures
        word == long_at(mem@, at as int),
{
    if at < mem.len() && mem.len() - at >= 4 {
        Some(long_from_bytes(mem[at], mem[at + 1], mem[at + 2], mem[at + 3]))
    } else {
        None
    }
}

/// Find the text of a scrap: where its payload starts, and the payload.
fn find_text(scrap: &[u8]) -> (found: Result<Option<(usize, &[u8])>, ScrapError>)
    ensures
        match scrap_entries(scrap@, 0) {
            None => found == Err::<Option<(usize, &[u8])>, ScrapError>(ScrapError::Malformed),
            Some(entries) => match first_text(entries) {
                None => found == Ok::<Option<(usize, &[u8])>, ScrapError>(None),
                Some(entry) => {
                    &&& found matches Ok(Some((start, payload)))
                    &&& start == entry.start
                    &&& start <= scrap@.len()
                    &&& payload@ == entry.payload
                },
            },
        },
{
    let size: usize = scrap.len();
    let mut offset: usize = 0;
    let mut text: Option<(usize, &[u8])> = None;
    let ghost mut seen: Seq<ScrapEntry> = Seq::empty();
    assert(scrap@.skip(0) =~= scrap@);
    assert(match scrap_entries(scrap@, 0) {
        Some(entries) => entries =~= seen + entries,
        None => true,
    });
    while offset < size
        invariant
            size == scrap@.len(),
            offset <= size,
            scrap_entries(scrap@, 0) == match scrap_entries(
                scrap@.skip(offset as int),
                offset as int,
            ) {
                Some(entries) => Some(seen + entries),
                None => None,
            },
            match first_text(seen) {
                None => text is None,
                Some(entry) => {
                    &&& text matches Some((start, payload))
                    &&& start == entry.start
                    &&& start <= size
                    &&& payload@ == entry.payload
                },
            },
        decreases size - offset,
    {
        let ghost rest = scrap@.skip(offset as int);
        if size - offset < 8 {
            return Err(ScrapError::Malformed);
        }
        let length: u32 = long_from_bytes(
            scrap[offset + 4],
            scrap[offset + 5],
            scrap[offset + 6],
            scrap[offset + 7],
        );
        let start: usize = offset + 8;
        let room: u64 = (size - start) as u64;
        if length as u64 + (length % 2) as u64 > room {
            return Err(ScrapError::Malformed);
        }
        let end: usize = start + length as usize;
        let payload = slice_subrange(scrap, start, end);
        let next: usize = end + (length % 2) as usize;
        let is_text = scrap[offset] == 0x54 && scrap[offset + 1] == 0x45 && scrap[offset + 2]
            == 0x58 && scrap[offset + 3] == 0x54;
        if is_text && text.is_none() {
            text = Some((start, payload));
        }
        proof {
            let entry = ScrapEntry {
                kind: rest.take(4),
                start: offset + 8,
                payload: rest.subrange(8, 8 + length),
            };
            assert(entry.payload =~= payload@);
            assert(is_text == (entry.kind =~= text_kind()));
            assert(rest.skip(next - offset) =~= scrap@.skip(next as int));
            let longer = seen.push(entry);
            assert(longer.drop_last() =~= seen);
            if let Some(entries) = scrap_entries(scrap@.skip(next as int), next as int) {
                assert(seen + (seq![entry] + entries) =~= longer + entries);
            }
            seen = longer;
        }
        offset = next;
    }
    proof {
        assert(scrap@.skip(offset as int) =~= Seq::empty());
        assert(seen + Seq::<ScrapEntry>::empty() =~= seen);
    }
    Ok(text)
}

/// Inspect backing RAM using an explicit 24- or 32-bit pointer mask.
///
/// The bound covers the entire encoded scrap, including unknown types and padding.
/// All entries are validated, even those after TEXT. The first TEXT entry wins.
pub fn inspect_scrap(mem: &[u8], limit: usize, mask: u32) -> (result: Result<
    ScrapText<'_>,
    ScrapError,
>)
    ensures
        found_text(result) == inspected_scrap(mem@, limit, mask),
{
    if mem.len() < SCRAP_STATE + 2 {
        return Err(ScrapError::Unreadable);
    }
    if mem[SCRAP_STATE] >= 0x80 {
        return Err(ScrapError::Nonresident);
    }
    let Some(size) = read_long(mem, SCRAP_SIZE) else {
        return Err(ScrapError::Unreadable);
    };
    if size == 0 {
        return Err(ScrapError::Empty);
    }
    if size as usize > limit {
        return Err(ScrapError::LimitExceeded);
    }
    let Some(handle) = read_long(mem, SCRAP_HANDLE) else {
        return Err(ScrapError::Unreadable);
    };
    let handle: u32 = handle & mask;
    if handle == 0 {
        return Err(ScrapError::Malformed);
    }
    let Some(pointer) = read_long(mem, handle as usize) else {
        return Err(ScrapError::Unreadable);
    };
    let base: u32 = pointer & mask;
    if base == 0 {
        return Err(ScrapError::Malformed);
    }
    let Some(end) = (base as usize).checked_add(size as usize) else {
        return Err(ScrapError::Malformed);
    };
    if end > mem.len() {
        return Err(ScrapError::Unreadable);
    }
    let scrap = slice_subrange(mem, base as usize, end);
    match find_text(scrap) {
        Err(error) => Err(error),
        Ok(None) => Err(ScrapError::NoText),
        Ok(Some((start, bytes))) => match base.checked_add(start as u32) {
            Some(address) => Ok(ScrapText { address, bytes }),
            None => Err(ScrapError::Malformed),
        },
    }
}

/// GUI convenience: normalize classic carriage returns when copying to the host.
pub fn read_scrap_text(mem: &[u8]) -> (text: Option<String>)
    ensures
        match inspected_scrap(mem@, COPY_LIMIT, u32::MAX) {
            Ok((_, bytes)) => text matches Some(copied) && copied@ == host_text(bytes),
            Err(_) => text is None,
        },
{
    match inspect_scrap(mem, COPY_LIMIT, u32::MAX) {
        Ok(text) => Some(macroman_to_utf8(text.bytes)),
        Err(_) => None,
    }
}

/// One part of a scrap to be written: its type and its payload.
pub ghost struct ScrapPart {
    pub kind: Seq<u8>,
    pub payload: Seq<u8>,
}

/// Whether a part can be written: its type has four bytes, and its length fits in a long word.
pub open spec fn writable(part: ScrapPart) -> bool {
    part.kind.len() == 4 && part.payload.len() <= u32::MAX
}

/// The bytes of a part, with a padding byte where its length is odd.
pub open spec fn encoded_part(part: ScrapPart, padding: u8) -> Seq<u8> {
    let length = part.payload.len() as u32;
    let header = part.kind + seq![
        long_byte0(length),
        long_byte1(length),
        long_byte2(length),
        long_byte3(length),
    ];
    if length % 2 == 0 {
        header + part.payload
    } else {
        (header + part.payload).push(padding)
    }
}

/// The bytes of a scrap with these parts.
pub open spec fn encoded_scrap(parts: Seq<ScrapPart>, padding: u8) -> Seq<u8>
    decreases parts.len(),
{
    if parts.len() == 0 {
        Seq::empty()
    } else {
        encoded_part(parts[0], padding) + encoded_scrap(parts.skip(1), padding)
    }
}

/// Whether entries that were read are the parts that were written.
pub open spec fn entries_are(entries: Seq<ScrapEntry>, parts: Seq<ScrapPart>) -> bool {
    &&& entries.len() == parts.len()
    &&& forall|i: int|
        0 <= i < parts.len() ==> (#[trigger] entries[i]).kind == parts[i].kind && entries[i].payload
            == parts[i].payload
}

/// A scrap reads back as the parts that it was written from, whatever pads them.
pub proof fn law_scrap_reads_back(parts: Seq<ScrapPart>, padding: u8, position: int)
    requires
        forall|i: int| 0 <= i < parts.len() ==> writable(#[trigger] parts[i]),
    ensures
        scrap_entries(encoded_scrap(parts, padding), position) matches Some(entries)
            && entries_are(entries, parts),
    decreases parts.len(),
{
    if parts.len() > 0 {
        let part = parts[0];
        let rest = parts.skip(1);
        let length = part.payload.len() as u32;
        let next: int = 8 + length + length % 2;
        let whole = encoded_scrap(parts, padding);
        let tail = encoded_scrap(rest, padding);
        law_scrap_reads_back(rest, padding, position + next);
        lemma_long_round_trip(length);
        assert(whole =~= encoded_part(part, padding) + tail);
        assert(whole.skip(next) =~= tail);
        assert(whole.take(4) =~= part.kind);
        assert(whole.subrange(8, 8 + length as int) =~= part.payload);
        assert(whole[4] == long_byte0(length) && whole[5] == long_byte1(length) && whole[6]
            == long_byte2(length) && whole[7] == long_byte3(length));
        let entries = scrap_entries(whole, position)->0;
        let others = scrap_entries(tail, position + next)->0;
        assert forall|i: int| 0 <= i < parts.len() implies (#[trigger] entries[i]).kind
            == parts[i].kind && entries[i].payload == parts[i].payload by {
            if i > 0 {
                assert(entries[i] == others[i - 1]);
                assert(parts[i] == rest[i - 1]);
            }
        }
    }
}

/// The first text entry is found at its index, and entries after it do not matter.
proof fn lemma_first_text(entries: Seq<ScrapEntry>, index: int)
    requires
        0 <= index < entries.len(),
        entries[index].kind == text_kind(),
        forall|i: int| 0 <= i < index ==> (#[trigger] entries[i]).kind != text_kind(),
    ensures
        first_text(entries) == Some(entries[index]),
    decreases entries.len(),
{
    let shorter = entries.drop_last();
    if index < entries.len() - 1 {
        lemma_first_text(shorter, index);
    } else {
        lemma_no_text(shorter);
    }
}

/// Entries without text have no first text.
proof fn lemma_no_text(entries: Seq<ScrapEntry>)
    requires
        forall|i: int| 0 <= i < entries.len() ==> (#[trigger] entries[i]).kind != text_kind(),
    ensures
        first_text(entries) is None,
    decreases entries.len(),
{
    if entries.len() > 0 {
        assert(entries.last() == entries[entries.len() - 1]);
        lemma_no_text(entries.drop_last());
    }
}

/// The text of a scrap is the payload of its first text part: parts of other types before it and
/// parts of any type after it do not matter.
pub proof fn law_first_text_wins(parts: Seq<ScrapPart>, index: int, padding: u8, base: int)
    requires
        forall|i: int| 0 <= i < parts.len() ==> writable(#[trigger] parts[i]),
        0 <= index < parts.len(),
        parts[index].kind == text_kind(),
        forall|i: int| 0 <= i < index ==> (#[trigger] parts[i]).kind != text_kind(),
        0 <= base,
        base + encoded_scrap(parts, padding).len() <= u32::MAX,
    ensures
        scrap_text(encoded_scrap(parts, padding), base) matches Ok((address, payload)) && payload
            == parts[index].payload && address == base + encoded_scrap(
            parts.take(index),
            padding,
        ).len() + 8,
{
    let scrap = encoded_scrap(parts, padding);
    law_scrap_reads_back(parts, padding, 0);
    let entries = scrap_entries(scrap, 0)->0;
    assert forall|i: int| 0 <= i < index implies (#[trigger] entries[i]).kind != text_kind() by {
        assert(entries[i].kind == parts[i].kind);
    }
    lemma_first_text(entries, index);
    lemma_entry_start(parts, index, padding, 0);
    lemma_encoded_longer(parts, index, padding);
}

/// Where the payload of a part starts.
proof fn lemma_entry_start(parts: Seq<ScrapPart>, index: int, padding: u8, position: int)
    requires
        forall|i: int| 0 <= i < parts.len() ==> writable(#[trigger] parts[i]),
        0 <= index < parts.len(),
    ensures
        scrap_entries(encoded_scrap(parts, padding), position)->0[index].start == position
            + encoded_scrap(parts.take(index), padding).len() + 8,
    decreases parts.len(),
{
    let part = parts[0];
    let rest = parts.skip(1);
    let length = part.payload.len() as u32;
    let next: int = 8 + length + length % 2;
    let whole = encoded_scrap(parts, padding);
    let tail = encoded_scrap(rest, padding);
    lemma_long_round_trip(length);
    law_scrap_reads_back(rest, padding, position + next);
    law_scrap_reads_back(parts, padding, position);
    assert(whole.skip(next) =~= tail);
    assert(whole[4] == long_byte0(length) && whole[5] == long_byte1(length) && whole[6]
        == long_byte2(length) && whole[7] == long_byte3(length));
    if index > 0 {
        lemma_entry_start(rest, index - 1, padding, position + next);
        assert(parts.take(index).skip(1) =~= rest.take(index - 1));
    } else {
        assert(parts.take(0) =~= Seq::empty());
    }
}

/// A scrap is longer than its parts before some part and that part's header.
proof fn lemma_encoded_longer(parts: Seq<ScrapPart>, index: int, padding: u8)
    requires
        forall|i: int| 0 <= i < parts.len() ==> writable(#[trigger] parts[i]),
        0 <= index < parts.len(),
    ensures
        encoded_scrap(parts.take(index), padding).len() + 8 <= encoded_scrap(parts, padding).len(),
    decreases parts.len(),
{
    if index > 0 {
        lemma_encoded_longer(parts.skip(1), index - 1, padding);
        assert(parts.take(index).skip(1) =~= parts.skip(1).take(index - 1));
    } else {
        assert(parts.take(0) =~= Seq::empty());
    }
}

} // verus!
