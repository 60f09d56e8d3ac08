//! Big-endian byte order of 68k memory.

use vstd::prelude::*;

verus! {

/// The long word that four bytes in memory order hold.
#[verifier::allow_in_spec]
pub fn long_from_bytes(b0: u8, b1: u8, b2: u8, b3: u8) -> u32
    returns
        ((b0 as u32) << 24) | ((b1 as u32) << 16) | ((b2 as u32) << 8) | (b3 as u32),
{
    ((b0 as u32) << 24) | ((b1 as u32) << 16) | ((b2 as u32) << 8) | (b3 as u32)
}

/// The byte of a long word that memory holds first.
#[verifier::allow_in_spec]
pub fn long_byte0(value: u32) -> u8
    returns
        ((value >> 24) & 0xFF) as u8,
{
    ((value >> 24) & 0xFF) as u8
}

/// The byte of a long word that memory holds second.
#[verifier::allow_in_spec]
pub fn long_byte1(value: u32) -> u8
    returns
        ((value >> 16) & 0xFF) as u8,
{
    ((value >> 16) & 0xFF) as u8
}

/// The byte of a long word that memory holds third.
#[verifier::allow_in_spec]
pub fn long_byte2(value: u32) -> u8
    returns
        ((value >> 8) & 0xFF) as u8,
{
    ((value >> 8) & 0xFF) as u8
}

/// The byte of a long word that memory holds last.
#[verifier::allow_in_spec]
pub fn long_byte3(value: u32) -> u8
    returns
        (value & 0xFF) as u8,
{
    (value & 0xFF) as u8
}

/// Splitting a long word into bytes and putting them together again changes nothing.
pub proof fn lemma_long_round_trip(value: u32)
    ensures
        long_from_bytes(
            long_byte0(value),
            long_byte1(value),
            long_byte2(value),
            long_byte3(value),
        ) == value,
{
    assert(((((value >> 24) & 0xFF) as u8) as u32) << 24 | ((((value >> 16) & 0xFF) as u8) as u32)
        << 16 | ((((value >> 8) & 0xFF) as u8) as u32) << 8 | (((value & 0xFF) as u8) as u32)
        == value) by (bit_vector);
}

/// Memory holds the most significant byte of a long word first.
pub proof fn law_long_words_are_big_endian(b0: u8, b1: u8, b2: u8, b3: u8)
    ensures
        ({
            let value = long_from_bytes(b0, b1, b2, b3);
            &&& value == b0 * 0x100_0000 + b1 * 0x1_0000 + b2 * 0x100 + b3
            &&& long_byte0(value) == b0 == value / 0x100_0000
            &&& long_byte1(value) == b1 == value / 0x1_0000 % 256
            &&& long_byte2(value) == b2 == value / 0x100 % 256
            &&& long_byte3(value) == b3 == value % 256
        }),
{
    let value = long_from_bytes(b0, b1, b2, b3);
    assert(value == b0 * 0x100_0000 + b1 * 0x1_0000 + b2 * 0x100 + b3 && b0 == value / 0x100_0000
        && b1 == value / 0x1_0000 % 256 && b2 == value / 0x100 % 256 && b3 == value % 256 && ((value
        >> 24) & 0xFF) as u8 == b0 && ((value >> 16) & 0xFF) as u8 == b1 && ((value >> 8)
        & 0xFF) as u8 == b2 && (value & 0xFF) as u8 == b3) by (bit_vector)
        requires
            value == ((b0 as u32) << 24) | ((b1 as u32) << 16) | ((b2 as u32) << 8) | (b3 as u32),
    ;
}

} // verus!
