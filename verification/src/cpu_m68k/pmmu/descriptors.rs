//! Layout of the descriptors in translation tables.

use vstd::prelude::*;

use crate::cpu_m68k::pmmu::walk::{decoded, DescriptorIndex, IndexLimit};

verus! {

/// Short format page descriptor.
#[derive(Debug, Clone, Copy, PartialEq, Eq, Structural)]
pub struct PmmuShortPageDescriptor(pub u32);

impl PmmuShortPageDescriptor {
    /// Page address, without its low eight bits.
    #[verifier::allow_in_spec]
    pub fn page_addr(self) -> u32
        returns
            (self.0 >> 8) & 0xffffff,
    {
        (self.0 >> 8) & 0xffffff
    }

    /// Descriptor type.
    #[verifier::allow_in_spec]
    pub fn dt(self) -> u8
        returns
            (self.0 & 0x3) as u8,
    {
        (self.0 & 0x3) as u8
    }

    /// Write protect.
    #[verifier::allow_in_spec]
    pub fn wp(self) -> bool
        returns
            (self.0 >> 2) & 1 == 1,
    {
        (self.0 >> 2) & 1 == 1
    }

    /// Used.
    #[verifier::allow_in_spec]
    pub fn u(self) -> bool
        returns
            (self.0 >> 3) & 1 == 1,
    {
        (self.0 >> 3) & 1 == 1
    }

    /// Modified.
    #[verifier::allow_in_spec]
    pub fn m(self) -> bool
        returns
            (self.0 >> 4) & 1 == 1,
    {
        (self.0 >> 4) & 1 == 1
    }

    /// Lock.
    #[verifier::allow_in_spec]
    pub fn l(self) -> bool
        returns
            (self.0 >> 5) & 1 == 1,
    {
        (self.0 >> 5) & 1 == 1
    }

    /// Cache inhibit.
    #[verifier::allow_in_spec]
    pub fn ci(self) -> bool
        returns
            (self.0 >> 6) & 1 == 1,
    {
        (self.0 >> 6) & 1 == 1
    }

    /// Globally shared.
    #[verifier::allow_in_spec]
    pub fn g(self) -> bool
        returns
            (self.0 >> 7) & 1 == 1,
    {
        (self.0 >> 7) & 1 == 1
    }
}

/// Long format page descriptor (type 1 and 2).
#[derive(Debug, Clone, Copy, PartialEq, Eq, Structural)]
pub struct PmmuLongPageDescriptor(pub u64);

impl PmmuLongPageDescriptor {
    /// The second long word in memory.
    #[verifier::allow_in_spec]
    pub fn lsl(self) -> u32
        returns
            (self.0 & 0xffffffff) as u32,
    {
        (self.0 & 0xffffffff) as u32
    }

    /// The first long word in memory.
    #[verifier::allow_in_spec]
    pub fn msl(self) -> u32
        returns
            ((self.0 >> 32) & 0xffffffff) as u32,
    {
        ((self.0 >> 32) & 0xffffffff) as u32
    }

    /// Page address, without its low eight bits.
    #[verifier::allow_in_spec]
    pub fn page_addr(self) -> u32
        returns
            ((self.0 >> 8) & 0xffffff) as u32,
    {
        ((self.0 >> 8) & 0xffffff) as u32
    }

    /// Descriptor type.
    #[verifier::allow_in_spec]
    pub fn dt(self) -> u8
        returns
            ((self.0 >> 32) & 0x3) as u8,
    {
        ((self.0 >> 32) & 0x3) as u8
    }

    /// Write protect.
    #[verifier::allow_in_spec]
    pub fn wp(self) -> bool
        returns
            (self.0 >> 34) & 1 == 1,
    {
        (self.0 >> 34) & 1 == 1
    }

    /// Used.
    #[verifier::allow_in_spec]
    pub fn u(self) -> bool
        returns
            (self.0 >> 35) & 1 == 1,
    {
        (self.0 >> 35) & 1 == 1
    }

    /// Modified.
    #[verifier::allow_in_spec]
    pub fn m(self) -> bool
        returns
            (self.0 >> 36) & 1 == 1,
    {
        (self.0 >> 36) & 1 == 1
    }

    /// Lock.
    #[verifier::allow_in_spec]
    pub fn l(self) -> bool
        returns
            (self.0 >> 37) & 1 == 1,
    {
        (self.0 >> 37) & 1 == 1
    }

    /// Cache inhibit.
    #[verifier::allow_in_spec]
    pub fn ci(self) -> bool
        returns
            (self.0 >> 38) & 1 == 1,
    {
        (self.0 >> 38) & 1 == 1
    }

    /// Globally shared.
    #[verifier::allow_in_spec]
    pub fn g(self) -> bool
        returns
            (self.0 >> 39) & 1 == 1,
    {
        (self.0 >> 39) & 1 == 1
    }

    /// Supervisor only.
    #[verifier::allow_in_spec]
    pub fn s(self) -> bool
        returns
            (self.0 >> 40) & 1 == 1,
    {
        (self.0 >> 40) & 1 == 1
    }

    /// Globally shared between tasks.
    #[verifier::allow_in_spec]
    pub fn sg(self) -> bool
        returns
            (self.0 >> 41) & 1 == 1,
    {
        (self.0 >> 41) & 1 == 1
    }

    /// Write access level.
    #[verifier::allow_in_spec]
    pub fn wal(self) -> u8
        returns
            ((self.0 >> 42) & 0x7) as u8,
    {
        ((self.0 >> 42) & 0x7) as u8
    }

    /// Read access level.
    #[verifier::allow_in_spec]
    pub fn ral(self) -> u8
        returns
            ((self.0 >> 45) & 0x7) as u8,
    {
        ((self.0 >> 45) & 0x7) as u8
    }

    /// Limit on the next index.
    #[verifier::allow_in_spec]
    pub fn limit(self) -> u16
        returns
            ((self.0 >> 48) & 0x7fff) as u16,
    {
        ((self.0 >> 48) & 0x7fff) as u16
    }

    /// The limit is a lower bound.
    #[verifier::allow_in_spec]
    pub fn lu(self) -> bool
        returns
            (self.0 >> 63) & 1 == 1,
    {
        (self.0 >> 63) & 1 == 1
    }
}

/// Short format table descriptor.
#[derive(Debug, Clone, Copy, PartialEq, Eq, Structural)]
pub struct PmmuShortTableDescriptor(pub u32);

impl PmmuShortTableDescriptor {
    /// Table address, without its low four bits.
    #[verifier::allow_in_spec]
    pub fn table_addr(self) -> u32
        returns
            (self.0 >> 4) & 0xfffffff,
    {
        (self.0 >> 4) & 0xfffffff
    }

    /// Descriptor type.
    #[verifier::allow_in_spec]
    pub fn dt(self) -> u8
        returns
            (self.0 & 0x3) as u8,
    {
        (self.0 & 0x3) as u8
    }

    /// Write protect.
    #[verifier::allow_in_spec]
    pub fn wp(self) -> bool
        returns
            (self.0 >> 2) & 1 == 1,
    {
        (self.0 >> 2) & 1 == 1
    }

    /// Used.
    #[verifier::allow_in_spec]
    pub fn u(self) -> bool
        returns
            (self.0 >> 3) & 1 == 1,
    {
        (self.0 >> 3) & 1 == 1
    }
}

/// Long format table descriptor.
#[derive(Debug, Clone, Copy, PartialEq, Eq, Structural)]
pub struct PmmuLongTableDescriptor(pub u64);

impl PmmuLongTableDescriptor {
    /// The second long word in memory.
    #[verifier::allow_in_spec]
    pub fn lsl(self) -> u32
        returns
            (self.0 & 0xffffffff) as u32,
    {
        (self.0 & 0xffffffff) as u32
    }

    /// The first long word in memory.
    #[verifier::allow_in_spec]
    pub fn msl(self) -> u32
        returns
            ((self.0 >> 32) & 0xffffffff) as u32,
    {
        ((self.0 >> 32) & 0xffffffff) as u32
    }

    /// Table address, without its low four bits.
    #[verifier::allow_in_spec]
    pub fn table_addr(self) -> u32
        returns
            ((self.0 >> 4) & 0xfffffff) as u32,
    {
        ((self.0 >> 4) & 0xfffffff) as u32
    }

    /// Descriptor type.
    #[verifier::allow_in_spec]
    pub fn dt(self) -> u8
        returns
            ((self.0 >> 32) & 0x3) as u8,
    {
        ((self.0 >> 32) & 0x3) as u8
    }

    /// Write protect.
    #[verifier::allow_in_spec]
    pub fn wp(self) -> bool
        returns
            (self.0 >> 34) & 1 == 1,
    {
        (self.0 >> 34) & 1 == 1
    }

    /// Used.
    #[verifier::allow_in_spec]
    pub fn u(self) -> bool
        returns
            (self.0 >> 35) & 1 == 1,
    {
        (self.0 >> 35) & 1 == 1
    }

    /// Supervisor only.
    #[verifier::allow_in_spec]
    pub fn s(self) -> bool
        returns
            (self.0 >> 40) & 1 == 1,
    {
        (self.0 >> 40) & 1 == 1
    }

    /// Globally shared between tasks.
    #[verifier::allow_in_spec]
    pub fn sg(self) -> bool
        returns
            (self.0 >> 41) & 1 == 1,
    {
        (self.0 >> 41) & 1 == 1
    }

    /// Write access level.
    #[verifier::allow_in_spec]
    pub fn wal(self) -> u8
        returns
            ((self.0 >> 42) & 0x7) as u8,
    {
        ((self.0 >> 42) & 0x7) as u8
    }

    /// Read access level.
    #[verifier::allow_in_spec]
    pub fn ral(self) -> u8
        returns
            ((self.0 >> 45) & 0x7) as u8,
    {
        ((self.0 >> 45) & 0x7) as u8
    }

    /// Limit on the next index.
    #[verifier::allow_in_spec]
    pub fn limit(self) -> u16
        returns
            ((self.0 >> 48) & 0x7fff) as u16,
    {
        ((self.0 >> 48) & 0x7fff) as u16
    }

    /// The limit is a lower bound.
    #[verifier::allow_in_spec]
    pub fn lu(self) -> bool
        returns
            (self.0 >> 63) & 1 == 1,
    {
        (self.0 >> 63) & 1 == 1
    }
}

/// The descriptor that two long words in memory order hold.
pub open spec fn joined(first: u32, second: u32) -> u64 {
    ((first as u64) << 32) | second as u64
}

/// A search reads a short descriptor by its layout.
pub proof fn law_short_descriptors_are_read_by_layout(
    level: u8,
    source: DescriptorIndex,
    index: u32,
    address: u32,
    word: u32,
    limit: Option<IndexLimit>,
)
    ensures
        ({
            let step = decoded(level, source, index, address, false, seq![word], limit);
            let page = PmmuShortPageDescriptor(word);
            let table = PmmuShortTableDescriptor(word);
            &&& step.descriptor_type == page.dt()
            &&& page.dt() == table.dt()
            &&& step.write_protected == page.wp()
            &&& page.wp() == table.wp()
            &&& step.used == page.u()
            &&& page.u() == table.u()
            &&& !step.supervisor_only
            &&& step.descriptor_type == 1 ==> {
                &&& step.target_address == Some(page.page_addr() << 8)
                &&& step.modified == page.m()
                &&& step.cache_inhibit == page.ci()
            }
            &&& step.descriptor_type >= 2 ==> step.target_address == Some(table.table_addr() << 4)
        }),
{
    assert(((word & 3 == 0) == ((word & 3) as u8 == 0)) && ((word & 3 == 1) == ((word & 3) as u8
        == 1)) && ((word & 3 == 2) == ((word & 3) as u8 == 2)) && (word & 3) as u8 <= 3 && ((word
        & 4 != 0) == ((word >> 2) & 1 == 1)) && ((word & 8 != 0) == ((word >> 3) & 1 == 1)) && ((
    word & 16 != 0) == ((word >> 4) & 1 == 1)) && ((word & 64 != 0) == ((word >> 6) & 1 == 1))
        && word & !255u32 == ((word >> 8) & 0xff_ffff) << 8 && word & !15u32 == ((word >> 4)
        & 0xfff_ffff) << 4) by (bit_vector);
}

/// A search reads a long descriptor by its layout.
pub proof fn law_long_descriptors_are_read_by_layout(
    level: u8,
    source: DescriptorIndex,
    index: u32,
    address: u32,
    first: u32,
    second: u32,
    limit: Option<IndexLimit>,
)
    ensures
        ({
            let step = decoded(level, source, index, address, true, seq![first, second], limit);
            let page = PmmuLongPageDescriptor(joined(first, second));
            let table = PmmuLongTableDescriptor(joined(first, second));
            &&& page.msl() == table.msl()
            &&& table.msl() == first
            &&& page.lsl() == table.lsl()
            &&& table.lsl() == second
            &&& step.descriptor_type == page.dt()
            &&& page.dt() == table.dt()
            &&& step.write_protected == page.wp()
            &&& page.wp() == table.wp()
            &&& step.used == page.u()
            &&& page.u() == table.u()
            &&& step.supervisor_only == page.s()
            &&& page.s() == table.s()
            &&& step.descriptor_type == 1 ==> {
                &&& step.target_address == Some(page.page_addr() << 8)
                &&& step.modified == page.m()
                &&& step.cache_inhibit == page.ci()
            }
            &&& step.descriptor_type >= 2 ==> {
                &&& step.target_address == Some(table.table_addr() << 4)
                &&& step.child_limit == Some(
                    IndexLimit { value: table.limit(), lower: table.lu() },
                )
            }
        }),
{
    let word = joined(first, second);
    assert(((first & 3 == 0) == (((word >> 32) & 3) as u8 == 0)) && ((first & 3 == 1) == (((word
        >> 32) & 3) as u8 == 1)) && ((first & 3 == 2) == (((word >> 32) & 3) as u8 == 2)) && ((word
        >> 32) & 3) as u8 <= 3 && ((first & 4 != 0) == ((word >> 34) & 1 == 1)) && ((first & 8
        != 0) == ((word >> 35) & 1 == 1)) && ((first & 16 != 0) == ((word >> 36) & 1 == 1)) && ((
    first & 64 != 0) == ((word >> 38) & 1 == 1)) && ((first & 0x100 != 0) == ((word >> 40) & 1
        == 1)) && second & !255u32 == (((word >> 8) & 0xff_ffff) as u32) << 8 && second & !15u32
        == (((word >> 4) & 0xfff_ffff) as u32) << 4 && ((word >> 32) & 0xffff_ffff) as u32 == first
        && (word & 0xffff_ffff) as u32 == second && ((first >> 16) & 0x7fff) as u16 == ((word >> 48)
        & 0x7fff) as u16 && ((first >> 31 != 0) == ((word >> 63) & 1 == 1))) by (bit_vector)
        requires
            word == ((first as u64) << 32) | second as u64,
    ;
}

/// The fields of short descriptors, by their bits: the type is in bits 0 and 1, then come WP, U, M, L,
/// CI and G. A page address lacks its low eight bits, a table address its low four.
pub proof fn law_short_descriptor_bits(word: u32)
    ensures
        ({
            let page = PmmuShortPageDescriptor(word);
            let table = PmmuShortTableDescriptor(word);
            &&& page.dt() == table.dt() == word % 4
            &&& page.wp() == (word / 4 % 2 == 1)
            &&& table.wp() == (word / 4 % 2 == 1)
            &&& page.u() == (word / 8 % 2 == 1)
            &&& table.u() == (word / 8 % 2 == 1)
            &&& page.m() == (word / 16 % 2 == 1)
            &&& page.l() == (word / 32 % 2 == 1)
            &&& page.ci() == (word / 64 % 2 == 1)
            &&& page.g() == (word / 128 % 2 == 1)
            &&& page.page_addr() == word / 256
            &&& table.table_addr() == word / 16
        }),
{
    assert((word & 3) as u8 == word % 4 && ((word >> 2) & 1 == 1) == (word / 4 % 2 == 1) && ((word
        >> 3) & 1 == 1) == (word / 8 % 2 == 1) && ((word >> 4) & 1 == 1) == (word / 16 % 2 == 1) && ((
    word >> 5) & 1 == 1) == (word / 32 % 2 == 1) && ((word >> 6) & 1 == 1) == (word / 64 % 2 == 1)
        && ((word >> 7) & 1 == 1) == (word / 128 % 2 == 1) && (word >> 8) & 0xff_ffff == word / 256
        && (word >> 4) & 0xfff_ffff == word / 16) by (bit_vector);
}

/// The fields of long descriptors, by the bits of their two words. The first has the flags as in a
/// short descriptor, then S and SG, the access levels in three bits each, the limit in 15 bits, and
/// L/U on top; the second has the address.
pub proof fn law_long_descriptor_bits(first: u32, second: u32)
    ensures
        ({
            let page = PmmuLongPageDescriptor(joined(first, second));
            let table = PmmuLongTableDescriptor(joined(first, second));
            &&& page.msl() == table.msl() == first
            &&& page.lsl() == table.lsl() == second
            &&& page.dt() == table.dt() == first % 4
            &&& page.wp() == (first / 4 % 2 == 1)
            &&& table.wp() == (first / 4 % 2 == 1)
            &&& page.u() == (first / 8 % 2 == 1)
            &&& table.u() == (first / 8 % 2 == 1)
            &&& page.m() == (first / 16 % 2 == 1)
            &&& page.l() == (first / 32 % 2 == 1)
            &&& page.ci() == (first / 64 % 2 == 1)
            &&& page.g() == (first / 128 % 2 == 1)
            &&& page.s() == (first / 256 % 2 == 1)
            &&& table.s() == (first / 256 % 2 == 1)
            &&& page.sg() == (first / 512 % 2 == 1)
            &&& table.sg() == (first / 512 % 2 == 1)
            &&& page.wal() == table.wal() == first / 1024 % 8
            &&& page.ral() == table.ral() == first / 8192 % 8
            &&& page.limit() == table.limit() == first / 65536 % 32768
            &&& page.lu() == (first / 0x8000_0000 == 1)
            &&& table.lu() == (first / 0x8000_0000 == 1)
            &&& page.page_addr() == second / 256
            &&& table.table_addr() == second / 16
        }),
{
    let word = joined(first, second);
    assert(((word >> 32) & 0xffff_ffff) as u32 == first && (word & 0xffff_ffff) as u32 == second && (
    (word >> 32) & 3) as u8 == first % 4 && ((word >> 34) & 1 == 1) == (first / 4 % 2 == 1) && ((word
        >> 35) & 1 == 1) == (first / 8 % 2 == 1) && ((word >> 36) & 1 == 1) == (first / 16 % 2 == 1)
        && ((word >> 37) & 1 == 1) == (first / 32 % 2 == 1) && ((word >> 38) & 1 == 1) == (first / 64
        % 2 == 1) && ((word >> 39) & 1 == 1) == (first / 128 % 2 == 1) && ((word >> 40) & 1 == 1) == (
    first / 256 % 2 == 1) && ((word >> 41) & 1 == 1) == (first / 512 % 2 == 1) && ((word >> 42)
        & 7) as u8 == first / 1024 % 8 && ((word >> 45) & 7) as u8 == first / 8192 % 8 && ((word
        >> 48) & 0x7fff) as u16 == first / 65536 % 32768 && ((word >> 63) & 1 == 1) == (first
        / 0x8000_0000 == 1) && ((word >> 8) & 0xff_ffff) as u32 == second / 256 && ((word >> 4)
        & 0xfff_ffff) as u32 == second / 16) by (bit_vector)
        requires
            word == ((first as u64) << 32) | second as u64,
    ;
}

} // verus!
