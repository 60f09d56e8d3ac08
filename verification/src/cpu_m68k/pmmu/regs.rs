//! Memory management registers and their bit fields.

use vstd::prelude::*;

verus! {

/// Format of a table entry, as encoded in the two DT bits.
#[derive(Debug, Clone, Copy, PartialEq, Eq, Structural)]
pub enum PmmuPageDescriptorType {
    Invalid,
    PageDescriptor,
    /// A table of four-byte descriptors follows.
    Valid4b,
    /// A table of eight-byte descriptors follows.
    Valid8b,
}

impl PmmuPageDescriptorType {
    /// The format that the low two bits of `bits` encode.
    #[verifier::allow_in_spec]
    pub fn from_bits(bits: u32) -> Self
        returns
            (if bits & 3 == 0 {
                PmmuPageDescriptorType::Invalid
            } else if bits & 3 == 1 {
                PmmuPageDescriptorType::PageDescriptor
            } else if bits & 3 == 2 {
                PmmuPageDescriptorType::Valid4b
            } else {
                PmmuPageDescriptorType::Valid8b
            }),
    {
        if bits & 3 == 0 {
            PmmuPageDescriptorType::Invalid
        } else if bits & 3 == 1 {
            PmmuPageDescriptorType::PageDescriptor
        } else if bits & 3 == 2 {
            PmmuPageDescriptorType::Valid4b
        } else {
            PmmuPageDescriptorType::Valid8b
        }
    }

    /// The two DT bits.
    #[verifier::allow_in_spec]
    pub fn code(self) -> u8
        returns
            (match self {
                PmmuPageDescriptorType::Invalid => 0u8,
                PmmuPageDescriptorType::PageDescriptor => 1u8,
                PmmuPageDescriptorType::Valid4b => 2u8,
                PmmuPageDescriptorType::Valid8b => 3u8,
            }),
    {
        match self {
            PmmuPageDescriptorType::Invalid => 0u8,
            PmmuPageDescriptorType::PageDescriptor => 1u8,
            PmmuPageDescriptorType::Valid4b => 2u8,
            PmmuPageDescriptorType::Valid8b => 3u8,
        }
    }
}

/// Translation control register.
#[derive(Debug, Clone, Copy, PartialEq, Eq, Structural)]
pub struct TcReg(pub u32);

impl TcReg {
    /// Translation enable.
    #[verifier::allow_in_spec]
    pub fn enable(self) -> bool
        returns
            self.0 & 0x8000_0000 != 0,
    {
        self.0 & 0x8000_0000 != 0
    }

    /// Supervisor root pointer enable.
    #[verifier::allow_in_spec]
    pub fn sre(self) -> bool
        returns
            self.0 & 0x0200_0000 != 0,
    {
        self.0 & 0x0200_0000 != 0
    }

    /// Function code lookup: the first table is indexed by the function code.
    #[verifier::allow_in_spec]
    pub fn fcl(self) -> bool
        returns
            self.0 & 0x0100_0000 != 0,
    {
        self.0 & 0x0100_0000 != 0
    }

    /// Page size: width of the page offset in bits.
    #[verifier::allow_in_spec]
    pub fn ps(self) -> u32
        returns
            (self.0 >> 20) & 15,
    {
        (self.0 >> 20) & 15
    }

    /// Initial shift: ignored high bits of a logical address.
    #[verifier::allow_in_spec]
    pub fn is(self) -> u32
        returns
            (self.0 >> 16) & 15,
    {
        (self.0 >> 16) & 15
    }

    /// Width of the table A index in bits.
    #[verifier::allow_in_spec]
    pub fn tia(self) -> u32
        returns
            (self.0 >> 12) & 15,
    {
        (self.0 >> 12) & 15
    }

    /// Width of the table B index in bits.
    #[verifier::allow_in_spec]
    pub fn tib(self) -> u32
        returns
            (self.0 >> 8) & 15,
    {
        (self.0 >> 8) & 15
    }

    /// Width of the table C index in bits.
    #[verifier::allow_in_spec]
    pub fn tic(self) -> u32
        returns
            (self.0 >> 4) & 15,
    {
        (self.0 >> 4) & 15
    }

    /// Width of the table D index in bits.
    #[verifier::allow_in_spec]
    pub fn tid(self) -> u32
        returns
            self.0 & 15,
    {
        self.0 & 15
    }

    /// Sets or clears E.
    pub fn set_enable(&mut self, value: bool)
        ensures
            final(self).0 == if value {
                old(self).0 | 0x8000_0000
            } else {
                old(self).0 & !0x8000_0000u32
            },
    {
        if value {
            self.0 = self.0 | 0x8000_0000;
        } else {
            self.0 = self.0 & !0x8000_0000u32;
        }
    }

    /// Sets or clears SRE.
    pub fn set_sre(&mut self, value: bool)
        ensures
            final(self).0 == if value {
                old(self).0 | 0x0200_0000
            } else {
                old(self).0 & !0x0200_0000u32
            },
    {
        if value {
            self.0 = self.0 | 0x0200_0000;
        } else {
            self.0 = self.0 & !0x0200_0000u32;
        }
    }

    /// Sets or clears FCL.
    pub fn set_fcl(&mut self, value: bool)
        ensures
            final(self).0 == if value {
                old(self).0 | 0x0100_0000
            } else {
                old(self).0 & !0x0100_0000u32
            },
    {
        if value {
            self.0 = self.0 | 0x0100_0000;
        } else {
            self.0 = self.0 & !0x0100_0000u32;
        }
    }
}

/// CPU or supervisor root pointer.
#[derive(Debug, Clone, Copy, PartialEq, Eq, Structural)]
pub struct RootPointerReg(pub u64);

impl RootPointerReg {
    /// The limit is a lower bound rather than an upper one.
    #[verifier::allow_in_spec]
    pub fn lu(self) -> bool
        returns
            (self.0 >> 63) & 1 != 0,
    {
        (self.0 >> 63) & 1 != 0
    }

    /// Bound on the first table index.
    #[verifier::allow_in_spec]
    pub fn limit(self) -> u16
        returns
            ((self.0 >> 48) & 0x7FFF) as u16,
    {
        ((self.0 >> 48) & 0x7FFF) as u16
    }

    /// Format of the first table.
    #[verifier::allow_in_spec]
    pub fn dt(self) -> PmmuPageDescriptorType
        returns
            PmmuPageDescriptorType::from_bits(((self.0 >> 32) & 3) as u32),
    {
        PmmuPageDescriptorType::from_bits(((self.0 >> 32) & 3) as u32)
    }

    /// Physical address of the first table, in units of 16 bytes.
    #[verifier::allow_in_spec]
    pub fn table_addr(self) -> u32
        returns
            ((self.0 >> 4) & 0x0FFF_FFFF) as u32,
    {
        ((self.0 >> 4) & 0x0FFF_FFFF) as u32
    }
}

/// Transparent translation register.
#[derive(Debug, Clone, Copy, PartialEq, Eq, Structural)]
pub struct TrTranslationReg(pub u32);

impl TrTranslationReg {
    /// Logical address base: the top byte to match.
    #[verifier::allow_in_spec]
    pub fn le_base(self) -> u32
        returns
            (self.0 >> 24) & 0xFF,
    {
        (self.0 >> 24) & 0xFF
    }

    /// Logical address mask: top-byte bits that are not compared.
    #[verifier::allow_in_spec]
    pub fn le_mask(self) -> u32
        returns
            (self.0 >> 16) & 0xFF,
    {
        (self.0 >> 16) & 0xFF
    }

    /// Register enable.
    #[verifier::allow_in_spec]
    pub fn e(self) -> bool
        returns
            self.0 & 0x8000 != 0,
    {
        self.0 & 0x8000 != 0
    }

    /// Direction to match: set for reads.
    #[verifier::allow_in_spec]
    pub fn rw(self) -> bool
        returns
            self.0 & 0x200 != 0,
    {
        self.0 & 0x200 != 0
    }

    /// Direction mask: match reads and writes alike.
    #[verifier::allow_in_spec]
    pub fn rwm(self) -> bool
        returns
            self.0 & 0x100 != 0,
    {
        self.0 & 0x100 != 0
    }

    /// Function code to match.
    #[verifier::allow_in_spec]
    pub fn fc_base(self) -> u8
        returns
            ((self.0 >> 4) & 7) as u8,
    {
        ((self.0 >> 4) & 7) as u8
    }

    /// Function code bits that are not compared.
    #[verifier::allow_in_spec]
    pub fn fc_mask(self) -> u8
        returns
            (self.0 & 7) as u8,
    {
        (self.0 & 7) as u8
    }

    /// Sets or clears E.
    pub fn set_e(&mut self, value: bool)
        ensures
            final(self).0 == if value {
                old(self).0 | 0x8000
            } else {
                old(self).0 & !0x8000u32
            },
    {
        if value {
            self.0 = self.0 | 0x8000;
        } else {
            self.0 = self.0 & !0x8000u32;
        }
    }
}

/// MMU status register.
#[derive(Debug, Clone, Copy, PartialEq, Eq, Structural)]
pub struct RegisterPSR(pub u16);

impl RegisterPSR {
    /// All flags clear, level zero.
    #[verifier::allow_in_spec]
    pub fn cleared() -> Self
        returns
            RegisterPSR(0),
    {
        RegisterPSR(0)
    }

    /// Bus error flag.
    #[verifier::allow_in_spec]
    pub fn bus_error(self) -> bool
        returns
            self.0 & 0x8000 != 0,
    {
        self.0 & 0x8000 != 0
    }

    /// Sets or clears the bus error flag.
    pub fn set_bus_error(&mut self, value: bool)
        ensures
            final(self).0 == if value {
                old(self).0 | 0x8000
            } else {
                old(self).0 & !0x8000u16
            },
    {
        if value {
            self.0 = self.0 | 0x8000;
        } else {
            self.0 = self.0 & !0x8000u16;
        }
    }

    /// Limit violation flag.
    #[verifier::allow_in_spec]
    pub fn limit_violation(self) -> bool
        returns
            self.0 & 0x4000 != 0,
    {
        self.0 & 0x4000 != 0
    }

    /// Sets or clears the limit violation flag.
    pub fn set_limit_violation(&mut self, value: bool)
        ensures
            final(self).0 == if value {
                old(self).0 | 0x4000
            } else {
                old(self).0 & !0x4000u16
            },
    {
        if value {
            self.0 = self.0 | 0x4000;
        } else {
            self.0 = self.0 & !0x4000u16;
        }
    }

    /// Supervisor violation flag.
    #[verifier::allow_in_spec]
    pub fn supervisor_violation(self) -> bool
        returns
            self.0 & 0x2000 != 0,
    {
        self.0 & 0x2000 != 0
    }

    /// Sets or clears the supervisor violation flag.
    pub fn set_supervisor_violation(&mut self, value: bool)
        ensures
            final(self).0 == if value {
                old(self).0 | 0x2000
            } else {
                old(self).0 & !0x2000u16
            },
    {
        if value {
            self.0 = self.0 | 0x2000;
        } else {
            self.0 = self.0 & !0x2000u16;
        }
    }

    /// Write protected flag.
    #[verifier::allow_in_spec]
    pub fn write_protected(self) -> bool
        returns
            self.0 & 0x0800 != 0,
    {
        self.0 & 0x0800 != 0
    }

    /// Sets or clears the write protected flag.
    pub fn set_write_protected(&mut self, value: bool)
        ensures
            final(self).0 == if value {
                old(self).0 | 0x0800
            } else {
                old(self).0 & !0x0800u16
            },
    {
        if value {
            self.0 = self.0 | 0x0800;
        } else {
            self.0 = self.0 & !0x0800u16;
        }
    }

    /// Invalid flag.
    #[verifier::allow_in_spec]
    pub fn invalid(self) -> bool
        returns
            self.0 & 0x0400 != 0,
    {
        self.0 & 0x0400 != 0
    }

    /// Sets or clears the invalid flag.
    pub fn set_invalid(&mut self, value: bool)
        ensures
            final(self).0 == if value {
                old(self).0 | 0x0400
            } else {
                old(self).0 & !0x0400u16
            },
    {
        if value {
            self.0 = self.0 | 0x0400;
        } else {
            self.0 = self.0 & !0x0400u16;
        }
    }

    /// Number of levels accessed.
    #[verifier::allow_in_spec]
    pub fn level_number(self) -> u8
        returns
            (self.0 & 7) as u8,
    {
        (self.0 & 7) as u8
    }

    /// Replaces the number of levels accessed.
    pub fn set_level_number(&mut self, level: u8)
        ensures
            final(self).0 == (old(self).0 & !7u16) | (level & 7) as u16,
    {
        self.0 = (self.0 & !7u16) | (level & 7) as u16;
    }
}

/// Registers that PMOVE, PTEST and address translation share.
#[derive(Debug, Clone, Copy, PartialEq, Eq)]
pub struct PmmuRegs {
    pub tc: TcReg,
    pub crp: RootPointerReg,
    pub srp: RootPointerReg,
    pub tt: [TrTranslationReg; 2],
    pub psr: RegisterPSR,
    /// Address of the last descriptor that a search selected.
    pub last_desc: u32,
}

/// The flags and the level of a status, by their bits: B, L, S, W and I are bits 15, 14, 13, 11 and
/// 10, and the level is in bits 0 to 2.
pub proof fn law_status_bits(psr: RegisterPSR)
    ensures
        psr.bus_error() == (psr.0 / 0x8000 == 1),
        psr.limit_violation() == (psr.0 / 0x4000 % 2 == 1),
        psr.supervisor_violation() == (psr.0 / 0x2000 % 2 == 1),
        psr.write_protected() == (psr.0 / 0x800 % 2 == 1),
        psr.invalid() == (psr.0 / 0x400 % 2 == 1),
        psr.level_number() == psr.0 % 8,
{
    let word = psr.0;
    assert((word & 0x8000 != 0) == (word / 0x8000 == 1) && (word & 0x4000 != 0) == (word / 0x4000
        % 2 == 1) && (word & 0x2000 != 0) == (word / 0x2000 % 2 == 1) && (word & 0x0800 != 0) == (
    word / 0x800 % 2 == 1) && (word & 0x0400 != 0) == (word / 0x400 % 2 == 1) && (word & 7) as u8
        == word % 8) by (bit_vector);
}

} // verus!
