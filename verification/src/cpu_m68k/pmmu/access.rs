//! What inspecting and translating an access means, in numbers: which bits of the registers send it
//! which way, which slot of the cache it has, and what it finds there.

use vstd::arithmetic::power2::pow2;
use vstd::prelude::*;

use crate::bus::Bus;
use crate::cpu_m68k::cpu::{CpuM68k, CpuModel};
use crate::cpu_m68k::pmmu::inspect::{
    inspection_base, paged_inspection, used_effects, DescriptorEffect, InspectionMemory,
    InspectionModel, RootBank, TranslationQuery, TranslationRoute, ORGANIZATION_LIMITATION,
};
use crate::cpu_m68k::pmmu::meaning::{
    law_inspecting_search_means, lemma_low_ones, lemma_offset_ones, lemma_tc_numbers, step_means,
    tc_is, tc_ps, tc_table, walk_means, words_seen,
};
use crate::cpu_m68k::pmmu::regs::{PmmuRegs, TcReg, TrTranslationReg};
use crate::cpu_m68k::pmmu::translate::{
    cache_bank, cache_size, lemma_page_number_bounded, page_number, root_pointer,
    transparently_maps, uses_supervisor_root, PmmuAtcEntry,
};
use crate::cpu_m68k::pmmu::walk::{
    law_walk_resolves_or_fails, lemma_field_widths, StepModel, WalkFailureKind, WalkModel,
};

verus! {

/// Whether an access uses the supervisor root pointer: bit 2 of its function code and SRE, bit 25 of
/// TC, are set.
pub open spec fn by_supervisor_root(regs: PmmuRegs, fc: u8) -> bool {
    fc / 4 % 2 == 1 && regs.tc.0 / 0x200_0000 % 2 == 1
}

/// The cache that an access has its slot in.
pub open spec fn bank_of(regs: PmmuRegs, fc: u8) -> int {
    if by_supervisor_root(regs, fc) {
        1
    } else {
        0
    }
}

/// The page of an address, by number: the bits between the ignored ones and the page offset.
pub open spec fn page_of(tc: TcReg, address: u32) -> int {
    address as int % pow2((32 - tc_is(tc)) as nat) as int / pow2(tc_ps(tc) as nat) as int
}

/// The size of a page.
pub open spec fn page_size(tc: TcReg) -> int {
    pow2(tc_ps(tc) as nat) as int
}

/// Whether a bit of two numbers is the same, or is masked.
pub open spec fn bit_matches(a: int, b: int, mask: int, bit: int) -> bool {
    mask / bit % 2 == 1 || a / bit % 2 == b / bit % 2
}

/// Whether a transparent translation register maps an access: it is enabled (bit 15), the function
/// code is that of bits 4 to 6 but for the bits that bits 0 to 2 mask, the top byte of the address
/// is that of bits 24 to 31 but for the bits that bits 16 to 23 mask, and the direction is that of
/// bit 9, set for reads, unless bit 8 masks it.
pub open spec fn tt_maps(tt: TrTranslationReg, fc: u8, address: u32, writing: bool) -> bool {
    let w = tt.0 as int;
    let (code, code_base, code_mask) = (fc as int, w / 16 % 8, w % 8);
    let (top, top_base, top_mask) = (
        address as int / 0x100_0000,
        w / 0x100_0000,
        w / 0x1_0000 % 256,
    );
    &&& w / 0x8000 % 2 == 1
    &&& w / 0x100 % 2 == 1 || writing == (w / 0x200 % 2 == 0)
    &&& bit_matches(code, code_base, code_mask, 1)
    &&& bit_matches(code, code_base, code_mask, 2)
    &&& bit_matches(code, code_base, code_mask, 4)
    &&& bit_matches(top, top_base, top_mask, 1)
    &&& bit_matches(top, top_base, top_mask, 2)
    &&& bit_matches(top, top_base, top_mask, 4)
    &&& bit_matches(top, top_base, top_mask, 8)
    &&& bit_matches(top, top_base, top_mask, 16)
    &&& bit_matches(top, top_base, top_mask, 32)
    &&& bit_matches(top, top_base, top_mask, 64)
    &&& bit_matches(top, top_base, top_mask, 128)
}

/// Whether an access goes through the cache and the tables: there is an MMU, it is no access to CPU
/// space, no transparent translation register maps it, and translation is on (bit 31 of TC).
pub open spec fn goes_through(
    pmmu: bool,
    regs: PmmuRegs,
    fc: u8,
    address: u32,
    writing: bool,
) -> bool {
    &&& pmmu
    &&& fc != 7
    &&& !tt_maps(regs.tt[0], fc, address, writing)
    &&& !tt_maps(regs.tt[1], fc, address, writing)
    &&& regs.tc.0 / 0x8000_0000 == 1
}

/// The cache entry that answers an access: it is in the slot of the page, of this generation and
/// for this function code.
pub open spec fn answer<M>(cpu: CpuModel<M>, fc: u8, address: u32) -> Option<PmmuAtcEntry> {
    let slots = cpu.atc[bank_of(cpu.regs.pmmu, fc)];
    let page = page_of(cpu.regs.pmmu.tc, address);
    if page < slots.len() {
        match slots[page] {
            Some(entry) => if entry.generation == cpu.generation && entry.function_code == fc {
                Some(entry)
            } else {
                None
            },
            None => None,
        }
    } else {
        None
    }
}

/// The number of a page is the index of its slot.
pub proof fn lemma_page_number(tc: TcReg, address: u32)
    ensures
        page_number(tc, address) == page_of(tc, address),
        0 <= page_of(tc, address),
        page_size(tc) > 0,
{
    lemma_tc_numbers(tc);
    lemma_field_widths(tc);
    lemma_offset_ones(address, tc.is());
    lemma_low_ones(address, tc.ps());
    vstd::bits::lemma_u32_shr_is_div(
        address & crate::cpu_m68k::pmmu::walk::offset_mask(tc.is()),
        tc.ps(),
    );
}

/// The bits of a function code.
pub proof fn lemma_function_code(fc: u8)
    ensures
        (fc & 4 != 0) == (fc / 4 % 2 == 1),
        (fc & 4 == 0) == (fc / 4 % 2 == 0),
{
    assert((fc & 4 != 0) == (fc / 4 % 2 == 1) && (fc & 4 == 0) == (fc / 4 % 2 == 0))
        by (bit_vector);
}

/// The root and the cache of an access.
pub proof fn lemma_root(regs: PmmuRegs, fc: u8)
    ensures
        uses_supervisor_root(regs, fc) == by_supervisor_root(regs, fc),
        cache_bank(regs, fc) == bank_of(regs, fc),
        root_pointer(regs, fc) == if by_supervisor_root(regs, fc) {
            regs.srp
        } else {
            regs.crp
        },
{
    lemma_tc_numbers(regs.tc);
    lemma_function_code(fc);
}

/// What a transparent translation register maps.
pub proof fn lemma_tt(tt: TrTranslationReg, fc: u8, address: u32, writing: bool)
    ensures
        transparently_maps(tt, fc, address, writing) == tt_maps(tt, fc, address, writing),
{
    let w = tt.0;
    let f = fc as u32;
    assert((fc & (!((w & 7) as u8) & 7u8) == ((w >> 4) & 7) as u8 & (!((w & 7) as u8) & 7u8)) == ((w
        % 8 / 1 % 2 == 1 || f / 1 % 2 == w / 16 % 8 / 1 % 2) && (w % 8 / 2 % 2 == 1 || f / 2 % 2 == w
        / 16 % 8 / 2 % 2) && (w % 8 / 4 % 2 == 1 || f / 4 % 2 == w / 16 % 8 / 4 % 2)))
        by (bit_vector)
        requires
            f == fc as u32,
    ;
    let (a, b, m) = (address / 0x100_0000, w / 0x100_0000, w / 0x1_0000 % 256);
    assert(((address >> 24) & (!((w >> 16) & 0xFF) & 0xFF) == ((w >> 24) & 0xFF) & (!((w >> 16)
        & 0xFF) & 0xFF)) == ((m / 1 % 2 == 1 || a / 1 % 2 == b / 1 % 2) && (m / 2 % 2 == 1 || a / 2
        % 2 == b / 2 % 2) && (m / 4 % 2 == 1 || a / 4 % 2 == b / 4 % 2) && (m / 8 % 2 == 1 || a / 8
        % 2 == b / 8 % 2) && (m / 16 % 2 == 1 || a / 16 % 2 == b / 16 % 2) && (m / 32 % 2 == 1 || a
        / 32 % 2 == b / 32 % 2) && (m / 64 % 2 == 1 || a / 64 % 2 == b / 64 % 2) && (m / 128 % 2 == 1
        || a / 128 % 2 == b / 128 % 2)) && (w & 0x8000 != 0) == (w / 0x8000 % 2 == 1) && (w & 0x200
        != 0) == (w / 0x200 % 2 == 1) && (w & 0x100 != 0) == (w / 0x100 % 2 == 1)) by (bit_vector)
        requires
            a == address / 0x100_0000,
            b == w / 0x100_0000,
            m == w / 0x1_0000 % 256,
    ;
}

/// Whether an inspection says that an access bypasses the cache and the tables.
pub open spec fn bypassed(
    found: InspectionModel,
    route: TranslationRoute,
    register: Option<u8>,
    mask: u32,
) -> bool {
    &&& found.route == route
    &&& found.transparent_register == register
    &&& found.cached is None
    &&& found.tables is None
    &&& found.cache_matches_tables is None
    &&& found.physical_address == Some(found.query.address)
    &&& found.bus_address == Some(found.query.address & mask)
    &&& !found.write_protected && !found.supervisor_only
    &&& found.failure is None
    &&& found.descriptor_effects.len() == 0
}

/// Whether an inspection shows the slot of an access as the cache has it.
pub open spec fn slot_shown<M>(cpu: CpuModel<M>, found: InspectionModel) -> bool {
    let regs = cpu.regs.pmmu;
    let fc = found.query.function_code;
    let slots = cpu.atc[bank_of(regs, fc)];
    let page = page_of(regs.tc, found.query.address);
    if page < slots.len() && slots[page] is Some {
        let entry = slots[page]->0;
        &&& found.cached matches Some(slot)
        &&& slot.bank == if by_supervisor_root(regs, fc) {
            RootBank::Supervisor
        } else {
            RootBank::Cpu
        }
        &&& slot.index == page
        &&& slot.function_code == entry.function_code
        &&& slot.logical_page == page * page_size(regs.tc) % 0x1_0000_0000
        &&& slot.physical_page == entry.paddr
        &&& slot.write_protected == entry.wp
        &&& slot.supervisor_only == entry.s
        &&& slot.leaf_address == entry.leaf_desc_addr
        &&& slot.modified == entry.modified
        &&& slot.generation == entry.generation
        &&& slot.valid == (entry.generation == cpu.generation)
    } else {
        found.cached is None
    }
}

/// Where an access is sent, and how it is protected: the place, WP, S, the leaf descriptor and M.
pub ghost struct Place {
    pub address: int,
    pub protected: bool,
    pub supervisor: bool,
    pub leaf: u32,
    pub modified: bool,
}

/// Where an entry of the cache sends an access.
pub open spec fn entry_page(entry: PmmuAtcEntry, tc: TcReg, address: u32) -> Place {
    Place {
        address: entry.paddr + address as int % page_size(tc),
        protected: entry.wp,
        supervisor: entry.s,
        leaf: entry.leaf_desc_addr,
        modified: entry.modified,
    }
}

/// Where the tables send an access.
pub open spec fn table_page(walk: WalkModel) -> Option<Place> {
    match walk.resolved {
        Some(page) => Some(
            Place {
                address: page.physical_address as int,
                protected: page.write_protected,
                supervisor: page.supervisor_only,
                leaf: page.leaf_address,
                modified: page.modified,
            },
        ),
        None => None,
    }
}

/// Why a page's protection rejects an access: bit 2 of the function code is clear and the page is
/// for supervisors only, or else the access writes and the page is write-protected.
pub open spec fn rejection(page: Place, fc: u8, writing: bool) -> Option<WalkFailureKind> {
    if fc / 4 % 2 == 0 && page.supervisor {
        Some(WalkFailureKind::SupervisorOnly)
    } else if writing && page.protected {
        Some(WalkFailureKind::WriteProtected)
    } else {
        None
    }
}

/// Whether some valid descriptor of a search at an address lacks its U bit, bit 3.
pub open spec fn lacks_used(steps: Seq<StepModel>, address: u32) -> bool {
    exists|i: int|
        0 <= i < steps.len() && (#[trigger] steps[i]).address == address && steps[i].words[0] % 4
            != 0 && steps[i].words[0] / 8 % 2 == 0
}

/// Levels that a search takes that uses every field of TC.
pub open spec fn all_levels(tc: TcReg) -> int {
    (if tc_table(tc, 1) > 0 {
        1int
    } else {
        0
    }) + (if tc_table(tc, 2) > 0 {
        1int
    } else {
        0
    }) + (if tc_table(tc, 3) > 0 {
        1int
    } else {
        0
    }) + (if tc_table(tc, 4) > 0 {
        1int
    } else {
        0
    }) + (if tc.0 / 0x100_0000 % 2 == 1 {
        1int
    } else {
        0
    })
}

/// Whether an inspection says of an access that goes through the cache and the tables what they
/// hold. The cache answers for its own if it is asked, and the tables answer otherwise. Cache and
/// tables match if they send the access to the same place under the same protection.
pub open spec fn paged_means<M>(mask: u32, cpu: CpuModel<M>, found: InspectionModel) -> bool {
    let regs = cpu.regs.pmmu;
    let query = found.query;
    let fc = query.function_code;
    let cached = answer(cpu, fc, query.address);
    let walk = found.tables->0;
    let by_cache = query.mode is CacheAware && cached is Some;
    let page = if by_cache {
        Some(entry_page(cached->0, regs.tc, query.address))
    } else {
        table_page(walk)
    };
    let rejected = match page {
        Some(page) => rejection(page, fc, query.writing),
        None => None,
    };
    let allowed = page is Some && rejected is None;
    &&& found.transparent_register is None
    &&& found.tables is Some
    &&& slot_shown(cpu, found)
    &&& found.route == if by_cache {
        TranslationRoute::Atc
    } else {
        TranslationRoute::Table
    }
    &&& found.cache_matches_tables == match cached {
        None => None,
        Some(entry) => Some(
            {
                let kept = entry_page(entry, regs.tc, query.address);
                &&& table_page(walk) matches Some(page)
                &&& page.address == kept.address
                &&& page.protected == kept.protected
                &&& page.supervisor == kept.supervisor
            },
        ),
    }
    &&& found.write_protected == (page is Some && (page->0).protected)
    &&& found.supervisor_only == (page is Some && (page->0).supervisor)
    &&& if allowed {
        &&& found.failure is None
        &&& found.physical_address matches Some(place) && place == (page->0).address
        &&& found.bus_address == Some(found.physical_address->0 & mask)
    } else {
        &&& found.physical_address is None
        &&& found.bus_address is None
        &&& found.failure matches Some(failure)
        &&& match rejected {
            Some(kind) => {
                &&& failure.kind == kind
                &&& failure.address == Some((page->0).leaf)
                &&& failure.level == if by_cache {
                    all_levels(regs.tc)
                } else {
                    walk.level as int
                }
            },
            None => walk.failure == Some(failure),
        }
    }
    &&& forall|effect: DescriptorEffect| #[trigger]
        found.descriptor_effects.contains(effect) <==> {
            ||| effect.set_bits == 8 && !by_cache && lacks_used(walk.descriptors, effect.address)
            ||| effect.set_bits == 16 && allowed && query.writing && !(page->0).modified && effect.address
                == (page->0).leaf
        }
}

/// Whether an inspection says what the registers, the cache and the tables say of an access.
pub open spec fn inspection_means<M>(
    pmmu: bool,
    mask: u32,
    cpu: CpuModel<M>,
    found: InspectionModel,
) -> bool {
    let regs = cpu.regs.pmmu;
    let query = found.query;
    let fc = query.function_code;
    let tc = regs.tc;
    let root = if by_supervisor_root(regs, fc) {
        regs.srp
    } else {
        regs.crp
    };
    &&& found.cache_generation == cpu.generation
    &&& found.page_bits == tc_ps(tc)
    &&& found.ignored_bits == tc_is(tc)
    &&& found.limitations.len() == if pmmu {
        1nat
    } else {
        0nat
    }
    &&& if pmmu {
        &&& found.root == Some(
            if by_supervisor_root(regs, fc) {
                RootBank::Supervisor
            } else {
                RootBank::Cpu
            },
        )
        &&& found.root_pointer == Some(root.0)
    } else {
        found.root is None && found.root_pointer is None
    }
    &&& if !pmmu {
        bypassed(found, TranslationRoute::NoMmu, None, mask)
    } else if fc == 7 {
        bypassed(found, TranslationRoute::CpuSpace, None, mask)
    } else if tt_maps(regs.tt[0], fc, query.address, query.writing) {
        bypassed(found, TranslationRoute::Transparent, Some(0), mask)
    } else if tt_maps(regs.tt[1], fc, query.address, query.writing) {
        bypassed(found, TranslationRoute::Transparent, Some(1), mask)
    } else if tc.0 / 0x8000_0000 != 1 {
        bypassed(found, TranslationRoute::Disabled, None, mask)
    } else if tc_is(tc) + tc_ps(tc) + tc_table(tc, 1) + tc_table(tc, 2) + tc_table(tc, 3)
        + tc_table(tc, 4) != 32 {
        &&& found.route is Table
        &&& found.transparent_register is None
        &&& found.cached is None && found.tables is None && found.cache_matches_tables is None
        &&& found.physical_address is None && found.bus_address is None
        &&& !found.write_protected && !found.supervisor_only
        &&& found.failure matches Some(failure) && failure.kind is InvalidConfiguration
            && failure.level == 0
        &&& found.descriptor_effects.len() == 0
    } else {
        &&& paged_means(mask, cpu, found)
        &&& walk_means(tc, root, query.address, fc, found.tables->0)
    }
}

/// The U bits that a search would set.
proof fn lemma_used_effects(steps: Seq<StepModel>)
    requires
        forall|i: int| 0 <= i < steps.len() ==> {
            let step = #[trigger] steps[i];
            &&& step.descriptor_type == step.words[0] % 4
            &&& step.used == (step.words[0] / 8 % 2 == 1)
        },
    ensures
        forall|effect: DescriptorEffect| #[trigger]
            used_effects(steps).contains(effect) <==> effect.set_bits == 8 && lacks_used(
                steps,
                effect.address,
            ),
    decreases steps.len(),
{
    if steps.len() > 0 {
        let shorter = steps.drop_last();
        let last = steps.last();
        assert(last == steps[steps.len() - 1]);
        assert forall|i: int| 0 <= i < shorter.len() implies {
            let step = #[trigger] shorter[i];
            &&& step.descriptor_type == step.words[0] % 4
            &&& step.used == (step.words[0] / 8 % 2 == 1)
        } by {
            assert(shorter[i] == steps[i]);
        }
        lemma_used_effects(shorter);
        let before = used_effects(shorter);
        let effects = used_effects(steps);
        let marks = last.words[0] % 4 != 0 && last.words[0] / 8 % 2 == 0;
        let added = DescriptorEffect { address: last.address, set_bits: 8 };
        assert forall|effect: DescriptorEffect| #[trigger] effects.contains(effect) <==> effect.set_bits
            == 8 && lacks_used(steps, effect.address) by {
            assert(before.contains(effect) <==> effect.set_bits == 8 && lacks_used(
                shorter,
                effect.address,
            ));
            lemma_contains_push(before, added, effect);
            if lacks_used(shorter, effect.address) {
                let i = choose|i: int|
                    0 <= i < shorter.len() && (#[trigger] shorter[i]).address == effect.address
                        && shorter[i].words[0] % 4 != 0 && shorter[i].words[0] / 8 % 2 == 0;
                assert(steps[i].address == effect.address);
            }
            if lacks_used(steps, effect.address) {
                let i = choose|i: int|
                    0 <= i < steps.len() && (#[trigger] steps[i]).address == effect.address
                        && steps[i].words[0] % 4 != 0 && steps[i].words[0] / 8 % 2 == 0;
                if i < shorter.len() {
                    assert(shorter[i].address == effect.address);
                }
            }
        }
    }
}

/// What one more effect adds.
proof fn lemma_contains_push<A>(s: Seq<A>, last: A, found: A)
    ensures
        s.push(last).contains(found) <==> found == last || s.contains(found),
{
    let longer = s.push(last);
    if longer.contains(found) {
        let k = choose|k: int| 0 <= k < longer.len() && longer[k] == found;
        if k < s.len() {
            assert(s[k] == found);
        }
    }
    if s.contains(found) {
        let k = choose|k: int| 0 <= k < s.len() && s[k] == found;
        assert(longer[k] == found);
    }
    assert(longer[s.len() as int] == last);
}

/// The base of a page and an offset into it share no bits.
pub proof fn lemma_page_join(base: u32, address: u32, bits: u32)
    requires
        bits <= 15,
        base as int % pow2(bits as nat) as int == 0,
    ensures
        base | (address & ((1u32 << bits) - 1) as u32) == base + address as int % pow2(
            bits as nat,
        ) as int,
{
    let mask = ((1u32 << bits) - 1) as u32;
    lemma_low_ones(base, bits);
    lemma_low_ones(address, bits);
    assert(base | (address & mask) == base + (address & mask)) by (bit_vector)
        requires
            base & mask == 0,
    ;
}

/// A page number, shifted back to an address.
pub proof fn lemma_page_start(page: u32, bits: u32)
    requires
        bits <= 15,
    ensures
        page << bits == page * pow2(bits as nat) as int % 0x1_0000_0000,
{
    let size = pow2(bits as nat) as int;
    lemma_low_ones(page, bits);
    vstd::arithmetic::power2::lemma2_to64();
    if bits < 15 {
        vstd::arithmetic::power2::lemma_pow2_strictly_increases(bits as nat, 15);
    }
    let wide = page as u64;
    let shift = bits as u64;
    assert(wide * pow2(shift as nat) <= 0xFFFF_FFFF * 0x8000) by (nonlinear_arith)
        requires
            wide <= 0xFFFF_FFFF,
            pow2(shift as nat) <= 0x8000,
    ;
    vstd::bits::lemma_u64_shl_is_mul(wide, shift);
    assert((page << bits) as u64 == ((page as u64) << (bits as u64)) % 0x1_0000_0000)
        by (bit_vector)
        requires
            bits <= 15,
    ;
}

/// An inspection of an access that goes through the cache and the tables.
proof fn lemma_paged_means<M>(
    mask: u32,
    cpu: CpuModel<M>,
    query: TranslationQuery,
    base: InspectionModel,
    walk: WalkModel,
)
    requires
        cpu.atc.len() == 2,
        answer(cpu, query.function_code, query.address) matches Some(entry) ==> entry.paddr as int
            % page_size(cpu.regs.pmmu.tc) == 0,
        base.query == query,
        base.transparent_register is None,
        walk.resolved is Some <==> walk.failure is None,
        forall|i: int| 0 <= i < walk.descriptors.len() ==> {
            let step = #[trigger] walk.descriptors[i];
            &&& step.descriptor_type == step.words[0] % 4
            &&& step.used == (step.words[0] / 8 % 2 == 1)
        },
    ensures
        paged_means(mask, cpu, paged_inspection(base, mask, cpu, query, walk)),
{
    let regs = cpu.regs.pmmu;
    let fc = query.function_code;
    let tc = regs.tc;
    let steps = walk.descriptors;
    let found = paged_inspection(base, mask, cpu, query, walk);
    lemma_tc_numbers(tc);
    lemma_field_widths(tc);
    lemma_root(regs, fc);
    lemma_function_code(fc);
    lemma_page_number(tc, query.address);
    lemma_page_start(page_number(tc, query.address), tc.ps());
    if let Some(entry) = answer(cpu, fc, query.address) {
        lemma_page_join(entry.paddr, query.address, tc.ps());
    }
    assert(slot_shown(cpu, found));
    lemma_used_effects(steps);
    let used = used_effects(steps);
    let none = Seq::<DescriptorEffect>::empty();
    let cached = answer(cpu, fc, query.address);
    let by_cache = query.mode is CacheAware && cached is Some;
    let page = if by_cache {
        Some(entry_page(cached->0, tc, query.address))
    } else {
        table_page(walk)
    };
    let leaf = (page->0).leaf;
    let mark = DescriptorEffect { address: leaf, set_bits: 16 };
    assert forall|effect: DescriptorEffect| #[trigger]
        found.descriptor_effects.contains(effect) <==> {
            ||| effect.set_bits == 8 && !by_cache && lacks_used(steps, effect.address)
            ||| effect.set_bits == 16 && page is Some && rejection(page->0, fc, query.writing) is None
                && query.writing && !(page->0).modified && effect.address == leaf
        } by {
        lemma_contains_push(used, mark, effect);
        lemma_contains_push(none, mark, effect);
        assert(used.contains(effect) <==> effect.set_bits == 8 && lacks_used(steps, effect.address));
        assert(!none.contains(effect));
    }
}

impl<
    TBus: Bus,
    const ADDRESS_MASK: u32,
    const CPU_TYPE: usize,
    const FPU_TYPE: usize,
    const PMMU: bool,
> CpuM68k<TBus, ADDRESS_MASK, CPU_TYPE, FPU_TYPE, PMMU> {
    /// An inspection says what the registers, the cache and the tables say of an access, bit by bit,
    /// and its tables hold what inspection sees of memory. A function code of more than three bits
    /// is refused.
    pub proof fn law_inspection_means(cpu: CpuModel<TBus::Model>, query: TranslationQuery)
        requires
            cpu.atc.len() == 2,
            answer(cpu, query.function_code, query.address) matches Some(entry)
                ==> entry.paddr as int % page_size(cpu.regs.pmmu.tc) == 0,
        ensures
            match Self::inspected(cpu, query) {
                Err(error) => query.function_code >= 8 && error is FunctionCode,
                Ok(found) => {
                    &&& query.function_code < 8
                    &&& found.query == query
                    &&& inspection_means(PMMU, ADDRESS_MASK, cpu, found)
                    &&& found.tables matches Some(walk) ==> forall|i: int|
                        0 <= i < walk.descriptors.len() ==> words_seen::<TBus>(
                            cpu.bus,
                            #[trigger] walk.descriptors[i],
                        )
                },
            },
    {
        let regs = cpu.regs.pmmu;
        let fc = query.function_code;
        let tc = regs.tc;
        lemma_tc_numbers(tc);
        lemma_field_widths(tc);
        lemma_root(regs, fc);
        lemma_function_code(fc);
        lemma_page_number(tc, query.address);
        lemma_tt(regs.tt[0], fc, query.address, query.writing);
        lemma_tt(regs.tt[1], fc, query.address, query.writing);
        if let Ok(found) = Self::inspected(cpu, query) {
            if goes_through(PMMU, regs, fc, query.address, query.writing) && found.tables is Some {
                let walk = found.tables->0;
                let root = root_pointer(regs, fc);
                law_inspecting_search_means::<TBus>(cpu.bus, tc, root, query.address, fc);
                let steps = walk.descriptors;
                assert forall|i: int| 0 <= i < steps.len() implies {
                    let step = #[trigger] steps[i];
                    &&& step.descriptor_type == step.words[0] % 4
                    &&& step.used == (step.words[0] / 8 % 2 == 1)
                } by {
                    assert(step_means(tc, root, query.address, fc, steps, i));
                }
                let base = InspectionModel {
                    limitations: seq![ORGANIZATION_LIMITATION@],
                    ..inspection_base(PMMU, ADDRESS_MASK, cpu, query)
                };
                law_walk_resolves_or_fails::<InspectionMemory<'_, TBus>>(
                    cpu.bus,
                    tc,
                    root,
                    query.address,
                    fc,
                );
                lemma_paged_means(ADDRESS_MASK, cpu, query, base, walk);
            }
        }
    }
}

/// A cache has a slot for every page: one for each number that the bits between the ignored ones and
/// the page offset can make up.
pub proof fn law_caches_have_a_slot_for_every_page(tc: TcReg, address: u32)
    ensures
        cache_size(tc) == pow2((32 - tc_is(tc) - tc_ps(tc)) as nat),
        0 <= page_of(tc, address) < pow2((32 - tc_is(tc) - tc_ps(tc)) as nat),
{
    lemma_tc_numbers(tc);
    lemma_field_widths(tc);
    let consumed = (tc.is() + tc.ps()) as u32;
    lemma_offset_ones(0, consumed);
    lemma_page_number_bounded(tc, address);
    lemma_page_number(tc, address);
}

} // verus!
