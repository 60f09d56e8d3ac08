//! What holds of translation and inspection, on tables of a few levels.

use std::collections::HashMap;

use snow_core::bus::{AccessError, AccessErrorModel, Bus, Group0Details, SparseBus};
use snow_core::cpu_m68k::cpu::{
    CpuError, CpuM68k, HistoryEntry, PagefaultCause, FPU_M68882, HISTORY_CAPACITY, M68030,
};
use snow_core::cpu_m68k::pmmu::descriptors::{
    PmmuLongPageDescriptor, PmmuLongTableDescriptor, PmmuShortPageDescriptor,
    PmmuShortTableDescriptor,
};
use snow_core::cpu_m68k::pmmu::inspect::{
    FaultSignal, InspectError, TranslationMode, TranslationQuery, TranslationRoute,
    ORGANIZATION_LIMITATION,
};
use snow_core::cpu_m68k::pmmu::regs::{RootPointerReg, TcReg};
use snow_core::cpu_m68k::pmmu::walk::WalkFailureKind;

type Cpu = CpuM68k<SparseBus, { u32::MAX }, M68030, FPU_M68882, true>;

fn put(mem: &mut HashMap<u32, u8>, address: u32, value: u32) {
    for (offset, byte) in value.to_be_bytes().into_iter().enumerate() {
        mem.insert(address + offset as u32, byte);
    }
}

fn tables(mem: &mut HashMap<u32, u8>) {
    // 8 ignored bits, 6-bit A and B indices, 12-bit pages.
    put(mem, 0x1000, 0x2002);
    put(mem, 0x1004, 0x300A); // used before
    put(mem, 0x2000, 0x5001);
    put(mem, 0x2004, 0x6005); // write-protected
    put(mem, 0x3000, 0x7011); // modified before
    put(mem, 0x3004, 0);
    put(mem, 0x1008, 0x8000_0001); // early termination
}

fn machine() -> Cpu {
    let mut cpu = Cpu::new(SparseBus::new());
    cpu.regs.pmmu.tc = TcReg(0x80C8_6600);
    cpu.regs.pmmu.crp = RootPointerReg(0x7FFF_0002_0000_1000);
    tables(&mut cpu.bus.mem);
    cpu.pmmu_cache_ensure();
    cpu.enable_history(true);
    cpu
}

const PAGES: [u32; 5] = [0x0000_0123, 0x0000_1456, 0x0004_0789, 0x0004_1000, 0x0008_2ABC];

fn query(address: u32, function_code: u8, writing: bool) -> TranslationQuery {
    TranslationQuery {
        address,
        function_code,
        writing,
        mode: TranslationMode::CacheAware,
    }
}

#[test]
fn predictions_and_effects_come_true() {
    for address in PAGES {
        for first_writing in [false, true] {
            for writing in [false, true] {
                let mut cpu = machine();
                // The first access can fill the cache, so the second takes either route.
                let _ = cpu.pmmu_translate(5, address, first_writing);
                let prediction = cpu.inspect_translation(query(address, 5, writing)).unwrap();
                let mut expected = cpu.bus.mem.clone();
                for effect in &prediction.descriptor_effects {
                    *expected.get_mut(&(effect.address + 3)).unwrap() |= effect.set_bits as u8;
                }
                let outcome = cpu.pmmu_translate(5, address, writing);
                match (prediction.physical_address, prediction.failure) {
                    (Some(physical), None) => assert_eq!(outcome, Ok(physical)),
                    (None, Some(_)) => assert_eq!(
                        outcome,
                        Err(CpuError::BusError(Group0Details {
                            function_code: 5,
                            ir: 0,
                            instruction: false,
                            read: !writing,
                            address,
                            start_pc: 0,
                            size: 0,
                        }))
                    ),
                    _ => panic!("neither or both"),
                }
                assert_eq!(cpu.bus.mem, expected);
            }
        }
    }
}

#[test]
fn effects_are_listed_level_by_level() {
    let cpu = machine();
    let fresh = cpu.inspect_translation(query(PAGES[0], 5, true)).unwrap();
    assert_eq!(
        fresh
            .descriptor_effects
            .iter()
            .map(|effect| (effect.address, effect.set_bits))
            .collect::<Vec<_>>(),
        [(0x1000, 8), (0x2000, 8), (0x2000, 16)]
    );
    let marked = cpu.inspect_translation(query(PAGES[2], 5, true)).unwrap();
    assert_eq!(
        marked
            .descriptor_effects
            .iter()
            .map(|effect| (effect.address, effect.set_bits))
            .collect::<Vec<_>>(),
        [(0x3000, 8)]
    );
}

#[test]
fn a_translation_is_cached_until_the_flush() {
    let mut cpu = machine();
    assert_eq!(cpu.pmmu_translate(5, PAGES[0], false), Ok(0x5123));
    put(&mut cpu.bus.mem, 0x2000, 0x9001);
    assert_eq!(cpu.pmmu_translate(5, PAGES[0], false), Ok(0x5123));
    assert_eq!(cpu.pmmu_translate(6, PAGES[0], false), Ok(0x9123));
    cpu.pmmu_cache_invalidate();
    assert_eq!(cpu.pmmu_translate(5, PAGES[0], false), Ok(0x9123));

    // The generation wraps with a full purge, and starts again at one.
    cpu.pmmu_atc_generation = u32::MAX;
    cpu.pmmu_cache_invalidate();
    assert_eq!(cpu.pmmu_atc_generation, 1);
    assert!(cpu.pmmu_atc.iter().flatten().all(Option::is_none));
}

#[test]
fn a_cached_page_serves_all_its_addresses() {
    let mut cpu = machine();
    assert_eq!(cpu.pmmu_translate(5, 0x0000_0123, false), Ok(0x5123));
    put(&mut cpu.bus.mem, 0x1000, 0);
    put(&mut cpu.bus.mem, 0x2000, 0x9001);
    let memory = cpu.bus.mem.clone();
    for low in [0, 0x124, 0xFFF] {
        // After a miss, and after the hits before.
        assert_eq!(cpu.pmmu_translate(5, low, false), Ok(0x5000 | low));
    }
    assert_eq!(cpu.bus.mem, memory);

    // A failure leaves the cache as it was.
    let cache = cpu.pmmu_atc.clone();
    assert!(cpu.pmmu_translate(5, 0x0000_1000, false).is_err());
    assert_eq!(cpu.pmmu_atc, cache);
    assert_eq!(cpu.pmmu_translate(5, 0x7, false), Ok(0x5007));
}

#[test]
fn every_query_to_the_mmu_tells_how_the_cache_is_organized() {
    let cpu = machine();
    for function_code in [1, 5, 7] {
        let found = cpu
            .inspect_translation(query(PAGES[0], function_code, false))
            .unwrap();
        assert_eq!(found.limitations, [ORGANIZATION_LIMITATION]);
        assert_eq!(found.route == TranslationRoute::CpuSpace, function_code == 7);
    }
}

#[test]
fn ptest_reports_and_writes_nothing() {
    for (address, outcome, level) in [
        (PAGES[0], Ok((0x5123, false, false, 0x2000, false)), 2),
        (
            PAGES[1],
            Err(CpuError::Pagefault(PagefaultCause::WriteProtected)),
            2,
        ),
        (PAGES[2], Ok((0x7789, false, false, 0x3000, true)), 2),
        (
            PAGES[3],
            Err(CpuError::Pagefault(PagefaultCause::Invalid)),
            2,
        ),
        (PAGES[4], Ok((0x8000_2ABC, false, false, 0x1008, false)), 1),
    ] {
        let mut cpu = machine();
        let memory = cpu.bus.mem.clone();
        assert_eq!(cpu.pmmu_translate_lookup::<true>(5, address, true), outcome);
        assert_eq!(cpu.bus.mem, memory);
        assert_eq!(cpu.regs.pmmu.psr.level_number(), level);
        assert!(!cpu.regs.pmmu.psr.bus_error());
        assert!(cpu.read_history().unwrap().is_empty());
        assert!(cpu.pmmu_atc.iter().flatten().all(Option::is_none));
    }
}

#[test]
fn a_rejection_by_the_cache_leaves_the_tables_alone() {
    let mut cpu = machine();
    assert_eq!(cpu.pmmu_translate(5, PAGES[1], false), Ok(0x6456));
    let memory = cpu.bus.mem.clone();
    let cache = cpu.pmmu_atc.clone();
    assert!(cpu.pmmu_translate(5, PAGES[1], true).is_err());
    assert_eq!(cpu.bus.mem, memory);
    assert_eq!(cpu.pmmu_atc, cache);
    assert!(cpu.regs.pmmu.psr.write_protected());
    match cpu.read_history().unwrap() {
        [HistoryEntry::Pagefault {
            address,
            write: true,
            detail,
        }] => {
            assert_eq!(*address, PAGES[1]);
            assert_eq!(detail.route, TranslationRoute::Atc);
            assert_eq!(detail.failure.kind, WalkFailureKind::WriteProtected);
            assert_eq!(
                detail.failure.detail,
                "Cached page protection rejects the access"
            );
            assert_eq!(detail.tables, None);
        }
        _ => panic!("one fault is recorded"),
    }
}

#[test]
fn the_history_drops_its_oldest_entries() {
    let mut cpu = machine();
    for pc in 0..=HISTORY_CAPACITY as u32 {
        cpu.push_history(HistoryEntry::Instruction { pc });
    }
    let history = cpu.read_history().unwrap();
    assert_eq!(history.len(), HISTORY_CAPACITY);
    assert_eq!(history[0], HistoryEntry::Instruction { pc: 1 });
    cpu.enable_history(false);
    assert_eq!(cpu.read_history(), None);
}

#[test]
fn cache_pages_join_where_they_are_cut() {
    let mut cpu = machine();
    for address in [PAGES[0], PAGES[1], PAGES[2]] {
        cpu.pmmu_translate(5, address, false).unwrap();
    }
    let whole = cpu.inspect_atc(0, 65536, 4096).unwrap();
    assert_eq!(whole.entries.len(), 3);
    assert_eq!(whole.next, None);
    let mut joined = vec![];
    let mut start = Some(0);
    while let Some(cursor) = start {
        let page = cpu.inspect_atc(cursor, 37, 1).unwrap();
        joined.extend(page.entries);
        start = page.next;
    }
    assert_eq!(joined, whole.entries);
    let messages = [
        InspectError::FunctionCode.message(),
        cpu.inspect_atc(0, 0, 1).unwrap_err().message(),
        cpu.inspect_atc(0, 1, 0).unwrap_err().message(),
        cpu.inspect_atc(usize::MAX, 1, 1).unwrap_err().message(),
    ];
    assert_eq!(
        messages,
        [
            "Function code must fit three bits",
            "ATC scan limit must be 1..65536",
            "ATC entry limit must be 1..4096",
            "ATC cursor exceeds cache storage",
        ]
    );
    assert_eq!(
        cpu.inspect_translation(query(0, 8, false)),
        Err(InspectError::FunctionCode)
    );
}

#[test]
fn descriptors_have_their_fields_in_place() {
    let page = PmmuShortPageDescriptor(0xABCD_EFD9);
    assert_eq!(page.page_addr(), 0xAB_CDEF);
    assert_eq!(page.dt(), 1);
    assert_eq!(
        [page.wp(), page.u(), page.m(), page.l(), page.ci(), page.g()],
        [false, true, true, false, true, true]
    );
    let table = PmmuShortTableDescriptor(0xABCD_EF06);
    assert_eq!(table.table_addr(), 0xABC_DEF0);
    assert_eq!((table.dt(), table.wp(), table.u()), (2, true, false));
    let long = PmmuLongTableDescriptor(0x8123_0103_4567_89A0);
    assert_eq!((long.msl(), long.lsl()), (0x8123_0103, 0x4567_89A0));
    assert_eq!((long.limit(), long.lu()), (0x123, true));
    assert_eq!((long.dt(), long.s(), long.sg()), (3, true, false));
    assert_eq!(long.table_addr(), 0x456_789A);
    let long = PmmuLongPageDescriptor(0x0000_FC01_4567_89A0);
    assert_eq!((long.ral(), long.wal()), (7, 7));
    assert_eq!(long.page_addr(), 0x45_6789);
}

/// Memory in which one address does not answer reads and another does not take writes.
struct FaultyBus {
    mem: HashMap<u32, u8>,
    unreadable: u32,
    unwritable: u32,
    read_only: u32,
    reads: Vec<u32>,
    writes: Vec<u32>,
}

impl Bus for FaultyBus {
    type Model = ();

    fn model(&self) {}
    fn long_read(_machine: (), _address: u32) -> (Result<u32, AccessErrorModel>, ()) {
        unreachable!()
    }
    fn long_written(
        _machine: (),
        _address: u32,
        _value: u32,
    ) -> (Result<(), AccessErrorModel>, ()) {
        unreachable!()
    }
    fn byte_inspected(_machine: (), _address: u32) -> Option<u8> {
        unreachable!()
    }
    fn clock(_machine: ()) -> u64 {
        unreachable!()
    }

    fn read_ticks_physical(&mut self, address: u32) -> Result<u32, AccessError> {
        if address == self.unreadable {
            return Err(AccessError {
                message: "no read".to_string(),
                bus_error: None,
            });
        }
        self.reads.push(address);
        let byte = |offset: u32| self.mem.get(&(address + offset)).copied().unwrap_or(0);
        Ok(u32::from_be_bytes([byte(0), byte(1), byte(2), byte(3)]))
    }

    fn write_ticks_physical(&mut self, address: u32, value: u32) -> Result<(), AccessError> {
        if address == self.unwritable {
            return Err(AccessError {
                message: "no write".to_string(),
                bus_error: None,
            });
        }
        self.writes.push(address);
        if address != self.read_only {
            put(&mut self.mem, address, value);
        }
        Ok(())
    }

    fn inspect_read(&self, address: u32) -> Option<u8> {
        self.mem.get(&address).copied()
    }

    fn cycles(&self) -> u64 {
        17
    }
}

type FaultyCpu = CpuM68k<FaultyBus, { u32::MAX }, M68030, FPU_M68882, true>;

fn faulty(unreadable: u32, unwritable: u32) -> FaultyCpu {
    let mut mem = HashMap::new();
    tables(&mut mem);
    let mut cpu = CpuM68k::new(FaultyBus {
        mem,
        unreadable,
        unwritable,
        read_only: u32::MAX,
        reads: vec![],
        writes: vec![],
    });
    cpu.regs.pmmu.tc = TcReg(0x80C8_6600);
    cpu.regs.pmmu.crp = RootPointerReg(0x7FFF_0002_0000_1000);
    cpu.pmmu_cache_ensure();
    cpu.enable_history(true);
    cpu
}

#[test]
fn table_accesses_that_fail_are_reported_and_recorded() {
    for (unreadable, unwritable, message, kind, address, level, tables) in [
        (
            0x2000,
            0,
            "no read",
            WalkFailureKind::UnreadableDescriptor,
            0x2000,
            2,
            true,
        ),
        (
            0,
            0x1000,
            "no write",
            WalkFailureKind::DescriptorUpdate,
            0x1000,
            1,
            true,
        ),
    ] {
        let mut cpu = faulty(unreadable, unwritable);
        let error = cpu.pmmu_translate(5, PAGES[0], true).unwrap_err();
        assert_eq!(
            error,
            CpuError::Access(AccessError {
                message: message.to_string(),
                bus_error: None
            })
        );
        match cpu.read_history().unwrap() {
            [HistoryEntry::Pagefault { detail, .. }] => {
                assert_eq!(detail.signal, FaultSignal::TableAccessFailure);
                assert_eq!(detail.failure.kind, kind);
                assert_eq!(detail.failure.address, Some(address));
                assert_eq!(detail.failure.level, level);
                assert_eq!(detail.failure.detail, message);
                assert_eq!(detail.cycle, 17);
                assert_eq!(detail.tables.is_some(), tables);
            }
            _ => panic!("one fault is recorded"),
        }
        assert!(cpu.pmmu_atc.iter().flatten().all(Option::is_none));
    }

    // The first write through a clean page cannot set M.
    let mut cpu = faulty(0, 0x2000);
    put(&mut cpu.bus.mem, 0x2000, 0x5009);
    assert_eq!(cpu.pmmu_translate(5, PAGES[0], false), Ok(0x5123));
    assert!(cpu.pmmu_translate(5, PAGES[0], true).is_err());
    match cpu.read_history().unwrap() {
        [HistoryEntry::Pagefault { detail, .. }] => {
            assert_eq!(detail.route, TranslationRoute::Atc);
            assert_eq!(detail.failure.kind, WalkFailureKind::DescriptorUpdate);
            assert_eq!(detail.failure.level, 0);
        }
        _ => panic!("one fault is recorded"),
    }
    assert_eq!(
        cpu.pmmu_atc_lookup(0, 0, 5).map(|entry| entry.modified),
        Some(false)
    );
}

#[test]
fn predictions_come_true_beside_rom_and_faults() {
    // Accesses fail elsewhere, and one word elsewhere is read-only.
    let mut cpu = faulty(0x9000, 0x9004);
    cpu.bus.read_only = 0x9008;
    let prediction = cpu.inspect_translation(query(PAGES[0], 5, true)).unwrap();
    assert_eq!(prediction.physical_address, Some(0x5123));
    assert_eq!(cpu.pmmu_translate(5, PAGES[0], true), Ok(0x5123));
    assert_eq!(cpu.bus.reads, [0x1000, 0x2000, 0x2000]);
    assert_eq!(cpu.bus.writes, [0x1000, 0x2000, 0x2000]);
    assert_eq!((cpu.bus.mem[&0x1003], cpu.bus.mem[&0x2003]), (0x0A, 0x19));

    // A descriptor in ROM ignores its mark.
    let mut cpu = faulty(0x9000, 0x9004);
    cpu.bus.read_only = 0x1000;
    let prediction = cpu.inspect_translation(query(PAGES[0], 5, false)).unwrap();
    assert_eq!(
        cpu.pmmu_translate(5, PAGES[0], false),
        Ok(prediction.physical_address.unwrap())
    );
    assert_eq!(cpu.bus.mem[&0x1003], 0x02);

    // One that is marked already is not written at all.
    let mut cpu = faulty(0x9000, 0x1004);
    let prediction = cpu.inspect_translation(query(PAGES[2], 5, false)).unwrap();
    assert_eq!(
        cpu.pmmu_translate(5, PAGES[2], false),
        Ok(prediction.physical_address.unwrap())
    );
    assert_eq!(cpu.bus.writes, [0x3000]);
}

#[test]
fn ptest_reads_and_does_not_write() {
    let mut cpu = faulty(0x9000, 0x9004);
    assert_eq!(
        cpu.pmmu_translate_lookup::<true>(5, PAGES[0], true),
        Ok((0x5123, false, false, 0x2000, false))
    );
    assert_eq!(cpu.bus.reads, [0x1000, 0x2000]);
    assert!(cpu.bus.writes.is_empty());
}

#[test]
fn searches_that_cannot_be_made_fail_with_their_reason() {
    let mut cpu = machine();
    cpu.regs.pmmu.crp = RootPointerReg(0x7FFF_0001_0000_1000);
    assert_eq!(
        cpu.pmmu_translate(5, PAGES[0], false),
        Err(CpuError::Walk(
            "Snow's walker requires a short or long table root (DT=2 or DT=3)".to_string()
        ))
    );
    cpu.regs.pmmu.crp = RootPointerReg(0x7FFF_0002_0000_1000);
    put(&mut cpu.bus.mem, 0x2000, 0x4002);
    assert_eq!(
        cpu.pmmu_translate(5, PAGES[0], false),
        Err(CpuError::Walk(
            "A table descriptor requires another nonzero index; indirect descriptors are \
             unsupported"
                .to_string()
        ))
    );
    assert_eq!(cpu.read_history().unwrap().len(), 2);
    for entry in cpu.read_history().unwrap() {
        match entry {
            HistoryEntry::Pagefault { detail, .. } => {
                assert_eq!(detail.signal, FaultSignal::BackendFailure)
            }
            _ => panic!("faults alone"),
        }
    }
}
