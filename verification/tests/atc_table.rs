//! The compact form of a translation cache.

use snow_core::cpu_m68k::pmmu::atc_table::AtcTable;
use snow_core::cpu_m68k::pmmu::translate::PmmuAtcEntry;

/// An entry as plain values, in the order of its fields.
type Plain = (u8, u32, bool, bool, u32, bool, u32);

fn plain(entry: PmmuAtcEntry) -> Plain {
    (
        entry.function_code,
        entry.paddr,
        entry.wp,
        entry.s,
        entry.leaf_desc_addr,
        entry.modified,
        entry.generation,
    )
}

fn entry(plain: Plain) -> PmmuAtcEntry {
    PmmuAtcEntry {
        function_code: plain.0,
        paddr: plain.1,
        wp: plain.2,
        s: plain.3,
        leaf_desc_addr: plain.4,
        modified: plain.5,
        generation: plain.6,
    }
}

fn sample_entry(paddr: u32) -> PmmuAtcEntry {
    PmmuAtcEntry {
        function_code: 5,
        paddr,
        wp: true,
        s: false,
        leaf_desc_addr: paddr + 0x10,
        modified: true,
        generation: 1,
    }
}

#[test]
fn atc_serde_roundtrip() {
    let mut table0 = vec![None; 1024];
    table0[3] = Some(sample_entry(0x1000));
    table0[1000] = Some(sample_entry(0x2000));
    let mut table1 = vec![None; 64];
    table1[0] = Some(sample_entry(0x3000));

    let atc = [table0, table1];

    let stored: Vec<(usize, Vec<(usize, Plain)>)> = atc
        .iter()
        .map(|slots| {
            let table = AtcTable::from_slots(slots);
            (
                table.size,
                table
                    .entries
                    .into_iter()
                    .map(|(index, entry)| (index, plain(entry)))
                    .collect(),
            )
        })
        .collect();
    assert_eq!(stored[0].1.len(), 2);
    let bytes = postcard::to_allocvec(&stored).unwrap();
    assert!(bytes.len() < 100);
    let read: Vec<(usize, Vec<(usize, Plain)>)> = postcard::from_bytes(&bytes).unwrap();
    let restored: Vec<Vec<Option<PmmuAtcEntry>>> = read
        .into_iter()
        .map(|(size, entries)| {
            AtcTable {
                size,
                entries: entries
                    .into_iter()
                    .map(|(index, plain)| (index, entry(plain)))
                    .collect(),
            }
            .into_slots()
            .unwrap()
        })
        .collect();

    assert_eq!(restored[0].len(), 1024);
    assert_eq!(restored[1].len(), 64);
    assert_eq!(restored, atc);
}

#[test]
fn an_index_out_of_range_spoils_a_table() {
    let table = AtcTable {
        size: 4,
        entries: vec![(1, sample_entry(0x1000)), (4, sample_entry(0x2000))],
    };
    assert!(table.into_slots().is_none());
}

#[test]
fn a_later_entry_replaces_an_earlier_one() {
    let table = AtcTable {
        size: 2,
        entries: vec![(1, sample_entry(0x1000)), (1, sample_entry(0x2000))],
    };
    assert_eq!(
        table.into_slots().unwrap(),
        [None, Some(sample_entry(0x2000))]
    );
}
