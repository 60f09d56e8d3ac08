//! Resident scraps.

use snow_core::util::mac::macroman_to_utf8;
use snow_core::util::scrap::{inspect_scrap, read_scrap_text, ScrapError};

#[test]
fn resident_scrap_validates_unknown_entries_padding_bounds_and_pointer_tags() {
    let mut ram = vec![0; 0x2000];
    assert_eq!(inspect_scrap(&ram, 100, u32::MAX), Err(ScrapError::Empty));
    ram[0x964..0x968].copy_from_slice(&0xAB001000u32.to_be_bytes());
    ram[0x1000..0x1004].copy_from_slice(&0xCD001100u32.to_be_bytes());
    let data = b"PICT\0\0\0\x01x\0TEXT\0\0\0\x03a\rb\0";
    ram[0x1100..0x1100 + data.len()].copy_from_slice(data);
    ram[0x960..0x964].copy_from_slice(&(data.len() as u32).to_be_bytes());
    let text = inspect_scrap(&ram, 100, 0xFFFFFF).unwrap();
    assert_eq!(text.address, 0x1112);
    assert_eq!(text.bytes, b"a\rb");
    assert_eq!(
        inspect_scrap(&ram, 100, u32::MAX),
        Err(ScrapError::Unreadable)
    );
    assert_eq!(
        inspect_scrap(&ram, 8, 0xFFFFFF),
        Err(ScrapError::LimitExceeded)
    );
    ram[0x960..0x964].copy_from_slice(&10u32.to_be_bytes());
    assert_eq!(inspect_scrap(&ram, 100, 0xFFFFFF), Err(ScrapError::NoText));
    ram[0x960..0x964].copy_from_slice(&21u32.to_be_bytes());
    assert_eq!(
        inspect_scrap(&ram, 100, 0xFFFFFF),
        Err(ScrapError::Malformed)
    );
    ram[0x96A..0x96C].copy_from_slice(&(-1i16).to_be_bytes());
    assert_eq!(
        inspect_scrap(&ram, 100, 0xFFFFFF),
        Err(ScrapError::Nonresident)
    );
    assert_eq!(
        inspect_scrap(&ram[..8], 100, 0xFFFFFF),
        Err(ScrapError::Unreadable)
    );
}

/// RAM with a scrap at 0x1100, behind a handle at 0x1000.
fn with_scrap(data: &[u8]) -> Vec<u8> {
    let mut ram = vec![0; 0x2000];
    ram[0x960..0x964].copy_from_slice(&(data.len() as u32).to_be_bytes());
    ram[0x964..0x968].copy_from_slice(&0x1000u32.to_be_bytes());
    ram[0x1000..0x1004].copy_from_slice(&0x1100u32.to_be_bytes());
    ram[0x1100..0x1100 + data.len()].copy_from_slice(data);
    ram
}

#[test]
fn the_first_text_wins_and_later_entries_are_still_checked() {
    let two = with_scrap(b"TEXT\0\0\0\x02one!TEXT\0\0\0\x02two!");
    // A length of two leaves "e!" where a header should be.
    assert_eq!(
        inspect_scrap(&two, 100, u32::MAX),
        Err(ScrapError::Malformed)
    );
    let both = with_scrap(b"TEXT\0\0\0\x04one!TEXT\0\0\0\x04two!");
    let text = inspect_scrap(&both, 100, u32::MAX).unwrap();
    assert_eq!(text.address, 0x1108);
    assert_eq!(text.bytes, b"one!");
    let broken = with_scrap(b"TEXT\0\0\0\x04one!PICT\0\0\0\x40");
    assert_eq!(
        inspect_scrap(&broken, 100, u32::MAX),
        Err(ScrapError::Malformed)
    );
}

#[test]
fn null_pointers_are_malformed_and_wild_ones_unreadable() {
    let mut ram = with_scrap(b"TEXT\0\0\0\0");
    assert_eq!(inspect_scrap(&ram, 100, u32::MAX).unwrap().bytes, b"");
    ram[0x1000..0x1004].copy_from_slice(&0u32.to_be_bytes());
    assert_eq!(
        inspect_scrap(&ram, 100, u32::MAX),
        Err(ScrapError::Malformed)
    );
    ram[0x1000..0x1004].copy_from_slice(&0x1FFCu32.to_be_bytes());
    assert_eq!(
        inspect_scrap(&ram, 100, u32::MAX),
        Err(ScrapError::Unreadable)
    );
    ram[0x964..0x968].copy_from_slice(&0x1FFEu32.to_be_bytes());
    assert_eq!(
        inspect_scrap(&ram, 100, u32::MAX),
        Err(ScrapError::Unreadable)
    );
    ram[0x964..0x968].copy_from_slice(&0u32.to_be_bytes());
    assert_eq!(
        inspect_scrap(&ram, 100, u32::MAX),
        Err(ScrapError::Malformed)
    );
}

#[test]
fn text_is_copied_with_host_characters_and_line_ends() {
    let ram = with_scrap(b"TEXT\0\0\0\x05a\r\x8E\xCA\xF0\0");
    assert_eq!(
        read_scrap_text(&ram).as_deref(),
        Some("a\n\u{E9}\u{A0}\u{F8FF}")
    );
    assert_eq!(read_scrap_text(&ram[..0x900]), None);
    assert_eq!(macroman_to_utf8(b"\x80\xA5\xDB\xFF"), "\u{C4}\u{2022}\u{20AC}\u{2C7}");
}
