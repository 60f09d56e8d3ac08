//! Watchpoint types.

use snow_core::watch::WatchpointType;

#[test]
fn names_and_sizes() {
    let kinds = [
        (WatchpointType::U8, "u8", 1, "u8"),
        (WatchpointType::U16, "u16", 2, "u16"),
        (WatchpointType::U32, "u32", 4, "u32"),
        (WatchpointType::String(31), "string", 31, "string(31)"),
    ];
    for (kind, name, size, text) in kinds {
        assert_eq!(kind.as_str(), name);
        assert_eq!(kind.size_bytes(), size);
        assert_eq!(kind.to_string(), text);
        assert_eq!(WatchpointType::parse(text), Some(kind));
    }
}

#[test]
fn case_and_surrounding_space_do_not_matter() {
    assert_eq!(WatchpointType::parse(" \tU16\n"), Some(WatchpointType::U16));
    assert_eq!(
        WatchpointType::parse("\u{2003}String(12)\u{A0}"),
        Some(WatchpointType::String(12))
    );
    assert_eq!(WatchpointType::parse("u 8"), None);
    assert_eq!(WatchpointType::parse(""), None);
}

#[test]
fn lengths_are_bounded_numerals() {
    assert_eq!(
        WatchpointType::parse("string(1024)"),
        Some(WatchpointType::String(1024))
    );
    assert_eq!(
        WatchpointType::parse("string(+0008)"),
        Some(WatchpointType::String(8))
    );
    for text in [
        "string(0)",
        "string(1025)",
        "string(99999999999999999999999999)",
        "string()",
        "string(+)",
        "string(-1)",
        "string( 1)",
        "string(1 )",
        "string(1",
        "string1)",
        "string)",
        "string(",
        "string(\u{661})",
    ] {
        assert_eq!(WatchpointType::parse(text), None, "{text}");
    }
    assert_eq!(WatchpointType::String(0).to_string(), "string(0)");
    assert_eq!(WatchpointType::parse_normalized("STRING(5)"), None);
    assert_eq!(
        WatchpointType::parse_normalized("string(5)"),
        Some(WatchpointType::String(5))
    );
}
