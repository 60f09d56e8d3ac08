//! Canonical JSON trees and digests of snapshots.

use snow_core::headless::digest::digest_guest;
use snow_core::headless::json::{canonicalize, JsonValue};
use snow_core::headless::media::MemoryDisk;

fn object(members: &[(&str, u64)]) -> JsonValue {
    JsonValue::Object(
        members
            .iter()
            .map(|(key, value)| (key.to_string(), JsonValue::Unsigned(*value)))
            .collect(),
    )
}

fn snapshot(cpu: Vec<(&str, JsonValue)>) -> JsonValue {
    JsonValue::Object(vec![(
        "Compact".to_string(),
        JsonValue::Object(
            cpu.into_iter()
                .map(|(key, value)| (key.to_string(), value))
                .collect(),
        ),
    )])
}

#[test]
fn members_are_sorted_at_every_depth() {
    let mut value = JsonValue::Array(vec![
        object(&[("b", 1), ("a", 2), ("ab", 3), ("", 4), ("\u{E9}", 5), ("z", 6)]),
        JsonValue::Object(vec![
            ("y".to_string(), object(&[("2", 0), ("10", 0), ("1", 0)])),
            ("x".to_string(), JsonValue::Text("text".to_string())),
        ]),
        JsonValue::Null,
    ]);
    canonicalize(&mut value);
    let expected = JsonValue::Array(vec![
        object(&[("", 4), ("a", 2), ("ab", 3), ("b", 1), ("z", 6), ("\u{E9}", 5)]),
        JsonValue::Object(vec![
            ("x".to_string(), JsonValue::Text("text".to_string())),
            ("y".to_string(), object(&[("1", 0), ("10", 0), ("2", 0)])),
        ]),
        JsonValue::Null,
    ]);
    assert_eq!(value, expected);
    canonicalize(&mut value);
    assert_eq!(value, expected);
}

#[test]
fn digests_are_of_the_canonical_text() {
    let media = vec![];
    let digests = digest_guest(
        snapshot(vec![("bus", object(&[("z", 1), ("y", 2), ("ram", 3)]))]),
        0,
        &media,
    );
    // SHA-256 of "{}", of `{"y":2,"z":1}` and of "3".
    assert_eq!(
        digests.get("cpu"),
        Some("44136fa355b3678a1146ad16f7e8649e94fb4fc21fe77e8310c060f61caaff8a")
    );
    assert_eq!(
        digests.get("ram"),
        Some("4e07408562bedb8b60ce05c1decfe3ad16b72230967de01f640b7e4729b49fce")
    );
    assert_eq!(
        digests.get("bus"),
        Some("faf65649bd57a0ea518e7621901f418d56a80fd06da094f16bf61588a3164ac6")
    );
    assert_eq!(digests.get("rom"), None);
    let other = digest_guest(
        snapshot(vec![
            ("step_over_addr", JsonValue::Signed(-5)),
            ("bus", object(&[("ram", 3), ("y", 2), ("z", 1)])),
            ("breakpoints", JsonValue::Bool(true)),
        ]),
        0,
        &media,
    );
    assert_eq!(digests, other);
    let changed = digest_guest(
        snapshot(vec![("bus", object(&[("ram", 3), ("y", 1), ("z", 2)]))]),
        0,
        &media,
    );
    assert_ne!(digests.get("bus"), changed.get("bus"));
    assert_eq!(digests.get("cpu"), changed.get("cpu"));
}

#[test]
fn images_and_earlier_cycles_have_digests() {
    let media = vec![(
        3,
        MemoryDisk {
            bytes: b"abc".to_vec(),
        },
    )];
    let digests = digest_guest(snapshot(vec![("bus", object(&[]))]), 3, &media);
    assert_eq!(
        digests.get("scsi_disk_3"),
        Some("ba7816bf8f01cfea414140de5dae2223b00361a396177a9cb410ff61f20015ad")
    );
    assert_eq!(
        digests.get("cycle_offset"),
        Some("4e07408562bedb8b60ce05c1decfe3ad16b72230967de01f640b7e4729b49fce")
    );
    assert_eq!(
        digests
            .entries
            .iter()
            .map(|(name, _)| name.as_str())
            .collect::<Vec<_>>(),
        ["bus", "cpu", "cycle_offset", "scsi_disk_3"]
    );
}

#[test]
fn an_image_is_read_where_it_was_written() {
    let mut disk = MemoryDisk {
        bytes: vec![0; 1024],
    };
    disk.write_bytes(510, &[1, 2, 3, 4]);
    assert_eq!(disk.byte_len(), 1024);
    assert_eq!(disk.read_bytes(510, 4), [1, 2, 3, 4]);
    assert_eq!(disk.read_bytes(508, 8), [0, 0, 1, 2, 3, 4, 0, 0]);
    assert!(disk.read_bytes(1024, 0).is_empty());
}
