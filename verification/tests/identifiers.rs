//! Typed identifiers and UUIDs.

use endjine::{DbUuid, TrackId};

#[test]
fn is_valid() {
    assert!(!TrackId::invalid_min_exclusive().is_valid());
    assert!(!TrackId::invalid_zero().is_valid());
    assert!(!TrackId::new(TrackId::invalid_zero().raw - 1).is_valid());
    assert!(TrackId::new(TrackId::invalid_zero().raw + 1).is_valid());
}

#[test]
fn default_is_invalid_zero() {
    assert_eq!(TrackId::default(), TrackId::invalid_zero());
}

#[test]
fn default_is_nil() {
    assert!(DbUuid::default().is_nil());
    assert_eq!(DbUuid::default(), DbUuid::nil());
}

#[test]
fn wire_text_of_nil_is_empty() {
    assert_eq!(DbUuid::nil().to_wire_text(), "");
}

#[test]
fn wire_text_is_lowercase_hyphenated() {
    let value = 0xa1a2a3a4b1b2c1c2d1d2d3d4d5d6d7d8u128;
    let uuid = DbUuid::new(value);
    assert_eq!(uuid.to_wire_text(), "a1a2a3a4-b1b2-c1c2-d1d2-d3d4d5d6d7d8");
}

#[test]
fn wire_text_parses_back() {
    let value = 0xa1a2a3a4b1b2c1c2d1d2d3d4d5d6d7d8u128;
    let uuid = DbUuid::new(value);
    let parsed = DbUuid::from_wire_text(&uuid.to_wire_text()).unwrap();
    assert_eq!(parsed, uuid);

    let nil = DbUuid::from_wire_text("").unwrap();
    assert!(nil.is_nil());

    assert!(DbUuid::from_wire_text("not a uuid").is_none());
}
