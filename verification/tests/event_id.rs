use fossic::hex::hex_nibble;
use fossic::{EventId, FossicError, InvalidEventId};

fn sample_bytes() -> [u8; 32] {
    let mut b = [0u8; 32];
    for (i, x) in b.iter_mut().enumerate() {
        *x = (i as u8).wrapping_mul(37).wrapping_add(11);
    }
    b
}

#[test]
fn hex_round_trip() {
    let id = EventId::from_bytes(sample_bytes());
    let hex = id.to_hex();
    assert_eq!(hex.len(), 64);
    assert_eq!(EventId::from_hex(&hex).unwrap(), id);
}

#[test]
fn to_hex_is_lowercase_two_digits_per_byte() {
    let mut b = [0u8; 32];
    b[0] = 0xab;
    b[1] = 0x0f;
    b[31] = 0xff;
    let hex = EventId::from_bytes(b).to_hex();
    assert!(hex.starts_with("ab0f00"));
    assert!(hex.ends_with("00ff"));
    assert_eq!(hex.to_lowercase(), hex);
}

#[test]
fn from_hex_accepts_uppercase_and_renders_lowercase() {
    let id = EventId::from_bytes(sample_bytes());
    let upper = id.to_hex().to_uppercase();
    let parsed = EventId::from_hex(&upper).unwrap();
    assert_eq!(parsed, id);
    assert_eq!(parsed.to_hex(), upper.to_lowercase());
}

#[test]
fn from_hex_rejects_wrong_length() {
    match EventId::from_hex("abcd") {
        Err(FossicError::InvalidEventId(InvalidEventId::WrongLength(4))) => {}
        other => panic!("unexpected {:?}", other.map(|i| i.to_hex())),
    }
    let long = "0".repeat(65);
    assert!(matches!(
        EventId::from_hex(&long),
        Err(FossicError::InvalidEventId(InvalidEventId::WrongLength(65)))
    ));
}

#[test]
fn from_hex_reports_first_bad_char() {
    let mut text = "0".repeat(64);
    text.replace_range(10..11, "g");
    text.replace_range(20..21, "z");
    assert!(matches!(
        EventId::from_hex(&text),
        Err(FossicError::InvalidEventId(InvalidEventId::BadChar('g')))
    ));
}

#[test]
fn hex_nibble_values() {
    assert_eq!(hex_nibble(b'0'), Ok(0));
    assert_eq!(hex_nibble(b'9'), Ok(9));
    assert_eq!(hex_nibble(b'a'), Ok(10));
    assert_eq!(hex_nibble(b'F'), Ok(15));
    assert_eq!(hex_nibble(b'g'), Err('g'));
}

#[test]
fn bytes_accessors() {
    let b = sample_bytes();
    let id = EventId::from_bytes(b);
    assert_eq!(id.as_bytes(), &b);
}

#[test]
fn uppercase_hex_parses_to_the_same_id() {
    let id = EventId::from_bytes([0xab; 32]);
    assert_eq!(EventId::from_hex(&id.to_hex().to_uppercase()).unwrap(), id);
    let mixed = EventId::from_bytes([0x0f; 32]);
    assert_eq!(EventId::from_hex(&mixed.to_hex().to_uppercase()).unwrap(), mixed);
}
