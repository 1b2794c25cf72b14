use inlet::array_string::ArrayString;
use inlet::error::InletError;

#[test]
fn test_array_string_debug() {
    let a = ArrayString::from(String::from("Hello, World!"));
    let debug = a.debug_string();
    assert_eq!("\"Hello, World!\"", debug);
}

#[test]
fn test_array_string_inner() {
    let a = ArrayString::from(String::from("Hello, World!"));
    let mut expected = [0u8; 128];
    expected[..13].copy_from_slice(&[72, 101, 108, 108, 111, 44, 32, 87, 111, 114, 108, 100, 33]);
    assert_eq!(a.bytes, expected);
}

#[test]
fn long_identifier_is_rejected() {
    let text = "This is a very long string that will cause the conversion method to panic as it is exactly one character too long for the method.";
    assert_eq!(text.len(), 129);
    assert!(matches!(ArrayString::from_bytes(text.as_bytes()), Err(InletError::IdTooLong)));
}

#[test]
fn identifier_of_exactly_capacity_is_accepted() {
    let text = [b'x'; 128];
    let a = ArrayString::from_bytes(&text).unwrap();
    assert_eq!(a.bytes, text);
    assert_eq!(a.to_bytes(), text.to_vec());
}

#[test]
fn empty_identifier() {
    let e = ArrayString::empty();
    assert!(e.is_empty());
    assert_eq!(e.bytes, [0u8; 128]);
    assert_eq!(e.to_string(), "");
    assert!(!ArrayString::from(String::from("a")).is_empty());
    assert!(ArrayString::from(String::new()) == e);
}

#[test]
fn identifier_round_trips_bytes() {
    let inputs: [&[u8]; 3] = [b"", b"consumer1", &[1, 200, 255, 7]];
    for b in inputs {
        let a = ArrayString::from_bytes(b).unwrap();
        assert_eq!(a.to_bytes(), b.to_vec());
    }
}

#[test]
fn text_stops_at_first_zero() {
    let a = ArrayString::from_bytes(&[65, 66, 0, 67]).unwrap();
    assert_eq!(a.to_bytes(), vec![65, 66]);
    assert_eq!(a.to_string(), "AB");
    assert_eq!(a.debug_string(), "\"AB\"");
}

#[test]
fn identifiers_compare_by_bytes() {
    let a = ArrayString::from(String::from("topic"));
    let b = ArrayString::from_bytes(b"topic").unwrap();
    let c = ArrayString::from(String::from("topic2"));
    assert!(a == b);
    assert!(a.equals(&b));
    assert!(a != c);
    assert!(!a.equals(&c));
    assert!(a.clone() == a);
}

#[test]
fn non_ascii_text_round_trips() {
    for text in ["\u{20AC}", "caf\u{e9}", "\u{1F980} topic", "h\u{e9}llo w\u{f6}rld"] {
        let a = ArrayString::from(String::from(text));
        assert_eq!(a.to_string(), text);
        assert_eq!(a.to_bytes(), text.as_bytes().to_vec());
        assert_eq!(a.debug_string(), format!("\"{}\"", text));
    }
}

#[test]
fn invalid_utf8_reads_as_empty_text() {
    let a = ArrayString::from_bytes(&[0xFF; 128]).unwrap();
    assert_eq!(a.to_string(), "");
    assert_eq!(a.debug_string(), "\"\"");
    assert_eq!(a.to_bytes(), vec![0xFF; 128]);
    let b = ArrayString::from_bytes(&[0xC3, 0xA9]).unwrap();
    assert_eq!(b.to_string(), "\u{e9}");
    assert_eq!(b.to_string().len(), 2);
}
