use rawstr::LossyStr;
use rawstr::RawStr;

#[test]
fn round_trip_through_valid_text() {
    let samples = ["", "Hello!", "h\u{e9}llo \u{2603} \u{1f600}"];
    for s in samples {
        assert_eq!(RawStr::from_str(s).to_str(), Some(s));
    }
}

#[test]
fn validation_matches_utf8_validity() {
    assert!(RawStr::from_bytes(b"plain ascii").to_str().is_some());
    assert!(RawStr::from_bytes(&[0xC3, 0xA9]).to_str().is_some());
    assert!(RawStr::from_bytes(&[]).to_str().is_some());
    assert!(RawStr::from_bytes(&[0xFF]).to_str().is_none());
    assert!(RawStr::from_bytes(&[0xC3]).to_str().is_none());
    assert!(RawStr::from_bytes(&[0xC0, 0xAF]).to_str().is_none());
    assert!(RawStr::from_bytes(&[0xED, 0xA0, 0x80]).to_str().is_none());
    assert!(RawStr::from_bytes(&[0xF4, 0x90, 0x80, 0x80]).to_str().is_none());
}

#[test]
fn view_is_reflexive_and_length_counts_bytes() {
    let v = RawStr::from_bytes(&[0x61, 0xFF, 0x62]);
    assert!(v == v);
    assert_eq!(v.len(), v.as_bytes().len());
    assert_eq!(v.len(), 3);
    assert!(!v.is_empty());
    assert!(RawStr::from_bytes(b"").is_empty());
    assert_eq!(RawStr::from_bytes(b"").len(), 0);
    assert!(RawStr::default().is_empty());
}

#[test]
fn case_insensitive_folds_ascii_only() {
    assert!(RawStr::from_str("MiXeD 123!").eq_ignore_ascii_case(RawStr::from_str("mIxEd 123!")));
    assert!(!RawStr::from_str("\u{c9}").eq_ignore_ascii_case(RawStr::from_str("\u{e9}")));
    assert!(!RawStr::from_str("abc").eq_ignore_ascii_case(RawStr::from_str("ab")));
}

#[test]
fn empty_suffix_always_matches() {
    assert!(RawStr::from_bytes(b"Hello!").ends_with(RawStr::from_bytes(b"")));
    assert!(RawStr::from_bytes(b"").ends_with(RawStr::from_bytes(b"")));
    assert!(RawStr::from_bytes(b"abc").ends_with(RawStr::from_bytes(b"abc")));
    assert!(!RawStr::from_bytes(b"bc").ends_with(RawStr::from_bytes(b"abc")));
}

#[test]
fn lossy_replaces_maximal_subparts() {
    let v = RawStr::from_bytes(&[0x61, 0xF0, 0x90, 0x62]);
    match v.to_str_lossy() {
        LossyStr::Owned(s) => assert_eq!(s, "a\u{fffd}b"),
        LossyStr::Borrowed(_) => panic!("expected an owned conversion"),
    }
    let w = RawStr::from_bytes(&[0xED, 0xA0, 0x80, 0x78]);
    assert_eq!(w.to_str_lossy().as_str(), "\u{fffd}\u{fffd}\u{fffd}x");
    let x = RawStr::from_bytes(&[0xC3, 0xA9, 0xFF, 0xE2, 0x98, 0x83]);
    assert_eq!(x.to_str_lossy().as_str(), "\u{e9}\u{fffd}\u{2603}");
}

#[test]
fn lossy_agrees_with_standard_library() {
    let cases: [&[u8]; 6] = [
        b"plain",
        &[0xFF, 0xFE, 0x61],
        &[0xE0, 0x80, 0xAF],
        &[0xF4, 0x90, 0x80, 0x80],
        &[0x61, 0xC2],
        &[0xE1, 0x80, 0xE2, 0x62],
    ];
    for bytes in cases {
        let expected = String::from_utf8_lossy(bytes).into_owned();
        assert_eq!(RawStr::from_bytes(bytes).to_str_lossy().as_str(), expected);
    }
}

#[test]
fn lossy_of_valid_borrows_the_original_bytes() {
    let bytes: &[u8] = b"already valid";
    match RawStr::from_bytes(bytes).to_str_lossy() {
        LossyStr::Borrowed(s) => assert_eq!(s.as_bytes(), bytes),
        LossyStr::Owned(_) => panic!("expected a borrowed conversion"),
    }
}

#[test]
fn display_of_invalid_bytes() {
    assert_eq!(RawStr::from_bytes(&[0x68, 0x69, 0xFF]).to_display_string(), "hi\u{fffd}");
}

#[test]
fn debug_escapes_controls_and_quotes() {
    assert_eq!(RawStr::from_str("a\"b\\c").to_debug_string(), "\"a\\\"b\\\\c\"");
    assert_eq!(
        RawStr::from_bytes(&[0x01, 0x1F, 0x7F]).to_debug_string(),
        "\"\\u{1}\\u{1f}\\u{7f}\""
    );
    assert_eq!(RawStr::from_str("a\r\n\0").to_debug_string(), "\"a\\r\\n\\0\"");
}

#[test]
fn ordering_is_lexicographic_over_bytes() {
    assert!(RawStr::from_bytes(b"ab") < RawStr::from_bytes(b"b"));
    assert!(RawStr::from_bytes(b"ab") < RawStr::from_bytes(b"abc"));
    assert!(RawStr::from_bytes(b"") < RawStr::from_bytes(b"a"));
}
