use rawstr::RawStr;

#[test]
fn eq() {
    assert_eq!(RawStr::from_str("Hello!"), "Hello!");
    assert_ne!(RawStr::from_str("Hello!"), "hello!");
    assert_ne!(RawStr::from_str("Hello!"), "");
    assert_ne!(RawStr::from_str("Hello!"), "Hello! there!");
}

#[test]
fn case_eq() {
    assert!(RawStr::from_str("Hello!").eq_ignore_ascii_case("Hello!".into()));
    assert!(RawStr::from_str("Hello!").eq_ignore_ascii_case("hello!".into()));
    assert!(!RawStr::from_str("Hello!").eq_ignore_ascii_case("Hello! there!".into()));
}

#[test]
fn display_fmt() {
    assert_eq!(
        format!("foo {} bar", RawStr::from_str("Hello!").to_display_string()),
        "foo Hello! bar"
    );
}

#[test]
fn debug_fmt() {
    assert_eq!(
        format!("foo {} bar", RawStr::from_str("Hello\t!").to_debug_string()),
        "foo \"Hello\\t!\" bar"
    );
}

#[test]
fn ends_with() {
    assert!(RawStr::from_bytes(b"Hello!").ends_with(RawStr::from_bytes(b"lo!")));
    assert!(!RawStr::from_bytes(b"Hello!").ends_with(RawStr::from_bytes(b"yo!")));
}
