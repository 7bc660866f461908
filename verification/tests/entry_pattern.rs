use hypervisor_fw::loader::{compare_entry, Error};

fn matches(pattern: &[u8]) -> bool {
    compare_entry(b"foobar.conf\0", pattern).unwrap()
}

#[test]
fn empty() {
    assert_eq!(matches(b"\0"), false);
}

#[test]
fn exact() {
    assert_eq!(matches(b"foobar.conf\0"), true);
}

#[test]
fn inexact() {
    assert_eq!(matches(b"barfoo.conf\0"), false);
}

#[test]
fn wildcard() {
    assert_eq!(matches(b"*\0"), true);
}

#[test]
fn leading_wildcard() {
    assert_eq!(matches(b"*.conf\0"), true);
}

#[test]
fn internal_wildcard() {
    assert_eq!(matches(b"foo*.conf\0"), true);
}

#[test]
fn trailing_wildcard() {
    assert_eq!(matches(b"foob*\0"), true);
}

#[test]
fn mismatched_wildcard() {
    assert_eq!(matches(b"bar*\0"), false);
}

#[test]
fn wildcard_backtrack() {
    assert_eq!(matches(b"*obar.conf\0"), true);
}

#[test]
fn single_wildcard() {
    assert_eq!(matches(b"fo?bar.conf\0"), true);
}

#[test]
fn mismatched_single_wildcard() {
    assert_eq!(matches(b"foo?bar.conf\0"), false);
}

#[test]
fn escaped_regular_char() {
    assert_eq!(matches(b"foo\\bar.conf\0"), true);
}

#[test]
fn escaped_special_char() {
    assert_eq!(matches(b"foo\\?ar.conf\0"), false);
}

#[test]
fn trailing_escape() {
    assert_eq!(matches(b"foobar.conf\\\0"), false);
}

#[test]
fn star_matches_any_terminated_name() {
    for name in [&b"\0"[..], b"a\0", b"loader.conf\0", b"x.y.z\0"] {
        assert_eq!(compare_entry(name, b"*\0").unwrap(), true);
    }
}

#[test]
fn plain_name_matches_itself() {
    for name in [&b"a\0"[..], b"loader.conf\0", b"Clear-linux-kvm-5.0.6-318.conf\0"] {
        assert_eq!(compare_entry(name, name).unwrap(), true);
    }
}

#[test]
fn unterminated_name_is_an_error() {
    assert!(compare_entry(b"foobar.conf", b"foobar.conf.\0").is_err());
}

#[test]
fn unterminated_pattern_is_refused() {
    assert_eq!(compare_entry(b"foobar.conf\0", b"foobar.conf"), Err(Error::UnterminatedString));
    assert_eq!(compare_entry(b"foobar.conf", b"foobar.conf\0"), Err(Error::UnterminatedString));
}
