use std::str::FromStr;

use ascii::{AsciiChar, AsciiString, IntoAsciiString};

#[test]
fn from_ascii_vec() {
    let vec = vec![AsciiChar::from('A').unwrap(), AsciiChar::from('B').unwrap()];
    assert_eq!(AsciiString::from_chars(vec), AsciiString::from_str("AB").unwrap());
}

#[test]
fn fmt_display_ascii_string() {
    let s = "abc".to_string().into_ascii_string().unwrap();
    assert_eq!(s.to_string(), "abc".to_string());
}

#[test]
fn fmt_debug_ascii_string() {
    let s = "abc".to_string().into_ascii_string().unwrap();
    assert_eq!(s.debug_string(), "\"abc\"".to_string());
}
