use ascii::{AsciiChar, ToAsciiChar, ToAsciiCharError};

#[test]
fn to_ascii_char() {
    fn generic<C: ToAsciiChar>(ch: C) -> Result<AsciiChar, ToAsciiCharError> {
        ch.to_ascii_char()
    }
    let a = AsciiChar::from(b'A').unwrap();
    assert_eq!(generic(a), Ok(a));
    assert_eq!(generic(b'A'), Ok(a));
    assert_eq!(generic('A'), Ok(a));
    assert!(generic(200).is_err());
    assert!(generic('λ').is_err());
}

#[test]
fn as_byte_and_char() {
    let a = AsciiChar::from(b'A').unwrap();
    assert_eq!(a.as_byte(), b'A');
    assert_eq!(a.as_char(), 'A');
}

#[test]
fn ascii_char_is_digit() {
    assert_eq!('0'.to_ascii_char().unwrap().is_digit(), true);
    assert_eq!('9'.to_ascii_char().unwrap().is_digit(), true);
    assert_eq!('/'.to_ascii_char().unwrap().is_digit(), false);
    assert_eq!(':'.to_ascii_char().unwrap().is_digit(), false);
}

#[test]
fn ascii_char_is_control() {
    let us = AsciiChar::from(31u8).unwrap();
    let del = AsciiChar::from(127u8).unwrap();
    let space = AsciiChar::from(b' ').unwrap();
    assert_eq!(us.is_control(), true);
    assert_eq!(del.is_control(), true);
    assert_eq!(space.is_control(), false);
}

#[test]
fn ascii_case() {
    let at = AsciiChar::from(b'@').unwrap();
    let upper_a = AsciiChar::from(b'A').unwrap();
    let lower_a = AsciiChar::from(b'a').unwrap();
    let upper_z = AsciiChar::from(b'Z').unwrap();
    let lower_z = AsciiChar::from(b'z').unwrap();
    let line_feed = AsciiChar::from(b'\n').unwrap();
    let carriage_return = AsciiChar::from(b'\r').unwrap();
    let del = AsciiChar::from(127u8).unwrap();

    assert_eq!(at.to_ascii_lowercase(), at);
    assert_eq!(at.to_ascii_uppercase(), at);
    assert_eq!(upper_a.to_ascii_lowercase(), lower_a);
    assert_eq!(upper_a.to_ascii_uppercase(), upper_a);
    assert_eq!(lower_a.to_ascii_lowercase(), lower_a);
    assert_eq!(lower_a.to_ascii_uppercase(), upper_a);

    assert!(line_feed.eq_ignore_ascii_case(&line_feed));
    assert!(!line_feed.eq_ignore_ascii_case(&carriage_return));
    assert!(lower_z.eq_ignore_ascii_case(&upper_z));
    assert!(upper_z.eq_ignore_ascii_case(&lower_z));
    assert!(!upper_z.eq_ignore_ascii_case(&del));
}

#[test]
fn fmt_ascii() {
    let t = AsciiChar::from(b't').unwrap();
    assert_eq!(t.to_string(), "t".to_string());
    assert_eq!(t.debug_string(), "'t'".to_string());
}
