use ascii::Ascii;

#[test]
fn ascii_to_ascii() {
    assert_eq!(Ascii::from_byte(65).unwrap().as_byte(), 65u8);
    assert!(Ascii::from_byte(255).is_err());

    assert_eq!(Ascii::from('A').unwrap().as_byte(), 65u8);
    assert!(Ascii::from('λ').is_err());
}

#[test]
fn as_byte() {
    assert_eq!(Ascii::from_byte(65).unwrap().as_byte(), 65u8);
    assert_eq!(Ascii::from('A').unwrap().as_byte(), 65u8);
}

#[test]
fn as_char() {
    assert_eq!(Ascii::from_byte(65).unwrap().as_char(), 'A');
    assert_eq!(Ascii::from('A').unwrap().as_char(), 'A');
}

#[test]
fn ascii_is_digit() {
    assert!(Ascii::from('0').unwrap().is_digit());
    assert!(Ascii::from('9').unwrap().is_digit());
    assert!(!Ascii::from('/').unwrap().is_digit());
    assert!(!Ascii::from(':').unwrap().is_digit());
}

#[test]
fn ascii_is_control() {
    assert!(Ascii::from_byte(0x1f).unwrap().is_control());
    assert!(Ascii::from_byte(0x7f).unwrap().is_control());
    assert!(!Ascii::from(' ').unwrap().is_control());
}

#[test]
fn fmt_display_ascii() {
    let s = Ascii::from_byte(b't').unwrap();
    assert_eq!(s.to_string(), "t".to_string());
}

#[test]
fn fmt_debug_ascii() {
    let c = Ascii::from_byte(b't').unwrap();
    assert_eq!(c.debug_string(), "'t'".to_string());
}
