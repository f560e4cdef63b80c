use ascii::{AsAsciiStr, AsciiStr, AsciiString, IntoAsciiString};

#[test]
fn ascii_vec() {
    let test = b"( ;";
    let a = AsciiStr::from_ascii(test).unwrap();
    assert_eq!((&test[..]).as_ascii_str(), Ok(a));
    assert_eq!("( ;".as_ascii_str(), Ok(a));
    let v = test.to_vec();
    assert_eq!(v.as_slice().as_ascii_str(), Ok(a));
    assert_eq!("( ;".to_string().as_str().as_ascii_str(), Ok(a));
}

#[test]
fn to_ascii() {
    assert!("zoä华".as_ascii_str().is_err());
    assert!((&[127_u8, 128, 255][..]).as_ascii_str().is_err());

    assert_eq!("zoä华".to_string().into_ascii_string().unwrap_err(), "zoä华".to_string());
    assert_eq!(vec![127_u8, 128, 255].into_ascii_string().unwrap_err(), vec![127_u8, 128, 255]);

    let arr = [b'(', b' ', b';'];
    let v = AsciiString::from_ascii(arr.to_vec()).unwrap();
    assert_eq!(b"( ;".to_vec().into_ascii_string(), Ok(v.clone()));
    assert_eq!("( ;".to_string().into_ascii_string(), Ok(v));
}

#[test]
fn compare_ascii_string_ascii_str() {
    let v = b"abc";
    let ascii_string = AsciiString::from_ascii(v.to_vec()).unwrap();
    let ascii_str = AsciiStr::from_ascii(v).unwrap();
    assert!(ascii_string.as_ascii_str() == ascii_str);
    assert!(ascii_str == ascii_string.as_ascii_str());
}

#[test]
fn compare_ascii_string_string() {
    let v = b"abc";
    let string = String::from_utf8(v.to_vec()).unwrap();
    let ascii_string = AsciiString::from_ascii(v.to_vec()).unwrap();
    assert!(string == ascii_string.as_str());
    assert!(ascii_string.as_str() == string);
}

#[test]
fn compare_ascii_str_string() {
    let v = b"abc";
    let string = String::from_utf8(v.to_vec()).unwrap();
    let ascii_str = AsciiStr::from_ascii(&v[..]).unwrap();
    assert!(string == ascii_str.as_str());
    assert!(ascii_str.as_str() == string);
}

#[test]
fn compare_ascii_string_str() {
    let v = b"abc";
    let sstr = ::std::str::from_utf8(v).unwrap();
    let ascii_string = AsciiString::from_ascii(v.to_vec()).unwrap();
    assert!(ascii_string.as_str() == sstr);
    assert!(sstr == ascii_string.as_str());
}

#[test]
fn compare_ascii_str_str() {
    let v = b"abc";
    let sstr = ::std::str::from_utf8(v).unwrap();
    let ascii_str = AsciiStr::from_ascii(v).unwrap();
    assert!(ascii_str.as_str() == sstr);
    assert!(sstr == ascii_str.as_str());
}

#[test]
fn compare_ascii_str_slice() {
    let b = (&b"abc"[..]).as_ascii_str().unwrap();
    let c = (&b"ab"[..]).as_ascii_str().unwrap();
    assert_eq!(b.substr(0, 2), c);
    assert_eq!(c.at(1).as_char(), 'b');
}

#[test]
fn compare_ascii_string_slice() {
    let b = AsciiString::from_ascii(b"abc".to_vec()).unwrap();
    let c = AsciiString::from_ascii(b"ab".to_vec()).unwrap();
    assert_eq!(b.as_ascii_str().substr(0, 2), c.as_ascii_str());
    assert_eq!(c.as_ascii_str().at(1).as_char(), 'b');
}
