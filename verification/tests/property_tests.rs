use ascii::ffi::{AsciiCStr, AsciiCString, FromBytesWithNulErrorKind};
use ascii::{caret_decode, caret_encode, AsAsciiStr, AsciiChar, AsciiStr, AsciiString, ToAsciiChar};

#[test]
fn from_byte_succeeds_exactly_on_ascii_range() {
    for b in 0u8..=127 {
        let c = b.to_ascii_char().unwrap();
        assert_eq!(c.as_byte(), b);
    }
    for b in 128u8..=255 {
        assert!(b.to_ascii_char().is_err());
    }
}

#[test]
fn from_bytes_reports_first_offending_position() {
    let err = AsciiStr::from_ascii(&[0x41, 0x42, 0xFF, 0x43]).unwrap_err();
    assert_eq!(err.valid_up_to(), 2);
    assert_eq!(err.invalid_char(), None);

    let err = AsciiStr::from_ascii(&[0x80]).unwrap_err();
    assert_eq!(err.valid_up_to(), 0);

    assert!(AsciiStr::from_ascii(&[]).is_ok());
    assert_eq!(err.description(), "one or more bytes are not ASCII");
}

#[test]
fn from_text_reports_decoded_character() {
    let err = AsciiStr::from_text("zoä华").unwrap_err();
    assert_eq!(err.valid_up_to(), 2);
    assert_eq!(err.invalid_char(), Some('ä'));

    let err = AsciiStr::from_text("华").unwrap_err();
    assert_eq!(err.valid_up_to(), 0);
    assert_eq!(err.invalid_char(), Some('华'));

    let err = AsciiStr::from_text("ab𝄞z").unwrap_err();
    assert_eq!(err.valid_up_to(), 2);
    assert_eq!(err.invalid_char(), Some('𝄞'));
}

#[test]
fn bytes_round_trip_through_view() {
    let s: &[u8] = b"round trip\t\r\n data";
    let view = AsciiStr::from_ascii(s).unwrap();
    assert_eq!(view.as_bytes(), s);

    let owned = AsciiString::from_ascii(s.to_vec()).unwrap();
    assert_eq!(owned.into_bytes(), s.to_vec());
}

#[test]
fn case_mapping_is_idempotent() {
    for b in 0u8..=127 {
        let c = b.to_ascii_char().unwrap();
        assert_eq!(c.to_ascii_uppercase().to_ascii_uppercase(), c.to_ascii_uppercase());
        assert_eq!(c.to_ascii_lowercase().to_ascii_lowercase(), c.to_ascii_lowercase());
    }
}

#[test]
fn trim_removes_maximal_whitespace() {
    let example = " \tXY\t ".as_ascii_str().unwrap();
    assert_eq!(example.trim().as_str(), "XY");
    assert_eq!(example.trim_start().as_str(), "XY\t ");
    assert_eq!(example.trim_end().as_str(), " \tXY");

    let all_ws = " \t\r\n".as_ascii_str().unwrap();
    assert_eq!(all_ws.trim().as_str(), "");
    assert_eq!(all_ws.trim_start().as_str(), "");
    assert_eq!(all_ws.trim_end().as_str(), "");
}

fn collect_split(s: &str, on: char) -> Vec<String> {
    let view = s.as_ascii_str().unwrap();
    let mut out = Vec::new();
    let mut it = view.split(AsciiChar::from(on).unwrap());
    while let Some(part) = it.next() {
        out.push(part.as_str().to_string());
    }
    out
}

#[test]
fn split_matches_conventional_semantics() {
    assert_eq!(collect_split("1,2,3", ','), vec!["1", "2", "3"]);
    assert_eq!(collect_split("", ','), vec![""]);
    assert_eq!(collect_split("|||", '|'), vec!["", "", "", ""]);
}

fn collect_lines(s: &str) -> Vec<String> {
    let view = s.as_ascii_str().unwrap();
    let mut out = Vec::new();
    let mut it = view.lines();
    while let Some(line) = it.next() {
        out.push(line.as_str().to_string());
    }
    out
}

#[test]
fn lines_matches_conventional_semantics() {
    assert_eq!(collect_lines("foo\r\nbar\n\nbaz\n"), vec!["foo", "bar", "", "baz"]);
    assert_eq!(collect_lines("\n"), vec![""]);
}

#[test]
fn mixed_front_back_consumption_covers_each_part_once() {
    let s = "a,bb,,ccc,d".as_ascii_str().unwrap();
    let comma = AsciiChar::from(',').unwrap();

    let mut forward = Vec::new();
    let mut it = s.split(comma);
    while let Some(part) = it.next() {
        forward.push(part.as_str());
    }

    let mut reversed = Vec::new();
    let mut it = s.split(comma);
    while let Some(part) = it.next_back() {
        reversed.push(part.as_str());
    }
    let mut expected = forward.clone();
    expected.reverse();
    assert_eq!(reversed, expected);

    let mut front = Vec::new();
    let mut back = Vec::new();
    let mut it = s.split(comma);
    loop {
        match it.next() {
            Some(part) => front.push(part.as_str()),
            None => break,
        }
        match it.next_back() {
            Some(part) => back.push(part.as_str()),
            None => break,
        }
    }
    back.reverse();
    front.extend(back);
    assert_eq!(front, forward);

    let text = "foo\r\nbar\n\nbaz\n".as_ascii_str().unwrap();
    let mut forward = Vec::new();
    let mut it = text.lines();
    while let Some(line) = it.next() {
        forward.push(line.as_str());
    }
    let mut mixed = Vec::new();
    let mut tail = Vec::new();
    let mut it = text.lines();
    loop {
        match it.next_back() {
            Some(line) => tail.push(line.as_str()),
            None => break,
        }
        match it.next() {
            Some(line) => mixed.push(line.as_str()),
            None => break,
        }
    }
    tail.reverse();
    mixed.extend(tail);
    assert_eq!(mixed, forward);
}

#[test]
fn insert_then_remove_restores_buffer() {
    let original = AsciiString::from_ascii(b"abcdef".to_vec()).unwrap();
    for idx in 0..=original.len() {
        let mut buf = original.clone();
        buf.insert(idx, AsciiChar::from('X').unwrap());
        let removed = buf.remove(idx);
        assert_eq!(removed.as_char(), 'X');
        assert_eq!(buf, original);
    }
}

#[test]
fn eq_ignore_case_examples() {
    let a = "Abc".as_ascii_str().unwrap();
    let b = "aBC".as_ascii_str().unwrap();
    let c = "abcd".as_ascii_str().unwrap();
    assert!(a.eq_ignore_ascii_case(&b));
    assert!(!a.eq_ignore_ascii_case(&c));
}

#[test]
fn caret_round_trip() {
    let inputs: [&[u8]; 6] = [
        b"",
        b"plain text",
        b"\x00\x01\x1b\x7f",
        b"caret ^ inside",
        b"^^^",
        b"mix\t^\r\n\x07end",
    ];
    for input in inputs.iter() {
        let view = AsciiStr::from_ascii(input).unwrap();
        let encoded = caret_encode(view);
        let decoded = caret_decode(encoded.as_ascii_str()).unwrap();
        assert_eq!(decoded.as_bytes(), *input);
    }
}

#[test]
fn caret_encoding_examples() {
    let esc = AsciiStr::from_ascii(&[0x1b]).unwrap();
    assert_eq!(caret_encode(esc).as_str(), "^[");

    let caret = "^".as_ascii_str().unwrap();
    assert_eq!(caret_encode(caret).as_str(), "^!");

    let del = AsciiStr::from_ascii(&[0x7f]).unwrap();
    assert_eq!(caret_encode(del).as_str(), "^?");

    let decoded = caret_decode("^?".as_ascii_str().unwrap()).unwrap();
    assert_eq!(decoded.as_bytes(), &[0x7f]);
}

#[test]
fn caret_decode_rejects_malformed_escapes() {
    assert!(caret_decode("trailing ^".as_ascii_str().unwrap()).is_none());
    assert!(caret_decode("^0".as_ascii_str().unwrap()).is_none());
    assert!(caret_decode("fine".as_ascii_str().unwrap()).is_some());
}

#[test]
fn c_str_validation_reports_kind_and_position() {
    let ok = AsciiCStr::from_bytes_with_nul(b"hello\0").unwrap();
    assert_eq!(ok.to_bytes(), b"hello");
    assert_eq!(ok.to_bytes_with_nul(), b"hello\0");
    assert_eq!(ok.to_str(), "hello".to_string());
    assert_eq!(ok.len(), 5);

    let err = AsciiCStr::from_bytes_with_nul(b"f\0oo").unwrap_err();
    assert_eq!(err.kind(), FromBytesWithNulErrorKind::InteriorNul);
    assert_eq!(err.valid_up_to(), 1);
    assert_eq!(err.description(), "data provided contains an interior nul byte");

    let err = AsciiCStr::from_bytes_with_nul(b"hello").unwrap_err();
    assert_eq!(err.kind(), FromBytesWithNulErrorKind::NotNulTerminated);
    assert_eq!(err.valid_up_to(), 5);
    assert_eq!(err.description(), "data provided is not nul terminated");

    let err = AsciiCStr::from_bytes_with_nul(b"he\xffllo\0").unwrap_err();
    assert_eq!(err.kind(), FromBytesWithNulErrorKind::NotAscii);
    assert_eq!(err.valid_up_to(), 2);
    assert_eq!(err.description(), "data provided contains a non-ascii character");
}

#[test]
fn nul_defects_win_over_non_ascii_bytes() {
    let err = AsciiCStr::from_bytes_with_nul(b"\xff").unwrap_err();
    assert_eq!(err.kind(), FromBytesWithNulErrorKind::NotNulTerminated);
    assert_eq!(err.valid_up_to(), 1);

    let err = AsciiCStr::from_bytes_with_nul(b"\xff\0A").unwrap_err();
    assert_eq!(err.kind(), FromBytesWithNulErrorKind::InteriorNul);
    assert_eq!(err.valid_up_to(), 1);

    let err = AsciiCString::new(b"\xff\0".to_vec()).unwrap_err();
    assert_eq!(err.ascii_error().kind(), FromBytesWithNulErrorKind::InteriorNul);
    assert_eq!(err.ascii_error().valid_up_to(), 1);
    assert_eq!(err.into_source(), b"\xff\0".to_vec());
}

#[test]
fn c_string_appends_exactly_one_terminator() {
    let c_string = AsciiCString::new(b"foo".to_vec()).unwrap();
    assert_eq!(c_string.as_bytes(), b"foo");
    assert_eq!(c_string.as_bytes_with_nul(), b"foo\0");
    assert_eq!(c_string.clone().into_bytes(), b"foo".to_vec());
    assert_eq!(c_string.clone().into_bytes_with_nul(), b"foo\0".to_vec());
    assert_eq!(c_string.clone().into_string(), "foo".to_string());
    assert_eq!(c_string.clone().into_ascii_string().as_str(), "foo");
    assert_eq!(c_string.as_ascii_c_str(), AsciiCStr::from_bytes_with_nul(b"foo\0").unwrap());

    let err = AsciiCString::new(b"f\0oo".to_vec()).unwrap_err();
    assert_eq!(err.ascii_error().kind(), FromBytesWithNulErrorKind::InteriorNul);
    assert_eq!(err.ascii_error().valid_up_to(), 1);
    assert_eq!(err.into_source(), b"f\0oo".to_vec());

    let err = AsciiCString::new(b"caf\xc3\xa9".to_vec()).unwrap_err();
    assert_eq!(err.ascii_error().kind(), FromBytesWithNulErrorKind::NotAscii);
    assert_eq!(err.ascii_error().valid_up_to(), 3);
    assert_eq!(err.into_source(), b"caf\xc3\xa9".to_vec());
}

#[test]
fn ascii_string_mutations() {
    let mut s = AsciiString::new();
    assert!(s.is_empty());
    s.push(AsciiChar::from('a').unwrap());
    s.push(AsciiChar::from('b').unwrap());
    s.push_str("cde".as_ascii_str().unwrap());
    assert_eq!(s.as_str(), "abcde");
    assert_eq!(s.len(), 5);

    assert_eq!(s.pop().map(|c| c.as_char()), Some('e'));
    s.truncate(2);
    assert_eq!(s.as_str(), "ab");
    s.clear();
    assert!(s.is_empty());
    assert_eq!(s.pop(), None);

    let mut s = AsciiString::with_capacity(10);
    assert!(s.capacity() >= 10);
    s.push(AsciiChar::from('x').unwrap());
    s.reserve(100);
    assert!(s.capacity() >= 101);
    s.reserve_exact(4);
    s.shrink_to_fit();
    assert_eq!(s.as_str(), "x");

    let mut s = AsciiString::from_ascii(b"foo".to_vec()).unwrap();
    assert_eq!(s.remove(0).as_char(), 'f');
    assert_eq!(s.remove(1).as_char(), 'o');
    assert_eq!(s.remove(0).as_char(), 'o');
}

#[test]
fn view_accessors() {
    let v = "hello".as_ascii_str().unwrap();
    assert_eq!(v.len(), 5);
    assert_eq!(v.first().map(|c| c.as_char()), Some('h'));
    assert_eq!(v.last().map(|c| c.as_char()), Some('o'));
    assert_eq!(v.at(1).as_char(), 'e');
    assert_eq!(v.substr(1, 4).as_str(), "ell");
    let chars = v.as_slice();
    assert_eq!(chars.len(), 5);
    assert_eq!(chars[4].as_char(), 'o');
    assert_eq!(v.to_ascii_string().as_str(), "hello");

    let mut it = v.chars_ref();
    assert_eq!(it.next().map(|c| c.as_char()), Some('h'));
    assert_eq!(it.next_back().map(|c| c.as_char()), Some('o'));
    assert_eq!(it.as_str().as_str(), "ell");

    let mut it = v.chars();
    assert_eq!(it.len(), 5);
    assert_eq!(it.next_back().map(|c| c.as_char()), Some('o'));
    assert_eq!(it.as_str().as_str(), "hell");
}

#[test]
fn char_classification_table() {
    let g = AsciiChar::from('~').unwrap();
    assert!(g.is_graph() && g.is_print() && g.is_punctuation());
    let space = AsciiChar::from(' ').unwrap();
    assert!(space.is_print() && !space.is_graph() && space.is_blank() && space.is_whitespace());
    let tab = AsciiChar::from('\t').unwrap();
    assert!(tab.is_blank() && tab.is_whitespace() && tab.is_control());
    let nl = AsciiChar::from('\n').unwrap();
    assert!(!nl.is_blank() && nl.is_whitespace());
    let f = AsciiChar::from('f').unwrap();
    assert!(f.is_hex() && f.is_alphabetic() && f.is_alphanumeric() && f.is_lowercase());
    let upper_f = AsciiChar::from('F').unwrap();
    assert!(upper_f.is_hex() && upper_f.is_uppercase());
    let g_letter = AsciiChar::from('G').unwrap();
    assert!(!g_letter.is_hex());
    let five = AsciiChar::from('5').unwrap();
    assert!(five.is_hex() && five.is_digit() && !five.is_alphabetic());
}

#[test]
fn c_str_debug_rendering() {
    let c = AsciiCStr::from_bytes_with_nul(b"a\t\"b\\\x01\0").unwrap();
    assert_eq!(c.debug_string(), "\"a\\t\\\"b\\\\\\x01\"".to_string());
    let owned = AsciiCString::new(b"ok\n".to_vec()).unwrap();
    assert_eq!(owned.debug_string(), "\"ok\\n\"".to_string());
}

#[test]
fn c_str_defaults_and_to_owned() {
    let empty: AsciiCStr = Default::default();
    assert_eq!(empty.len(), 0);
    assert_eq!(empty.to_bytes_with_nul(), b"\0");

    let empty_owned: AsciiCString = Default::default();
    assert_eq!(empty_owned.as_bytes_with_nul(), b"\0");

    let c = AsciiCStr::from_bytes_with_nul(b"own me\0").unwrap();
    let owned = c.to_ascii_c_string();
    assert_eq!(owned.as_bytes(), b"own me");
}

#[test]
fn concat_appends_view() {
    let left = AsciiString::from_ascii(b"foo".to_vec()).unwrap();
    let right = "bar".as_ascii_str().unwrap();
    assert_eq!(left.concat(right).as_str(), "foobar");
}

#[test]
fn to_ascii_char_error_description() {
    let err = 200u8.to_ascii_char().unwrap_err();
    assert_eq!(err.description(), "not an ASCII character");
}

#[test]
fn unchecked_constructors_agree_with_checked_ones() {
    let c = AsciiChar::from_unchecked(b'Q');
    assert_eq!(c, AsciiChar::from(b'Q').unwrap());

    let v = AsciiStr::from_ascii_unchecked(b"safe");
    assert_eq!(v, AsciiStr::from_ascii(b"safe").unwrap());

    let s = AsciiString::from_ascii_unchecked(b"safe".to_vec());
    assert_eq!(s, AsciiString::from_ascii(b"safe".to_vec()).unwrap());

    let c_string = AsciiCString::from_vec_unchecked(b"safe".to_vec());
    assert_eq!(c_string, AsciiCString::new(b"safe".to_vec()).unwrap());

    let c_str = AsciiCStr::from_bytes_with_nul_unchecked(b"safe\0");
    assert_eq!(c_str, AsciiCStr::from_bytes_with_nul(b"safe\0").unwrap());
    assert_eq!(c_str.to_ascii_str().as_str(), "safe");
}
