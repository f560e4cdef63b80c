use ascii::{AsAsciiStr, AsciiChar, AsciiStr, AsciiString};

#[test]
fn default() {
    let default: AsciiStr = Default::default();
    assert!(default.is_empty());
}

#[test]
fn as_str() {
    let b = b"( ;";
    let v = AsciiStr::from_ascii(b).unwrap();
    assert_eq!(v.as_str(), "( ;");
    assert_eq!(v.to_string(), "( ;");
}

#[test]
fn as_bytes() {
    let b = b"( ;";
    let v = AsciiStr::from_ascii(b).unwrap();
    assert_eq!(v.as_bytes(), b"( ;");
}

#[test]
fn make_ascii_case() {
    let mut a = AsciiString::from_ascii(vec![b'a', b'@', b'A']).unwrap();
    let mut b = AsciiString::from_ascii(vec![b'A', b'@', b'a']).unwrap();
    assert!(a.as_ascii_str().eq_ignore_ascii_case(&b.as_ascii_str()));
    assert!(b.as_ascii_str().eq_ignore_ascii_case(&a.as_ascii_str()));
    a.make_ascii_lowercase();
    b.make_ascii_uppercase();
    assert_eq!(a.as_str(), "a@a");
    assert_eq!(b.as_str(), "A@A");
}

#[test]
fn to_ascii_case() {
    let bytes = ([b'a', b'@', b'A'], [b'A', b'@', b'a']);
    let a = AsciiStr::from_ascii(&bytes.0).unwrap();
    let b = AsciiStr::from_ascii(&bytes.1).unwrap();
    assert_eq!(a.to_ascii_lowercase().as_str(), "a@a");
    assert_eq!(a.to_ascii_uppercase().as_str(), "A@A");
    assert_eq!(b.to_ascii_lowercase().as_str(), "a@a");
    assert_eq!(b.to_ascii_uppercase().as_str(), "A@A");
}

#[test]
fn chars_iter() {
    let chars = &[b'h', b'e', b'l', b'l', b'o', b' ', b'w', b'o', b'r', b'l', b'd', b'\0'];
    let ascii = AsciiStr::from_ascii(chars).unwrap();
    let mut it = ascii.chars();
    let mut i = 0usize;
    while let Some(achar) = it.next() {
        assert_eq!(achar.as_byte(), chars[i]);
        i += 1;
    }
    assert_eq!(i, chars.len());
}

#[test]
fn lines_iter() {
    let lines: [&str; 4] = ["foo", "bar", "", "baz"];
    let joined = "foo\r\nbar\n\nbaz\n";
    let ascii = AsciiStr::from_ascii(joined.as_bytes()).unwrap();
    let mut it = ascii.lines();
    let mut count = 0usize;
    while let Some(asciiline) = it.next() {
        assert_eq!(asciiline.as_str(), lines[count]);
        count += 1;
    }
    assert_eq!(count, lines.len());

    let lines: [&str; 4] = ["foo", "bar", "", "baz"];
    let joined = "foo\r\nbar\n\nbaz";
    let ascii = AsciiStr::from_ascii(joined.as_bytes()).unwrap();
    let mut it = ascii.lines();
    let mut count = 0usize;
    while let Some(asciiline) = it.next() {
        assert_eq!(asciiline.as_str(), lines[count]);
        count += 1;
    }
    assert_eq!(count, lines.len());

    let trailing_line_break = b"\n";
    let ascii = AsciiStr::from_ascii(trailing_line_break).unwrap();
    let mut line_iter = ascii.lines();
    assert_eq!(line_iter.next(), Some(AsciiStr::from_ascii(b"").unwrap()));
    assert_eq!(line_iter.next(), None);

    let empty_lines = b"\n\r\n\n\r\n";
    let mut iter_count = 0usize;
    let ascii = AsciiStr::from_ascii(empty_lines).unwrap();
    let mut it = ascii.lines();
    while let Some(line) = it.next() {
        iter_count += 1;
        assert!(line.is_empty());
    }
    assert_eq!(4, iter_count);
}

#[test]
fn lines_iter_rev() {
    let joined = "foo\r\nbar\n\nbaz\n";
    let ascii = AsciiStr::from_ascii(joined.as_bytes()).unwrap();

    let mut it = ascii.lines();
    let mut rev_count = 0usize;
    let expected: Vec<&str> = joined.lines().rev().collect();
    while let Some(asciiline) = it.next_back() {
        assert_eq!(asciiline.as_str(), expected[rev_count]);
        rev_count += 1;
    }
    assert_eq!(rev_count, 4);
    assert_eq!(rev_count, joined.lines().rev().count());

    let mut iter = ascii.lines();
    assert_eq!(iter.next(), Some("foo".as_ascii_str().unwrap()));
    assert_eq!(iter.next_back(), Some("baz".as_ascii_str().unwrap()));
    assert_eq!(iter.next_back(), Some("".as_ascii_str().unwrap()));
    assert_eq!(iter.next(), Some("bar".as_ascii_str().unwrap()));
}

#[test]
fn lines_iter_empty() {
    assert_eq!("".as_ascii_str().unwrap().lines().next(), None);
    assert_eq!("".as_ascii_str().unwrap().lines().next_back(), None);
    assert_eq!("".lines().next(), None);
}

#[test]
fn split_str() {
    fn split_equals_str(haystack: &str, needle: char) {
        let mut strs = haystack.split(needle);
        let ascii = haystack.as_ascii_str().unwrap();
        let mut asciis = ascii.split(AsciiChar::from(needle).unwrap());
        loop {
            let (a, s) = (asciis.next(), strs.next());
            assert_eq!(a.map(|v| v.as_str()), s);
            if s.is_none() {
                break;
            }
        }
        // the cursor stays exhausted
        assert_eq!(asciis.next(), None);
    }
    split_equals_str("", '=');
    split_equals_str("1,2,3", ',');
    split_equals_str("foo;bar;baz;", ';');
    split_equals_str("|||", '|');
    split_equals_str(" a  b  c ", ' ');
}

#[test]
fn split_str_rev() {
    let words = " foo  bar baz ";
    let ascii = words.as_ascii_str().unwrap();
    let space = AsciiChar::from(b' ').unwrap();

    let expected: Vec<&str> = words.split(' ').rev().collect();
    let mut it = ascii.split(space);
    let mut i = 0usize;
    while let Some(asciiword) = it.next_back() {
        assert_eq!(asciiword.as_str(), expected[i]);
        i += 1;
    }
    assert_eq!(i, expected.len());

    let mut iter = ascii.split(space);
    assert_eq!(iter.next(), Some("".as_ascii_str().unwrap()));
    assert_eq!(iter.next_back(), Some("".as_ascii_str().unwrap()));
    assert_eq!(iter.next(), Some("foo".as_ascii_str().unwrap()));
    assert_eq!(iter.next_back(), Some("baz".as_ascii_str().unwrap()));
    assert_eq!(iter.next_back(), Some("bar".as_ascii_str().unwrap()));
    assert_eq!(iter.next(), Some("".as_ascii_str().unwrap()));
    assert_eq!(iter.next_back(), None);
}

#[test]
fn split_str_empty() {
    let empty = <AsciiStr as Default>::default();
    let nak = AsciiChar::from(21u8).unwrap();
    let mut iter = empty.split(nak);
    assert_eq!(iter.next(), Some(empty));
    assert_eq!(iter.next(), None);
    let mut iter = empty.split(nak);
    assert_eq!(iter.next_back(), Some(empty));
    assert_eq!(iter.next_back(), None);
    assert_eq!("".split('s').next(), Some(""));
}

#[test]
fn fmt_ascii_str() {
    let s = "abc".as_ascii_str().unwrap();
    assert_eq!(s.to_string(), "abc".to_string());
    assert_eq!(s.debug_string(), "\"abc\"".to_string());
}
