//! `AsciiStr`: a borrowed, validated view over a run of ASCII bytes.
//!
//! The view owns no memory; it wraps the byte slice it was validated from,
//! so conversion back to bytes is free and can never fail. Every constructor
//! either scans the input once and reports the exact position of the first
//! offending byte, or requires the caller to have proved validity already.

use vstd::prelude::*;
use vstd::string::{StringExecFns, StringSliceAdditionalSpecFns};

use crate::ascii_char::{is_ascii_byte, spec_is_whitespace, spec_to_lower, spec_to_upper, AsciiChar, ToAsciiChar};
use crate::ascii_string::AsciiString;
use crate::iter::{split_lines, split_segments, Chars, CharsRef, Lines, Split};

verus! {

/// Every byte of the sequence lies in the ASCII range.
pub open spec fn is_ascii_seq(s: Seq<u8>) -> bool {
    forall|i: int| 0 <= i < s.len() ==> is_ascii_byte(#[trigger] s[i])
}

/// The characters a run of ASCII bytes spells, one character per byte.
pub open spec fn ascii_chars(s: Seq<u8>) -> Seq<char> {
    s.map_values(|b: u8| b as char)
}

/// Relies on `String::push`: appends the given character to the end of the
/// string.
pub assume_specification[ String::push ](s: &mut String, ch: char)
    ensures
        final(s)@ == old(s)@.push(ch),
;

/// Relies on `char::from_u32`: the character with the given code, or `None`
/// when the value is a surrogate or lies beyond the last code point.
pub assume_specification[ char::from_u32 ](i: u32) -> (r: Option<char>)
    ensures
        r is Some <==> (i <= 0x10ffff && !(0xd800 <= i <= 0xdfff)),
        r matches Some(c) ==> c as u32 == i,
;

/// Relies on `str::from_utf8`: bytes in the ASCII range are valid UTF-8 and
/// decode to themselves, one character per byte; the same storage is viewed,
/// nothing is copied.
#[verifier::external_body]
pub(crate) fn bytes_as_str<'a>(bytes: &'a [u8]) -> (r: &'a str)
    requires
        is_ascii_seq(bytes@),
    ensures
        r@ == ascii_chars(bytes@),
{
    core::str::from_utf8(bytes).unwrap()
}

/// The sequence with every lowercase letter replaced by its uppercase
/// equivalent.
pub open spec fn upper_seq(s: Seq<u8>) -> Seq<u8> {
    s.map_values(|b: u8| spec_to_upper(b))
}

/// The sequence with every uppercase letter replaced by its lowercase
/// equivalent.
pub open spec fn lower_seq(s: Seq<u8>) -> Seq<u8> {
    s.map_values(|b: u8| spec_to_lower(b))
}

/// Two sequences are equal up to the case of letters: same length and,
/// position by position, the same byte once both sides are lowercased.
pub open spec fn eq_ignore_case_seq(a: Seq<u8>, b: Seq<u8>) -> bool {
    a.len() == b.len() && forall|i: int|
        0 <= i < a.len() ==> spec_to_lower(#[trigger] a[i]) == spec_to_lower(b[i])
}

/// Round trip through the text view: spelling a run of ASCII bytes as
/// characters and encoding those characters again yields exactly the
/// original bytes. Together with the contracts of `from_ascii` and
/// `as_bytes`, every re-viewing direction between bytes, text and the
/// validated view is the identity.
pub proof fn lemma_ascii_chars_encode_round_trip(s: Seq<u8>)
    requires
        is_ascii_seq(s),
    ensures
        vstd::utf8::encode_utf8(ascii_chars(s)) == s,
    decreases s.len(),
{
    let chars = ascii_chars(s);
    if s.len() == 0 {
        assert(vstd::utf8::encode_utf8(chars) =~= s);
    } else {
        let b = s[0];
        assert(chars[0] == b as char);
        assert((b as char) as u32 == b as u32);
        assert(vstd::utf8::has_width_1_encoding((b as char) as u32));
        let v = (b as char) as u32;
        assert((v & 0x7f) == v) by (bit_vector)
            requires
                v <= 0x7f,
        ;
        assert(vstd::utf8::encode_scalar(v) =~= seq![b]);
        lemma_ascii_chars_encode_round_trip(s.drop_first());
        assert(chars.drop_first() =~= ascii_chars(s.drop_first()));
        assert(vstd::utf8::encode_utf8(chars) =~= seq![b] + vstd::utf8::encode_utf8(
            ascii_chars(s.drop_first()),
        ));
        assert(seq![b] + s.drop_first() =~= s);
    }
}

/// Uppercasing a whole sequence is idempotent, and so is lowercasing.
pub proof fn lemma_case_map_idempotent(s: Seq<u8>)
    ensures
        upper_seq(upper_seq(s)) == upper_seq(s),
        lower_seq(lower_seq(s)) == lower_seq(s),
{
    assert(upper_seq(upper_seq(s)) =~= upper_seq(s));
    assert(lower_seq(lower_seq(s)) =~= lower_seq(s));
}

/// The number of whitespace characters at the front of the sequence.
pub open spec fn leading_ws(s: Seq<u8>) -> int
    decreases s.len(),
{
    if s.len() == 0 {
        0
    } else if spec_is_whitespace(s[0]) {
        1 + leading_ws(s.drop_first())
    } else {
        0
    }
}

/// The number of whitespace characters at the back of the sequence.
pub open spec fn trailing_ws(s: Seq<u8>) -> int
    decreases s.len(),
{
    if s.len() == 0 {
        0
    } else if spec_is_whitespace(s.last()) {
        1 + trailing_ws(s.drop_last())
    } else {
        0
    }
}

/// The sequence with its maximal whitespace prefix and suffix removed.
pub open spec fn trim_seq(s: Seq<u8>) -> Seq<u8> {
    let t = s.skip(leading_ws(s));
    t.take(t.len() - trailing_ws(t))
}

proof fn lemma_leading_ws_from_scan(s: Seq<u8>, i: int)
    requires
        0 <= i <= s.len(),
        forall|j: int| 0 <= j < i ==> spec_is_whitespace(#[trigger] s[j]),
        i == s.len() || !spec_is_whitespace(s[i]),
    ensures
        leading_ws(s) == i,
    decreases s.len(),
{
    if s.len() == 0 {
    } else if i == 0 {
    } else {
        assert(spec_is_whitespace(s[0]));
        let t = s.drop_first();
        assert(forall|j: int| 0 <= j < i - 1 ==> spec_is_whitespace(#[trigger] t[j]));
        lemma_leading_ws_from_scan(t, i - 1);
    }
}

proof fn lemma_trailing_ws_from_scan(s: Seq<u8>, i: int)
    requires
        0 <= i <= s.len(),
        forall|j: int| i <= j < s.len() ==> spec_is_whitespace(#[trigger] s[j]),
        i == 0 || !spec_is_whitespace(s[i - 1]),
    ensures
        trailing_ws(s) == s.len() - i,
    decreases s.len(),
{
    if s.len() == 0 {
    } else if i == s.len() {
    } else {
        assert(spec_is_whitespace(s.last()));
        let t = s.drop_last();
        assert(forall|j: int| i <= j < t.len() ==> spec_is_whitespace(#[trigger] t[j]));
        lemma_trailing_ws_from_scan(t, i);
    }
}

/// Error that is returned when a sequence of `u8` are not all ASCII.
///
/// It carries the index of the first offending byte and, when the input was
/// text rather than raw bytes, the decoded character found there.
#[derive(Clone, Copy, PartialEq, Eq, Debug, Hash)]
pub struct AsAsciiStrError {
    index: usize,
    chr: Option<char>,
}

impl AsAsciiStrError {
    /// The index of the first non-ASCII byte.
    pub closed spec fn spec_pos(self) -> int {
        self.index as int
    }

    /// The decoded character at the error position, when the input was text.
    pub closed spec fn spec_chr(self) -> Option<char> {
        self.chr
    }

    /// Returns the index of the first non-ASCII byte.
    ///
    /// It is the maximum index such that `from_ascii(input[..index])` would
    /// return `Ok(_)`.
    pub fn valid_up_to(&self) -> (r: usize)
        ensures
            r == self.spec_pos(),
    {
        self.index
    }

    /// The decoded character that made validation fail, when the input was
    /// text; `None` when the input was raw bytes.
    pub fn invalid_char(&self) -> (r: Option<char>)
        ensures
            r == self.spec_chr(),
    {
        self.chr
    }

    /// Returns a description for this error.
    pub fn description(&self) -> (r: &'static str)
        ensures
            r@ == "one or more bytes are not ASCII"@,
    {
        "one or more bytes are not ASCII"
    }

    pub(crate) fn at_byte(index: usize) -> (r: Self)
        ensures
            r.spec_pos() == index,
            r.spec_chr() is None,
    {
        AsAsciiStrError { index, chr: None }
    }

    pub(crate) fn at_char(index: usize, chr: char) -> (r: Self)
        ensures
            r.spec_pos() == index,
            r.spec_chr() == Some(chr),
    {
        AsAsciiStrError { index, chr: Some(chr) }
    }
}

/// `AsciiStr` represents a byte or string slice that only contains ASCII
/// characters.
///
/// It wraps the underlying byte slice, so it owns no storage of its own, and
/// viewing it as bytes again costs nothing. It is created by a checked
/// conversion from text or bytes, or borrowed from an `AsciiString`.
#[derive(Clone, Copy, PartialEq, Eq, Debug, Hash, PartialOrd, Ord)]
pub struct AsciiStr<'a> {
    slice: &'a [u8],
}

impl<'a> View for AsciiStr<'a> {
    type V = Seq<u8>;

    closed spec fn view(&self) -> Seq<u8> {
        self.slice@
    }
}

impl<'a> AsciiStr<'a> {
    #[verifier::type_invariant]
    spec fn wf(self) -> bool {
        is_ascii_seq(self.slice@)
    }

    /// Converts a byte slice into an `AsciiStr`, scanning left to right and
    /// succeeding exactly when every byte lies in the ASCII range; on failure
    /// the error carries the index of the first offending byte.
    pub fn from_ascii(bytes: &'a [u8]) -> (r: Result<AsciiStr<'a>, AsAsciiStrError>)
        ensures
            r is Ok <==> is_ascii_seq(bytes@),
            r matches Ok(v) ==> v@ == bytes@,
            r matches Err(e) ==> {
                &&& 0 <= e.spec_pos() < bytes@.len()
                &&& !is_ascii_byte(bytes@[e.spec_pos()])
                &&& forall|j: int| 0 <= j < e.spec_pos() ==> is_ascii_byte(#[trigger] bytes@[j])
                &&& e.spec_chr() is None
            },
    {
        match scan_non_ascii(bytes) {
            Some(index) => Err(AsAsciiStrError::at_byte(index)),
            None => Ok(AsciiStr { slice: bytes }),
        }
    }

    /// Converts a string slice into an `AsciiStr` viewing the same bytes,
    /// succeeding exactly when every byte of its encoding lies in the ASCII
    /// range. On failure the error carries the index of the first offending
    /// byte and the character decoded there, so a caller can tell a genuine
    /// multi-byte character from a stray high byte.
    pub fn from_text(s: &'a str) -> (r: Result<AsciiStr<'a>, AsAsciiStrError>)
        ensures
            r is Ok <==> is_ascii_seq(s.spec_bytes()),
            r matches Ok(v) ==> v@ == s.spec_bytes(),
            r matches Err(e) ==> {
                &&& 0 <= e.spec_pos() < s.spec_bytes().len()
                &&& !is_ascii_byte(s.spec_bytes()[e.spec_pos()])
                &&& forall|j: int| 0 <= j < e.spec_pos() ==> is_ascii_byte(
                    #[trigger] s.spec_bytes()[j],
                )
                &&& e.spec_chr() == Some(
                    vstd::utf8::decode_first_scalar(s.spec_bytes().skip(e.spec_pos())) as char,
                )
            },
    {
        broadcast use vstd::utf8::encode_utf8_valid_utf8;

        let bytes = s.as_bytes();
        match scan_non_ascii(bytes) {
            None => Ok(AsciiStr { slice: bytes }),
            Some(pos) => {
                let ghost sk = bytes@.skip(pos as int);
                proof {
                    lemma_ascii_prefix_keeps_utf8(bytes@, pos as int);
                    assert(vstd::utf8::valid_first_scalar(sk));
                }
                let chr = decode_scalar_at(bytes, pos);
                Err(AsAsciiStrError::at_char(pos, chr))
            },
        }
    }

    /// Wraps a byte slice that the caller has already proved to be ASCII;
    /// no scan is made.
    pub fn from_ascii_unchecked(bytes: &'a [u8]) -> (r: AsciiStr<'a>)
        requires
            is_ascii_seq(bytes@),
        ensures
            r@ == bytes@,
    {
        AsciiStr { slice: bytes }
    }

    /// Returns the number of characters / bytes in this ASCII sequence.
    pub fn len(&self) -> (n: usize)
        ensures
            n == self@.len(),
    {
        self.slice.len()
    }

    /// Returns true if the ASCII slice contains zero bytes.
    pub fn is_empty(&self) -> (r: bool)
        ensures
            r == (self@.len() == 0),
    {
        self.slice.len() == 0
    }

    /// Converts `&self` into a byte slice; the same storage, no copy.
    pub fn as_bytes(&self) -> (r: &'a [u8])
        ensures
            r@ == self@,
            is_ascii_seq(r@),
    {
        proof {
            use_type_invariant(self);
        }
        self.slice
    }

    /// Converts `&self` to a `&str` slice spelling the same characters; the
    /// same storage, no copy.
    pub fn as_str(&self) -> (r: &'a str)
        ensures
            r@ == ascii_chars(self@),
    {
        proof {
            use_type_invariant(self);
        }
        bytes_as_str(self.slice)
    }

    /// The character at position `index`; the index must be in bounds.
    pub fn at(&self, index: usize) -> (c: AsciiChar)
        requires
            index < self@.len(),
        ensures
            c@ == self@[index as int],
    {
        proof {
            use_type_invariant(self);
        }
        let b = *vstd::slice::slice_index_get(self.slice, index);
        b.to_ascii_char_unchecked()
    }

    /// The sub-view covering positions `from..to`; the bounds must be in
    /// range. No copy and no re-validation is made.
    pub fn substr(&self, from: usize, to: usize) -> (r: AsciiStr<'a>)
        requires
            from <= to <= self@.len(),
        ensures
            r@ == self@.subrange(from as int, to as int),
    {
        proof {
            use_type_invariant(self);
        }
        AsciiStr { slice: vstd::slice::slice_subrange(self.slice, from, to) }
    }

    /// Returns the first character if the string is not empty.
    pub fn first(&self) -> (r: Option<AsciiChar>)
        ensures
            self@.len() == 0 ==> r is None,
            self@.len() > 0 ==> (r matches Some(c) && c@ == self@[0]),
    {
        if self.slice.len() == 0 {
            None
        } else {
            Some(self.at(0))
        }
    }

    /// Returns the last character if the string is not empty.
    pub fn last(&self) -> (r: Option<AsciiChar>)
        ensures
            self@.len() == 0 ==> r is None,
            self@.len() > 0 ==> (r matches Some(c) && c@ == self@[self@.len() - 1]),
    {
        if self.slice.len() == 0 {
            None
        } else {
            Some(self.at(self.slice.len() - 1))
        }
    }

    /// Returns the entire string as a vector of `AsciiChar`s.
    pub fn as_slice(&self) -> (r: Vec<AsciiChar>)
        ensures
            r@.len() == self@.len(),
            forall|i: int| 0 <= i < r@.len() ==> r@[i]@ == self@[i],
    {
        proof {
            use_type_invariant(self);
        }
        let n = self.slice.len();
        let mut out: Vec<AsciiChar> = Vec::new();
        let mut i: usize = 0;
        while i < n
            invariant
                n == self@.len(),
                0 <= i <= n,
                is_ascii_seq(self@),
                out@.len() == i,
                forall|j: int| 0 <= j < i ==> out@[j]@ == self@[j],
            decreases n - i,
        {
            let b = *vstd::slice::slice_index_get(self.slice, i);
            out.push(b.to_ascii_char_unchecked());
            i = i + 1;
        }
        out
    }

    /// Returns a cursor over the characters of the `AsciiStr`.
    pub fn chars(&self) -> (r: Chars<'a>)
        ensures
            r@ == self@,
    {
        Chars::over(*self)
    }

    /// Returns a cursor over the characters of the `AsciiStr` that hands the
    /// characters out by reference semantics.
    pub fn chars_ref(&self) -> (r: CharsRef<'a>)
        ensures
            r@ == self@,
    {
        CharsRef::over(*self)
    }

    /// Returns a cursor over the parts of the `AsciiStr` separated by the
    /// given character, consumable from both ends.
    pub fn split(&self, on: AsciiChar) -> (r: Split<'a>)
        ensures
            r@ == split_segments(self@, on@),
    {
        Split::over(*self, on)
    }

    /// Returns a cursor over the lines of the `AsciiStr`, consumable from
    /// both ends. Lines are ended with either a line feed or a carriage
    /// return followed by a line feed; the final line ending is optional.
    pub fn lines(&self) -> (r: Lines<'a>)
        ensures
            r@ == split_lines(self@),
    {
        Lines::over(*self)
    }

    /// Copies the content of this `AsciiStr` into an owned `AsciiString`.
    pub fn to_ascii_string(&self) -> (r: AsciiString)
        ensures
            r@ == self@,
    {
        proof {
            use_type_invariant(self);
        }
        AsciiString::from_ascii_unchecked(vstd::slice::slice_to_vec(self.slice))
    }

    /// Returns an ASCII string slice with leading whitespace removed; the
    /// result is a sub-view of the same storage.
    pub fn trim_start(&self) -> (r: AsciiStr<'a>)
        ensures
            r@ == self@.skip(leading_ws(self@)),
    {
        proof {
            use_type_invariant(self);
        }
        let n = self.slice.len();
        let mut i: usize = 0;
        while i < n && self.at(i).is_whitespace()
            invariant
                n == self@.len(),
                0 <= i <= n,
                is_ascii_seq(self@),
                forall|j: int| 0 <= j < i ==> spec_is_whitespace(#[trigger] self@[j]),
            decreases n - i,
        {
            i = i + 1;
        }
        proof {
            lemma_leading_ws_from_scan(self@, i as int);
        }
        self.substr(i, n)
    }

    /// Returns an ASCII string slice with trailing whitespace removed; the
    /// result is a sub-view of the same storage.
    pub fn trim_end(&self) -> (r: AsciiStr<'a>)
        ensures
            r@ == self@.take(self@.len() - trailing_ws(self@)),
    {
        proof {
            use_type_invariant(self);
        }
        let n = self.slice.len();
        let mut i: usize = n;
        while i > 0 && self.at(i - 1).is_whitespace()
            invariant
                n == self@.len(),
                0 <= i <= n,
                is_ascii_seq(self@),
                forall|j: int| i <= j < n ==> spec_is_whitespace(#[trigger] self@[j]),
            decreases i,
        {
            i = i - 1;
        }
        proof {
            lemma_trailing_ws_from_scan(self@, i as int);
        }
        self.substr(0, i)
    }

    /// Returns an ASCII string slice with leading and trailing whitespace
    /// removed; the result is a sub-view of the same storage.
    pub fn trim(&self) -> (r: AsciiStr<'a>)
        ensures
            r@ == trim_seq(self@),
    {
        self.trim_start().trim_end()
    }

    /// Compares two strings case-insensitively: equal length and, position
    /// by position, equal once the case of letters is ignored.
    pub fn eq_ignore_ascii_case(&self, other: &AsciiStr<'_>) -> (r: bool)
        ensures
            r == eq_ignore_case_seq(self@, other@),
    {
        proof {
            use_type_invariant(self);
            use_type_invariant(other);
        }
        let n = self.slice.len();
        if n != other.slice.len() {
            return false;
        }
        let mut i: usize = 0;
        while i < n
            invariant
                n == self@.len(),
                n == other@.len(),
                0 <= i <= n,
                is_ascii_seq(self@),
                is_ascii_seq(other@),
                forall|j: int|
                    0 <= j < i ==> spec_to_lower(#[trigger] self@[j]) == spec_to_lower(other@[j]),
            decreases n - i,
        {
            if !self.at(i).eq_ignore_ascii_case(&other.at(i)) {
                return false;
            }
            i = i + 1;
        }
        true
    }

    /// Returns a copy of this string with every lowercase letter replaced by
    /// its uppercase equivalent.
    pub fn to_ascii_uppercase(&self) -> (r: AsciiString)
        ensures
            r@ == upper_seq(self@),
    {
        let mut out = self.to_ascii_string();
        out.make_ascii_uppercase();
        out
    }

    /// Returns a copy of this string with every uppercase letter replaced by
    /// its lowercase equivalent.
    pub fn to_ascii_lowercase(&self) -> (r: AsciiString)
        ensures
            r@ == lower_seq(self@),
    {
        let mut out = self.to_ascii_string();
        out.make_ascii_lowercase();
        out
    }

    /// The characters of this string as an owned `String`; what a display
    /// of the value shows.
    pub fn to_string(&self) -> (r: String)
        ensures
            r@ == ascii_chars(self@),
    {
        String::from_str(self.as_str())
    }

    /// The characters of this string wrapped in double quotes; what a debug
    /// rendering of the value shows.
    pub fn debug_string(&self) -> (r: String)
        ensures
            r@ == seq!['"'] + ascii_chars(self@) + seq!['"'],
    {
        let mut out = String::new();
        out.push('"');
        out.append(self.as_str());
        out.push('"');
        proof {
            assert(out@ =~= seq!['"'] + ascii_chars(self@) + seq!['"']);
        }
        out
    }
}

impl<'a> Default for AsciiStr<'a> {
    /// The empty ASCII string slice.
    fn default() -> (r: AsciiStr<'a>)
        ensures
            r@ == Seq::<u8>::empty(),
    {
        proof {
            reveal_strlit("");
        }
        let bytes = "".as_bytes();
        proof {
            assert(bytes@ =~= Seq::<u8>::empty());
        }
        AsciiStr::from_ascii_unchecked(bytes)
    }
}

/// Convert borrowed bytes or text to `AsciiStr`.
pub trait AsAsciiStr<'a>: Sized {
    /// The bytes the conversion validates and, on success, views.
    spec fn ascii_source(self) -> Seq<u8>;

    /// Convert to an ASCII view, succeeding exactly when every byte of the
    /// source lies in the ASCII range; on failure the error carries the
    /// index of the first offending byte.
    fn as_ascii_str(self) -> (r: Result<AsciiStr<'a>, AsAsciiStrError>)
        ensures
            r is Ok <==> is_ascii_seq(self.ascii_source()),
            r matches Ok(v) ==> v@ == self.ascii_source(),
            r matches Err(e) ==> {
                &&& 0 <= e.spec_pos() < self.ascii_source().len()
                &&& !is_ascii_byte(self.ascii_source()[e.spec_pos()])
                &&& forall|j: int| 0 <= j < e.spec_pos() ==> is_ascii_byte(
                    #[trigger] self.ascii_source()[j],
                )
            },
    ;

    /// Convert to an ASCII view without a scan; the caller asserts that the
    /// source is ASCII.
    fn as_ascii_str_unchecked(self) -> (r: AsciiStr<'a>)
        requires
            is_ascii_seq(self.ascii_source()),
        ensures
            r@ == self.ascii_source(),
    ;
}

impl<'a> AsAsciiStr<'a> for &'a [u8] {
    open spec fn ascii_source(self) -> Seq<u8> {
        self@
    }

    fn as_ascii_str(self) -> (r: Result<AsciiStr<'a>, AsAsciiStrError>) {
        AsciiStr::from_ascii(self)
    }

    fn as_ascii_str_unchecked(self) -> (r: AsciiStr<'a>) {
        AsciiStr::from_ascii_unchecked(self)
    }
}

impl<'a> AsAsciiStr<'a> for &'a str {
    open spec fn ascii_source(self) -> Seq<u8> {
        self.spec_bytes()
    }

    fn as_ascii_str(self) -> (r: Result<AsciiStr<'a>, AsAsciiStrError>) {
        AsciiStr::from_text(self)
    }

    fn as_ascii_str_unchecked(self) -> (r: AsciiStr<'a>) {
        AsciiStr::from_ascii_unchecked(self.as_bytes())
    }
}

impl<'a> AsAsciiStr<'a> for AsciiStr<'a> {
    open spec fn ascii_source(self) -> Seq<u8> {
        self@
    }

    fn as_ascii_str(self) -> (r: Result<AsciiStr<'a>, AsAsciiStrError>) {
        proof {
            use_type_invariant(self);
        }
        Ok(self)
    }

    fn as_ascii_str_unchecked(self) -> (r: AsciiStr<'a>) {
        self
    }
}

/// The index of the first byte outside the ASCII range, or `None` when every
/// byte is in range.
fn scan_non_ascii(bytes: &[u8]) -> (r: Option<usize>)
    ensures
        match r {
            Some(i) => {
                &&& 0 <= i < bytes@.len()
                &&& !is_ascii_byte(bytes@[i as int])
                &&& forall|j: int| 0 <= j < i ==> is_ascii_byte(#[trigger] bytes@[j])
            },
            None => is_ascii_seq(bytes@),
        },
{
    let n = bytes.len();
    let mut i: usize = 0;
    while i < n
        invariant
            n == bytes@.len(),
            0 <= i <= n,
            forall|j: int| 0 <= j < i ==> is_ascii_byte(#[trigger] bytes@[j]),
        decreases n - i,
    {
        if *vstd::slice::slice_index_get(bytes, i) > 127 {
            return Some(i);
        }
        i = i + 1;
    }
    None
}

/// A well-formed encoding stays well-formed after a prefix of plain ASCII
/// bytes is dropped: each such byte is a whole one-byte character.
proof fn lemma_ascii_prefix_keeps_utf8(b: Seq<u8>, pos: int)
    requires
        vstd::utf8::valid_utf8(b),
        0 <= pos <= b.len(),
        forall|j: int| 0 <= j < pos ==> #[trigger] b[j] <= 127,
    ensures
        vstd::utf8::valid_utf8(b.skip(pos)),
    decreases pos,
{
    if pos == 0 {
        assert(b.skip(0) =~= b);
    } else {
        assert(b.len() > 0);
        assert(vstd::utf8::valid_first_scalar(b));
        assert(b[0] <= 127);
        assert(vstd::utf8::is_leading_byte_width_1(b[0]));
        assert(vstd::utf8::length_of_first_scalar(b) == 1);
        assert(vstd::utf8::pop_first_scalar(b) =~= b.skip(1));
        let t = b.skip(1);
        assert(forall|j: int| 0 <= j < pos - 1 ==> #[trigger] t[j] <= 127);
        lemma_ascii_prefix_keeps_utf8(t, pos - 1);
        assert(t.skip(pos - 1) =~= b.skip(pos));
    }
}

/// The character whose encoding starts at `pos`; `pos` must start a
/// well-formed multi-byte encoding.
fn decode_scalar_at(bytes: &[u8], pos: usize) -> (c: char)
    requires
        pos < bytes@.len(),
        bytes@[pos as int] > 127,
        vstd::utf8::valid_first_scalar(bytes@.skip(pos as int)),
    ensures
        c == vstd::utf8::decode_first_scalar(bytes@.skip(pos as int)) as char,
{
    let ghost sk = bytes@.skip(pos as int);
    let n = bytes.len();
    proof {
        assert(sk.len() == n - pos);
    }
    let b0 = *vstd::slice::slice_index_get(bytes, pos);
    proof {
        assert(sk[0] == b0);
        assert(vstd::utf8::valid_leading_and_continuation_bytes_first_codepoint(sk));
        assert(!vstd::utf8::is_leading_byte_width_1(b0));
    }
    let v: u32;
    if b0 <= 0xdf {
        proof {
            assert(vstd::utf8::is_leading_byte_width_2(b0));
            assert(sk.len() >= 2);
            assert(sk[1] == bytes@[pos + 1]);
        }
        let b1 = *vstd::slice::slice_index_get(bytes, pos + 1);
        v = (((b0 & 0x1f) as u32) << 6) | ((b1 & 0x3f) as u32);
        proof {
            let x0 = b0 as u32;
            let x1 = b1 as u32;
            assert((((x0 & 0x1f) << 6) | (x1 & 0x3f)) <= 0x7ff) by (bit_vector);
            assert(v == vstd::utf8::codepoint_width_2(b0, b1));
        }
    } else if b0 <= 0xef {
        proof {
            assert(vstd::utf8::is_leading_byte_width_3(b0));
            assert(sk.len() >= 3);
            assert(sk[1] == bytes@[pos + 1]);
            assert(sk[2] == bytes@[pos + 2]);
        }
        let b1 = *vstd::slice::slice_index_get(bytes, pos + 1);
        let b2 = *vstd::slice::slice_index_get(bytes, pos + 2);
        v = (((b0 & 0x0f) as u32) << 12) | (((b1 & 0x3f) as u32) << 6) | ((b2 & 0x3f) as u32);
        proof {
            let x0 = b0 as u32;
            let x1 = b1 as u32;
            let x2 = b2 as u32;
            assert((((x0 & 0x0f) << 12) | ((x1 & 0x3f) << 6) | (x2 & 0x3f)) <= 0xffff)
                by (bit_vector);
            assert(v == vstd::utf8::codepoint_width_3(b0, b1, b2));
        }
    } else {
        proof {
            assert(vstd::utf8::is_leading_byte_width_4(b0));
            assert(sk.len() >= 4);
            assert(sk[1] == bytes@[pos + 1]);
            assert(sk[2] == bytes@[pos + 2]);
            assert(sk[3] == bytes@[pos + 3]);
        }
        let b1 = *vstd::slice::slice_index_get(bytes, pos + 1);
        let b2 = *vstd::slice::slice_index_get(bytes, pos + 2);
        let b3 = *vstd::slice::slice_index_get(bytes, pos + 3);
        v = (((b0 & 0x07) as u32) << 18) | (((b1 & 0x3f) as u32) << 12) | (((b2 & 0x3f) as u32)
            << 6) | ((b3 & 0x3f) as u32);
        proof {
            assert(v == vstd::utf8::codepoint_width_4(b0, b1, b2, b3));
        }
    }
    proof {
        assert(v == vstd::utf8::decode_first_scalar(sk));
        assert(vstd::utf8::not_overlong_encoding(v, vstd::utf8::length_of_first_codepoint(sk)));
        assert(vstd::utf8::not_surrogate(v));
    }
    match char::from_u32(v) {
        Some(c) => {
            proof {
                vstd::utf8::char_u32_cast(c, v);
            }
            c
        },
        None => {
            proof {
                assert(false);
            }
            '\0'
        },
    }
}

} // verus!
