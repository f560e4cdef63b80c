//! C-compatible ASCII strings: a contiguous run of non-nul ASCII bytes
//! followed by exactly one terminating nul byte.
//!
//! `AsciiCStr` borrows such a run, `AsciiCString` owns one. Validation
//! reports, with one discriminated error, whether a nul byte came too early,
//! was missing altogether, or a byte fell outside the ASCII range, and at
//! which position.

use vstd::prelude::*;

use crate::ascii_char::is_ascii_byte;
use crate::ascii_str::{ascii_chars, is_ascii_seq, AsciiStr};
use crate::ascii_string::AsciiString;

verus! {

/// A run of bytes shaped like a C string: at least the terminator, no nul
/// before the last position, the last position nul, and everything ASCII.
pub open spec fn is_c_str_seq(s: Seq<u8>) -> bool {
    &&& s.len() >= 1
    &&& s.last() == 0
    &&& forall|i: int| 0 <= i < s.len() - 1 ==> s[i] != 0
    &&& is_ascii_seq(s)
}

/// Relies on `memchr::memchr`: the index of the first occurrence of
/// `needle` in `haystack`, or `None` when it does not occur.
#[verifier::external_body]
fn find_byte(needle: u8, haystack: &[u8]) -> (r: Option<usize>)
    ensures
        match r {
            Some(i) => {
                &&& 0 <= i < haystack@.len()
                &&& haystack@[i as int] == needle
                &&& forall|j: int| 0 <= j < i ==> haystack@[j] != needle
            },
            None => forall|j: int| 0 <= j < haystack@.len() ==> haystack@[j] != needle,
        },
{
    memchr::memchr(needle, haystack)
}

/// What made a byte run unusable as a C string.
#[derive(Clone, Copy, PartialEq, Eq, Structural, Debug, Hash)]
pub enum FromBytesWithNulErrorKind {
    /// A nul byte stood before the last position.
    InteriorNul,
    /// No nul byte stood anywhere.
    NotNulTerminated,
    /// A byte lay outside the ASCII range.
    NotAscii,
}

/// An error returned when a byte run cannot be read as an ASCII C string:
/// a nul byte was found too early, none was found at all, or a byte lay
/// outside the ASCII range.
#[derive(Clone, Copy, PartialEq, Eq, Structural, Debug, Hash)]
pub struct FromBytesWithNulError {
    kind: FromBytesWithNulErrorKind,
    pos: usize,
}

impl FromBytesWithNulError {
    /// The reported position.
    pub closed spec fn spec_pos(self) -> int {
        self.pos as int
    }

    /// The reported kind.
    pub closed spec fn spec_kind(self) -> FromBytesWithNulErrorKind {
        self.kind
    }

    /// Returns the index of the first interior nul byte or non-ASCII byte.
    /// If the terminating nul byte is missing, the length of the string is
    /// returned.
    pub fn valid_up_to(&self) -> (r: usize)
        ensures
            r == self.spec_pos(),
    {
        self.pos
    }

    /// Which of the three failures happened.
    pub fn kind(&self) -> (r: FromBytesWithNulErrorKind)
        ensures
            r == self.spec_kind(),
    {
        self.kind
    }

    /// Returns a description for this error.
    pub fn description(&self) -> (r: &'static str)
        ensures
            self.spec_kind() == FromBytesWithNulErrorKind::InteriorNul ==> r@
                == "data provided contains an interior nul byte"@,
            self.spec_kind() == FromBytesWithNulErrorKind::NotNulTerminated ==> r@
                == "data provided is not nul terminated"@,
            self.spec_kind() == FromBytesWithNulErrorKind::NotAscii ==> r@
                == "data provided contains a non-ascii character"@,
    {
        match self.kind {
            FromBytesWithNulErrorKind::InteriorNul => "data provided contains an interior nul byte",
            FromBytesWithNulErrorKind::NotNulTerminated => "data provided is not nul terminated",
            FromBytesWithNulErrorKind::NotAscii => "data provided contains a non-ascii character",
        }
    }

    pub(crate) fn interior_nul(pos: usize) -> (r: Self)
        ensures
            r.spec_pos() == pos,
            r.spec_kind() == FromBytesWithNulErrorKind::InteriorNul,
    {
        FromBytesWithNulError { pos, kind: FromBytesWithNulErrorKind::InteriorNul }
    }

    pub(crate) fn not_nul_terminated(len: usize) -> (r: Self)
        ensures
            r.spec_pos() == len,
            r.spec_kind() == FromBytesWithNulErrorKind::NotNulTerminated,
    {
        FromBytesWithNulError { pos: len, kind: FromBytesWithNulErrorKind::NotNulTerminated }
    }

    pub(crate) fn not_ascii(index: usize) -> (r: Self)
        ensures
            r.spec_pos() == index,
            r.spec_kind() == FromBytesWithNulErrorKind::NotAscii,
    {
        FromBytesWithNulError { pos: index, kind: FromBytesWithNulErrorKind::NotAscii }
    }
}

/// Representation of a borrowed ASCII C string: a run of non-nul ASCII
/// bytes ending in exactly one nul byte, viewed in place.
#[derive(Clone, Copy, Debug, PartialEq, Eq, Hash, PartialOrd, Ord)]
pub struct AsciiCStr<'a> {
    bytes: &'a [u8],
}

impl<'a> View for AsciiCStr<'a> {
    type V = Seq<u8>;

    closed spec fn view(&self) -> Seq<u8> {
        self.bytes@
    }
}

impl<'a> AsciiCStr<'a> {
    #[verifier::type_invariant]
    spec fn wf(self) -> bool {
        is_c_str_seq(self.bytes@)
    }

    /// Creates an ASCII C string wrapper from a byte slice, after checking
    /// that a nul byte stands exactly at the end and every byte is ASCII.
    /// The error says which check failed and where; the nul structure is
    /// checked before the ASCII range, so a missing or early nul is reported
    /// even when a non-ASCII byte is also present.
    pub fn from_bytes_with_nul(bytes: &'a [u8]) -> (r: Result<
        AsciiCStr<'a>,
        FromBytesWithNulError,
    >)
        ensures
            r is Ok <==> is_c_str_seq(bytes@),
            r matches Ok(v) ==> v@ == bytes@,
            r matches Err(e) ==> (e.spec_kind() == FromBytesWithNulErrorKind::NotNulTerminated
                <==> (forall|j: int| 0 <= j < bytes@.len() ==> bytes@[j] != 0)),
            r matches Err(e) ==> (e.spec_kind() == FromBytesWithNulErrorKind::InteriorNul <==> (
            exists|i: int|
                {
                    &&& 0 <= i < bytes@.len() - 1
                    &&& #[trigger] bytes@[i] == 0
                    &&& forall|j: int| 0 <= j < i ==> bytes@[j] != 0
                })),
            r matches Err(e) ==> match e.spec_kind() {
                FromBytesWithNulErrorKind::InteriorNul => {
                    &&& 0 <= e.spec_pos() < bytes@.len() - 1
                    &&& bytes@[e.spec_pos()] == 0
                    &&& forall|j: int| 0 <= j < e.spec_pos() ==> bytes@[j] != 0
                },
                FromBytesWithNulErrorKind::NotNulTerminated => {
                    &&& e.spec_pos() == bytes@.len()
                    &&& forall|j: int| 0 <= j < bytes@.len() ==> bytes@[j] != 0
                },
                FromBytesWithNulErrorKind::NotAscii => {
                    &&& 0 <= e.spec_pos() < bytes@.len()
                    &&& !is_ascii_byte(bytes@[e.spec_pos()])
                    &&& forall|j: int| 0 <= j < e.spec_pos() ==> is_ascii_byte(
                        #[trigger] bytes@[j],
                    )
                },
            },
    {
        let n = bytes.len();
        match find_byte(0, bytes) {
            Some(nul_pos) => {
                if nul_pos + 1 != n {
                    return Err(FromBytesWithNulError::interior_nul(nul_pos));
                }
                match AsciiStr::from_ascii(bytes) {
                    Ok(_) => Ok(AsciiCStr { bytes }),
                    Err(e) => Err(FromBytesWithNulError::not_ascii(e.valid_up_to())),
                }
            },
            None => Err(FromBytesWithNulError::not_nul_terminated(bytes.len())),
        }
    }

    /// Wraps a byte slice that the caller has already proved to be a valid
    /// ASCII C string; no check is made.
    pub fn from_bytes_with_nul_unchecked(bytes: &'a [u8]) -> (r: AsciiCStr<'a>)
        requires
            is_c_str_seq(bytes@),
        ensures
            r@ == bytes@,
    {
        AsciiCStr { bytes }
    }

    /// The contents without the trailing nul; a sub-view of the same
    /// storage.
    pub fn to_bytes(&self) -> (r: &'a [u8])
        ensures
            r@ == self@.drop_last(),
            is_ascii_seq(r@),
            forall|i: int| 0 <= i < r@.len() ==> r@[i] != 0,
    {
        proof {
            use_type_invariant(self);
        }
        let n = self.bytes.len();
        let r = vstd::slice::slice_subrange(self.bytes, 0, n - 1);
        proof {
            assert(r@ =~= self@.drop_last());
        }
        r
    }

    /// The contents including the trailing nul; the same storage.
    pub fn to_bytes_with_nul(&self) -> (r: &'a [u8])
        ensures
            r@ == self@,
            is_c_str_seq(r@),
    {
        proof {
            use_type_invariant(self);
        }
        self.bytes
    }

    /// The contents without the trailing nul, as a `&str` slice; the same
    /// storage, no copy.
    pub fn to_str(&self) -> (r: &'a str)
        ensures
            r@ == ascii_chars(self@.drop_last()),
    {
        self.to_ascii_str().as_str()
    }

    /// The contents without the trailing nul, as an `AsciiStr` view of the
    /// same storage.
    pub fn to_ascii_str(&self) -> (r: AsciiStr<'a>)
        ensures
            r@ == self@.drop_last(),
    {
        AsciiStr::from_ascii_unchecked(self.to_bytes())
    }

    /// The contents without the trailing nul, wrapped in double quotes and
    /// with control characters, quotes and backslashes escaped; what a debug
    /// rendering of the value shows.
    pub fn debug_string(&self) -> (r: String)
        ensures
            r@ == seq!['"'] + escaped_chars(self@.drop_last()) + seq!['"'],
    {
        let bytes = self.to_bytes();
        let n = bytes.len();
        let mut out = String::new();
        out.push('"');
        let mut i: usize = 0;
        while i < n
            invariant
                n == bytes@.len(),
                0 <= i <= n,
                out@ == seq!['"'] + escaped_chars(bytes@.take(i as int)),
            decreases n - i,
        {
            let b = *vstd::slice::slice_index_get(bytes, i);
            proof {
                lemma_escaped_chars_snoc(bytes@.take(i as int), b);
                assert(bytes@.take(i + 1) =~= bytes@.take(i as int).push(b));
            }
            if b == 0x09 {
                out.push('\\');
                out.push('t');
            } else if b == 0x0a {
                out.push('\\');
                out.push('n');
            } else if b == 0x0d {
                out.push('\\');
                out.push('r');
            } else if b == 0x5c {
                out.push('\\');
                out.push('\\');
            } else if b == 0x27 {
                out.push('\\');
                out.push('\'');
            } else if b == 0x22 {
                out.push('\\');
                out.push('"');
            } else if 0x20 <= b && b <= 0x7e {
                out.push(b as char);
            } else {
                out.push('\\');
                out.push('x');
                let hi = b >> 4;
                let lo = b & 0x0f;
                assert(b >> 4 < 16 && b & 0x0f < 16) by (bit_vector);
                let hi_d = if hi < 10 {
                    0x30 + hi
                } else {
                    0x57 + hi
                };
                let lo_d = if lo < 10 {
                    0x30 + lo
                } else {
                    0x57 + lo
                };
                out.push(hi_d as char);
                out.push(lo_d as char);
            }
            proof {
                assert(out@ =~= seq!['"'] + escaped_chars(bytes@.take(i as int)) + escape_byte(b));
                assert(out@ =~= seq!['"'] + escaped_chars(bytes@.take(i + 1)));
            }
            i = i + 1;
        }
        out.push('"');
        proof {
            assert(bytes@.take(n as int) =~= bytes@);
            assert(out@ =~= seq!['"'] + escaped_chars(self@.drop_last()) + seq!['"']);
        }
        out
    }

    /// The number of content bytes, the trailing nul not counted.
    pub fn len(&self) -> (n: usize)
        ensures
            n == self@.len() - 1,
    {
        proof {
            use_type_invariant(self);
        }
        self.bytes.len() - 1
    }

    /// Copies the contents, nul included, into an owned `AsciiCString`.
    pub fn to_ascii_c_string(&self) -> (r: AsciiCString)
        ensures
            r@ == self@,
    {
        proof {
            use_type_invariant(self);
        }
        let content = vstd::slice::slice_to_vec(self.to_bytes());
        let r = AsciiCString::from_vec(content);
        proof {
            assert(r@ =~= self@);
        }
        r
    }
}

impl<'a> Default for AsciiCStr<'a> {
    /// The empty ASCII C string: nothing but the terminator.
    fn default() -> (r: AsciiCStr<'a>)
        ensures
            r@ == seq![0u8],
    {
        broadcast use vstd::string::is_ascii_spec_bytes;

        let lit = "\0";
        proof {
            reveal_strlit("\0");
            assert(lit@ =~= seq!['\0']);
            assert(vstd::string::is_ascii(lit));
        }
        let bytes = lit.as_bytes();
        proof {
            assert(bytes@ =~= seq![0u8]);
        }
        AsciiCStr::from_bytes_with_nul_unchecked(bytes)
    }
}

/// The character spelling the hexadecimal digit `n`, for `n` below 16.
pub open spec fn hex_digit(n: u8) -> char {
    if n < 10 {
        ((0x30 + n) as u8) as char
    } else {
        ((0x57 + n) as u8) as char
    }
}

/// How one byte is written in a debug rendering: tab, line feed, carriage
/// return, backslash and both quotes get a backslash escape, other printable
/// characters stand for themselves, and the rest are written `\xNN`.
pub open spec fn escape_byte(b: u8) -> Seq<char> {
    if b == 0x09 {
        seq!['\\', 't']
    } else if b == 0x0a {
        seq!['\\', 'n']
    } else if b == 0x0d {
        seq!['\\', 'r']
    } else if b == 0x5c {
        seq!['\\', '\\']
    } else if b == 0x27 {
        seq!['\\', '\'']
    } else if b == 0x22 {
        seq!['\\', '"']
    } else if 0x20 <= b && b <= 0x7e {
        seq![b as char]
    } else {
        seq!['\\', 'x', hex_digit(b >> 4), hex_digit(b & 0x0f)]
    }
}

/// The debug rendering of a run of bytes: the escapes of its bytes, in
/// order.
pub open spec fn escaped_chars(s: Seq<u8>) -> Seq<char>
    decreases s.len(),
{
    if s.len() == 0 {
        Seq::empty()
    } else {
        escape_byte(s[0]) + escaped_chars(s.drop_first())
    }
}

/// Escaping one more byte appends its escape.
proof fn lemma_escaped_chars_snoc(s: Seq<u8>, b: u8)
    ensures
        escaped_chars(s.push(b)) == escaped_chars(s) + escape_byte(b),
    decreases s.len(),
{
    assert(s.push(b)[0] == if s.len() == 0 {
        b
    } else {
        s[0]
    });
    if s.len() == 0 {
        assert(s.push(b).drop_first() =~= Seq::<u8>::empty());
        assert(escaped_chars(Seq::<u8>::empty()) == Seq::<char>::empty());
        assert(escaped_chars(s.push(b)) == escape_byte(b) + escaped_chars(s.push(b).drop_first()));
        assert(escaped_chars(s.push(b)) =~= escape_byte(b));
        assert(escaped_chars(s) + escape_byte(b) =~= escape_byte(b));
    } else {
        assert(s.push(b).drop_first() =~= s.drop_first().push(b));
        lemma_escaped_chars_snoc(s.drop_first(), b);
        assert(escaped_chars(s.push(b)) =~= escaped_chars(s) + escape_byte(b));
    }
}

/// A possible error value when converting an `AsciiCString` from a byte
/// buffer: the underlying failure, and the buffer handed back untouched.
#[derive(Clone, Copy, PartialEq, Eq, Debug)]
pub struct AsciiNulError<O> {
    error: FromBytesWithNulError,
    owner: O,
}

impl<O> AsciiNulError<O> {
    /// The underlying failure.
    pub closed spec fn spec_error(self) -> FromBytesWithNulError {
        self.error
    }

    /// The buffer the conversion was attempted on.
    pub closed spec fn spec_owner(self) -> O {
        self.owner
    }

    /// Get the position and kind of the failure.
    pub fn ascii_error(&self) -> (r: FromBytesWithNulError)
        ensures
            r == self.spec_error(),
    {
        self.error
    }

    /// Get back the original, unmodified buffer.
    pub fn into_source(self) -> (r: O)
        ensures
            r == self.spec_owner(),
    {
        self.owner
    }

    pub(crate) fn new(error: FromBytesWithNulError, owner: O) -> (r: Self)
        ensures
            r.spec_error() == error,
            r.spec_owner() == owner,
    {
        AsciiNulError { error, owner }
    }
}

/// An owned C-compatible ASCII string: non-nul ASCII contents with one
/// terminating nul byte, in a buffer of its own.
#[derive(Debug, PartialEq, Eq, Hash, PartialOrd, Ord)]
pub struct AsciiCString {
    inner: Vec<u8>,
}

impl Clone for AsciiCString {
    /// A copy of the string with the same contents.
    fn clone(&self) -> (r: Self)
        ensures
            r@ == self@,
    {
        proof {
            use_type_invariant(self);
        }
        let inner = self.inner.clone();
        proof {
            assert(inner@ =~= self.inner@);
        }
        AsciiCString { inner }
    }
}

impl View for AsciiCString {
    type V = Seq<u8>;

    closed spec fn view(&self) -> Seq<u8> {
        self.inner@
    }
}

impl AsciiCString {
    #[verifier::type_invariant]
    spec fn wf(self) -> bool {
        is_c_str_seq(self.inner@)
    }

    /// Creates a C-compatible ASCII string from a byte buffer, appending the
    /// terminating nul. It fails when the buffer holds a nul byte or a byte
    /// outside the ASCII range; the error reports which and where, and hands
    /// the buffer back unchanged. The nul check comes first, so a nul byte
    /// is reported even when a non-ASCII byte is also present.
    pub fn new(bytes: Vec<u8>) -> (r: Result<Self, AsciiNulError<Vec<u8>>>)
        ensures
            r is Ok <==> (is_ascii_seq(bytes@) && forall|i: int|
                0 <= i < bytes@.len() ==> bytes@[i] != 0),
            r matches Ok(v) ==> v@ == bytes@.push(0),
            r matches Err(e) ==> (e.spec_error().spec_kind() == FromBytesWithNulErrorKind::InteriorNul
                <==> exists|i: int| 0 <= i < bytes@.len() && #[trigger] bytes@[i] == 0),
            r matches Err(e) ==> {
                &&& e.spec_owner()@ == bytes@
                &&& match e.spec_error().spec_kind() {
                    FromBytesWithNulErrorKind::InteriorNul => {
                        &&& 0 <= e.spec_error().spec_pos() < bytes@.len()
                        &&& bytes@[e.spec_error().spec_pos()] == 0
                        &&& forall|j: int| 0 <= j < e.spec_error().spec_pos() ==> bytes@[j] != 0
                    },
                    FromBytesWithNulErrorKind::NotAscii => {
                        &&& 0 <= e.spec_error().spec_pos() < bytes@.len()
                        &&& !is_ascii_byte(bytes@[e.spec_error().spec_pos()])
                        &&& forall|j: int| 0 <= j < e.spec_error().spec_pos() ==> is_ascii_byte(
                            #[trigger] bytes@[j],
                        )
                    },
                    FromBytesWithNulErrorKind::NotNulTerminated => false,
                }
            },
    {
        match find_byte(0, bytes.as_slice()) {
            Some(i) => Err(AsciiNulError::new(FromBytesWithNulError::interior_nul(i), bytes)),
            None => match AsciiStr::from_ascii(bytes.as_slice()) {
                Err(e) => Err(
                    AsciiNulError::new(FromBytesWithNulError::not_ascii(e.valid_up_to()), bytes),
                ),
                Ok(_) => Ok(Self::from_vec(bytes)),
            },
        }
    }

    /// Appends the terminating nul to a buffer already known to hold only
    /// non-nul ASCII bytes; no check is made.
    pub fn from_vec_unchecked(v: Vec<u8>) -> (r: Self)
        requires
            is_ascii_seq(v@),
            forall|i: int| 0 <= i < v@.len() ==> v@[i] != 0,
        ensures
            r@ == v@.push(0),
    {
        Self::from_vec(v)
    }

    fn from_vec(v: Vec<u8>) -> (r: Self)
        requires
            is_ascii_seq(v@),
            forall|i: int| 0 <= i < v@.len() ==> v@[i] != 0,
        ensures
            r@ == v@.push(0),
    {
        let mut v = v;
        v.push(0);
        AsciiCString { inner: v }
    }

    /// The owned contents without the trailing nul; the allocation is
    /// reused.
    pub fn into_bytes(self) -> (r: Vec<u8>)
        ensures
            r@ == self@.drop_last(),
            is_ascii_seq(r@),
    {
        proof {
            use_type_invariant(&self);
        }
        let ghost before = self@;
        let mut v = self.inner;
        let _popped = v.pop();
        proof {
            assert(v@ =~= before.drop_last());
        }
        v
    }

    /// The owned contents including the trailing nul; the allocation is
    /// reused.
    pub fn into_bytes_with_nul(self) -> (r: Vec<u8>)
        ensures
            r@ == self@,
            is_c_str_seq(r@),
    {
        proof {
            use_type_invariant(&self);
        }
        self.inner
    }

    /// The contents without the trailing nul, as a borrowed byte slice.
    pub fn as_bytes(&self) -> (r: &[u8])
        ensures
            r@ == self@.drop_last(),
            is_ascii_seq(r@),
    {
        self.as_ascii_c_str().to_bytes()
    }

    /// The contents including the trailing nul, as a borrowed byte slice.
    pub fn as_bytes_with_nul(&self) -> (r: &[u8])
        ensures
            r@ == self@,
            is_c_str_seq(r@),
    {
        proof {
            use_type_invariant(self);
        }
        self.inner.as_slice()
    }

    /// The contents without the trailing nul, as an owned `String`; the
    /// allocation is reused.
    pub fn into_string(self) -> (r: String)
        ensures
            r@ == ascii_chars(self@.drop_last()),
    {
        crate::ascii_string::bytes_into_string(self.into_bytes())
    }

    /// The contents without the trailing nul, as an `AsciiString`; the
    /// allocation is reused.
    pub fn into_ascii_string(self) -> (r: AsciiString)
        ensures
            r@ == self@.drop_last(),
    {
        AsciiString::from_ascii_unchecked(self.into_bytes())
    }

    /// The contents without the trailing nul, wrapped in double quotes and
    /// escaped; what a debug rendering of the value shows.
    pub fn debug_string(&self) -> (r: String)
        ensures
            r@ == seq!['"'] + escaped_chars(self@.drop_last()) + seq!['"'],
    {
        self.as_ascii_c_str().debug_string()
    }

    /// Borrows the whole string, nul included, as an `AsciiCStr`.
    pub fn as_ascii_c_str(&self) -> (r: AsciiCStr<'_>)
        ensures
            r@ == self@,
    {
        proof {
            use_type_invariant(self);
        }
        AsciiCStr::from_bytes_with_nul_unchecked(self.inner.as_slice())
    }
}

impl Default for AsciiCString {
    /// The empty ASCII C string: nothing but the terminator.
    fn default() -> (r: AsciiCString)
        ensures
            r@ == seq![0u8],
    {
        let r = AsciiCString::from_vec(Vec::new());
        proof {
            assert(r@ =~= seq![0u8]);
        }
        r
    }
}

} // verus!
