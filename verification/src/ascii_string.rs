//! `AsciiString`: the owned, growable counterpart of `AsciiStr`.
//!
//! The buffer holds the validated bytes directly, so a checked conversion
//! from an owned byte vector takes ownership of the existing allocation
//! without copying, and the reverse conversion to bytes is free. Every
//! mutation either appends characters that are valid by construction or
//! shrinks the buffer, so the ASCII invariant can never be lost.

use vstd::prelude::*;
use vstd::pervasive::VecAdditionalExecFns;
use vstd::string::StringExecFns;

use crate::ascii_char::{spec_to_lower, spec_to_upper, AsciiChar};
use crate::ascii_str::{
    ascii_chars, bytes_as_str, is_ascii_seq, lower_seq, upper_seq, AsAsciiStrError, AsciiStr,
};

verus! {

/// A growable string stored as an ASCII encoded byte buffer.
#[derive(Debug, PartialEq, Eq, Hash, PartialOrd, Ord)]
pub struct AsciiString {
    vec: Vec<u8>,
}

impl Clone for AsciiString {
    /// A copy of the buffer with the same contents.
    fn clone(&self) -> (r: Self)
        ensures
            r@ == self@,
    {
        proof {
            use_type_invariant(self);
        }
        let vec = self.vec.clone();
        proof {
            assert(vec@ =~= self.vec@);
        }
        AsciiString { vec }
    }
}

impl View for AsciiString {
    type V = Seq<u8>;

    closed spec fn view(&self) -> Seq<u8> {
        self.vec@
    }
}

impl AsciiString {
    #[verifier::type_invariant]
    spec fn wf(self) -> bool {
        is_ascii_seq(self.vec@)
    }

    /// Creates a new, empty ASCII string buffer without allocating.
    pub fn new() -> (r: Self)
        ensures
            r@ == Seq::<u8>::empty(),
    {
        AsciiString { vec: Vec::new() }
    }

    /// Creates a new, empty ASCII string buffer able to hold `capacity`
    /// bytes before reallocating.
    pub fn with_capacity(capacity: usize) -> (r: Self)
        ensures
            r@ == Seq::<u8>::empty(),
    {
        AsciiString { vec: Vec::with_capacity(capacity) }
    }

    /// Converts an owned byte buffer into an `AsciiString`, succeeding
    /// exactly when every byte lies in the ASCII range. On success the
    /// existing allocation is taken over without copying; on failure the
    /// buffer is handed back unchanged.
    pub fn from_ascii(bytes: Vec<u8>) -> (r: Result<AsciiString, Vec<u8>>)
        ensures
            r is Ok <==> is_ascii_seq(bytes@),
            r matches Ok(v) ==> v@ == bytes@,
            r matches Err(b) ==> b@ == bytes@,
    {
        if all_ascii(bytes.as_slice()) {
            Ok(AsciiString { vec: bytes })
        } else {
            Err(bytes)
        }
    }

    /// Wraps an owned byte buffer that the caller has already proved to be
    /// ASCII; no scan is made and the allocation is reused.
    pub fn from_ascii_unchecked(bytes: Vec<u8>) -> (r: AsciiString)
        requires
            is_ascii_seq(bytes@),
        ensures
            r@ == bytes@,
    {
        AsciiString { vec: bytes }
    }

    /// Builds an `AsciiString` from a vector of characters.
    pub fn from_chars(chars: Vec<AsciiChar>) -> (r: AsciiString)
        ensures
            r@.len() == chars@.len(),
            forall|i: int| 0 <= i < chars@.len() ==> r@[i] == chars@[i]@,
            is_ascii_seq(r@),
    {
        let n = chars.len();
        let mut vec: Vec<u8> = Vec::with_capacity(n);
        let mut i: usize = 0;
        while i < n
            invariant
                n == chars@.len(),
                0 <= i <= n,
                vec@.len() == i,
                forall|j: int| 0 <= j < i ==> vec@[j] == chars@[j]@ && vec@[j] <= 127,
            decreases n - i,
        {
            let c = chars[i];
            vec.push(c.as_byte());
            i = i + 1;
        }
        AsciiString { vec }
    }

    /// Borrows the buffer as an `AsciiStr` view; no copy is made.
    pub fn as_ascii_str(&self) -> (r: AsciiStr<'_>)
        ensures
            r@ == self@,
    {
        proof {
            use_type_invariant(self);
        }
        AsciiStr::from_ascii_unchecked(self.vec.as_slice())
    }

    /// Views the buffer as a byte slice; no copy is made.
    pub fn as_bytes(&self) -> (r: &[u8])
        ensures
            r@ == self@,
            is_ascii_seq(r@),
    {
        proof {
            use_type_invariant(self);
        }
        self.vec.as_slice()
    }

    /// Views the buffer as a `&str` slice spelling the same characters; the
    /// same storage, no copy.
    pub fn as_str(&self) -> (r: &str)
        ensures
            r@ == ascii_chars(self@),
    {
        proof {
            use_type_invariant(self);
        }
        bytes_as_str(self.vec.as_slice())
    }

    /// The characters of the buffer as an owned `String`; what a display of
    /// the value shows.
    pub fn to_string(&self) -> (r: String)
        ensures
            r@ == ascii_chars(self@),
    {
        String::from_str(self.as_str())
    }

    /// The characters of the buffer wrapped in double quotes; what a debug
    /// rendering of the value shows.
    pub fn debug_string(&self) -> (r: String)
        ensures
            r@ == seq!['"'] + ascii_chars(self@) + seq!['"'],
    {
        self.as_ascii_str().debug_string()
    }

    /// Returns the owned byte buffer; the allocation is reused, not copied.
    pub fn into_bytes(self) -> (r: Vec<u8>)
        ensures
            r@ == self@,
            is_ascii_seq(r@),
    {
        proof {
            use_type_invariant(&self);
        }
        self.vec
    }

    /// Converts into an owned `String` spelling the same characters; the
    /// allocation is reused, not copied.
    pub fn into_string(self) -> (r: String)
        ensures
            r@ == ascii_chars(self@),
    {
        bytes_into_string(self.into_bytes())
    }

    /// Pushes the given ASCII string slice onto the end of this buffer.
    pub fn push_str(&mut self, string: AsciiStr<'_>)
        ensures
            final(self)@ == old(self)@ + string@,
    {
        proof {
            use_type_invariant(&*self);
        }
        let mut vec: Vec<u8> = Vec::new();
        core::mem::swap(&mut vec, &mut self.vec);
        vec.extend_from_slice(string.as_bytes());
        proof {
            assert(vec@ =~= old(self)@ + string@);
        }
        self.vec = vec;
    }

    /// Concatenation in consuming form: appends the view and returns the
    /// buffer.
    pub fn concat(self, other: AsciiStr<'_>) -> (r: AsciiString)
        ensures
            r@ == self@ + other@,
    {
        let mut buf = self;
        buf.push_str(other);
        buf
    }

    /// The number of bytes this buffer can hold without reallocating.
    ///
    /// Relies on `Vec::capacity`: the capacity is never below the length.
    #[verifier::external_body]
    pub fn capacity(&self) -> (r: usize)
        ensures
            r >= self@.len(),
    {
        self.vec.capacity()
    }

    /// Reserves capacity for at least `additional` more bytes; the contents
    /// are unchanged.
    pub fn reserve(&mut self, additional: usize)
        ensures
            final(self)@ == old(self)@,
    {
        proof {
            use_type_invariant(&*self);
        }
        let mut vec: Vec<u8> = Vec::new();
        core::mem::swap(&mut vec, &mut self.vec);
        vec.reserve(additional);
        self.vec = vec;
    }

    /// Reserves capacity for exactly `additional` more bytes; the contents
    /// are unchanged.
    ///
    /// Relies on `Vec::reserve_exact`: the contents are not touched.
    #[verifier::external_body]
    pub fn reserve_exact(&mut self, additional: usize)
        ensures
            final(self)@ == old(self)@,
    {
        self.vec.reserve_exact(additional)
    }

    /// Shrinks the capacity of the buffer towards its length; the contents
    /// are unchanged.
    ///
    /// Relies on `Vec::shrink_to_fit`: the contents are not touched.
    #[verifier::external_body]
    pub fn shrink_to_fit(&mut self)
        ensures
            final(self)@ == old(self)@,
    {
        self.vec.shrink_to_fit()
    }

    /// Adds the given ASCII character to the end of the string.
    pub fn push(&mut self, ch: AsciiChar)
        ensures
            final(self)@ == old(self)@.push(ch@),
    {
        proof {
            use_type_invariant(&*self);
        }
        let mut vec: Vec<u8> = Vec::new();
        core::mem::swap(&mut vec, &mut self.vec);
        vec.push(ch.as_byte());
        self.vec = vec;
    }

    /// Shortens the string to `new_len` characters; the tail is dropped and
    /// the capacity is kept. The new length must not exceed the current one.
    pub fn truncate(&mut self, new_len: usize)
        requires
            new_len <= old(self)@.len(),
        ensures
            final(self)@ == old(self)@.take(new_len as int),
    {
        proof {
            use_type_invariant(&*self);
        }
        let mut vec: Vec<u8> = Vec::new();
        core::mem::swap(&mut vec, &mut self.vec);
        vec.truncate(new_len);
        self.vec = vec;
    }

    /// Removes the last character and returns it, or `None` if the buffer is
    /// empty.
    pub fn pop(&mut self) -> (r: Option<AsciiChar>)
        ensures
            old(self)@.len() == 0 ==> (r is None && final(self)@ == old(self)@),
            old(self)@.len() > 0 ==> {
                &&& (r matches Some(c) && c@ == old(self)@.last())
                &&& final(self)@ == old(self)@.drop_last()
            },
    {
        proof {
            use_type_invariant(&*self);
        }
        let mut vec: Vec<u8> = Vec::new();
        core::mem::swap(&mut vec, &mut self.vec);
        let popped = vec.pop();
        let r = match popped {
            Some(b) => {
                proof {
                    assert(old(self)@.drop_last() =~= old(self)@.subrange(
                        0,
                        old(self)@.len() - 1,
                    ));
                }
                Some(AsciiChar::from_unchecked(b))
            },
            None => None,
        };
        self.vec = vec;
        r
    }

    /// Removes the character at position `idx` and returns it, shifting the
    /// rest to the left. The index must be in bounds.
    pub fn remove(&mut self, idx: usize) -> (r: AsciiChar)
        requires
            idx < old(self)@.len(),
        ensures
            r@ == old(self)@[idx as int],
            final(self)@ == old(self)@.remove(idx as int),
    {
        proof {
            use_type_invariant(&*self);
        }
        let mut vec: Vec<u8> = Vec::new();
        core::mem::swap(&mut vec, &mut self.vec);
        let b = vec.remove(idx);
        self.vec = vec;
        AsciiChar::from_unchecked(b)
    }

    /// Inserts an ASCII character at position `idx`, shifting the rest to
    /// the right. The index must not exceed the length.
    pub fn insert(&mut self, idx: usize, ch: AsciiChar)
        requires
            idx <= old(self)@.len(),
        ensures
            final(self)@ == old(self)@.insert(idx as int, ch@),
    {
        proof {
            use_type_invariant(&*self);
        }
        let mut vec: Vec<u8> = Vec::new();
        core::mem::swap(&mut vec, &mut self.vec);
        vec.insert(idx, ch.as_byte());
        self.vec = vec;
    }

    /// Returns the number of characters in this string.
    pub fn len(&self) -> (n: usize)
        ensures
            n == self@.len(),
    {
        self.vec.len()
    }

    /// Returns true if the string holds no characters.
    pub fn is_empty(&self) -> (r: bool)
        ensures
            r == (self@.len() == 0),
    {
        self.vec.len() == 0
    }

    /// Sets the length to zero; the capacity is kept.
    pub fn clear(&mut self)
        ensures
            final(self)@ == Seq::<u8>::empty(),
    {
        let mut vec: Vec<u8> = Vec::new();
        core::mem::swap(&mut vec, &mut self.vec);
        vec.clear();
        self.vec = vec;
    }

    /// Replaces every lowercase letter with its uppercase equivalent, in
    /// place.
    pub fn make_ascii_uppercase(&mut self)
        ensures
            final(self)@ == upper_seq(old(self)@),
    {
        proof {
            use_type_invariant(&*self);
        }
        let mut vec: Vec<u8> = Vec::new();
        core::mem::swap(&mut vec, &mut self.vec);
        let n = vec.len();
        let mut i: usize = 0;
        while i < n
            invariant
                n == vec@.len(),
                0 <= i <= n,
                vec@.len() == old(self)@.len(),
                forall|j: int| 0 <= j < i ==> vec@[j] == spec_to_upper(old(self)@[j]),
                forall|j: int| i <= j < n ==> vec@[j] == old(self)@[j],
                is_ascii_seq(old(self)@),
            decreases n - i,
        {
            let b = vec[i];
            let c = AsciiChar::from_unchecked(b);
            vec.set(i, c.to_ascii_uppercase().as_byte());
            i = i + 1;
        }
        proof {
            assert(vec@ =~= upper_seq(old(self)@));
        }
        self.vec = vec;
    }

    /// Replaces every uppercase letter with its lowercase equivalent, in
    /// place.
    pub fn make_ascii_lowercase(&mut self)
        ensures
            final(self)@ == lower_seq(old(self)@),
    {
        proof {
            use_type_invariant(&*self);
        }
        let mut vec: Vec<u8> = Vec::new();
        core::mem::swap(&mut vec, &mut self.vec);
        let n = vec.len();
        let mut i: usize = 0;
        while i < n
            invariant
                n == vec@.len(),
                0 <= i <= n,
                vec@.len() == old(self)@.len(),
                forall|j: int| 0 <= j < i ==> vec@[j] == spec_to_lower(old(self)@[j]),
                forall|j: int| i <= j < n ==> vec@[j] == old(self)@[j],
                is_ascii_seq(old(self)@),
            decreases n - i,
        {
            let b = vec[i];
            let c = AsciiChar::from_unchecked(b);
            vec.set(i, c.to_ascii_lowercase().as_byte());
            i = i + 1;
        }
        proof {
            assert(vec@ =~= lower_seq(old(self)@));
        }
        self.vec = vec;
    }
}

impl Default for AsciiString {
    /// Creates an empty `AsciiString`.
    fn default() -> (r: Self)
        ensures
            r@ == Seq::<u8>::empty(),
    {
        AsciiString::new()
    }
}

/// Relies on `String::into_bytes`: hands out the string's UTF-8 encoded
/// bytes, reusing the allocation.
pub assume_specification[ String::into_bytes ](s: String) -> (r: Vec<u8>)
    ensures
        r@ == vstd::utf8::encode_utf8(s@),
;

/// Relies on `String::from_utf8`: bytes in the ASCII range are valid UTF-8
/// and decode to themselves, one character per byte; the allocation is
/// reused, nothing is copied.
#[verifier::external_body]
pub(crate) fn bytes_into_string(bytes: Vec<u8>) -> (r: String)
    requires
        is_ascii_seq(bytes@),
    ensures
        r@ == ascii_chars(bytes@),
{
    String::from_utf8(bytes).unwrap()
}

/// Convert owned buffers into `AsciiString`.
pub trait IntoAsciiString: Sized {
    /// The bytes the conversion validates and, on success, takes over.
    spec fn ascii_source(self) -> Seq<u8>;

    /// Convert to `AsciiString`, succeeding exactly when every byte of the
    /// source lies in the ASCII range; on failure the buffer is handed back
    /// with its contents untouched.
    fn into_ascii_string(self) -> (r: Result<AsciiString, Self>)
        ensures
            r is Ok <==> is_ascii_seq(self.ascii_source()),
            r matches Ok(v) ==> v@ == self.ascii_source(),
            r matches Err(b) ==> b.ascii_source() == self.ascii_source(),
    ;

    /// Convert to `AsciiString` without a scan; the caller asserts that the
    /// source is ASCII.
    fn into_ascii_string_unchecked(self) -> (r: AsciiString)
        requires
            is_ascii_seq(self.ascii_source()),
        ensures
            r@ == self.ascii_source(),
    ;
}

impl IntoAsciiString for AsciiString {
    open spec fn ascii_source(self) -> Seq<u8> {
        self@
    }

    fn into_ascii_string(self) -> (r: Result<AsciiString, Self>) {
        proof {
            use_type_invariant(&self);
        }
        Ok(self)
    }

    fn into_ascii_string_unchecked(self) -> (r: AsciiString) {
        self
    }
}

impl IntoAsciiString for Vec<u8> {
    open spec fn ascii_source(self) -> Seq<u8> {
        self@
    }

    fn into_ascii_string(self) -> (r: Result<AsciiString, Self>) {
        AsciiString::from_ascii(self)
    }

    fn into_ascii_string_unchecked(self) -> (r: AsciiString) {
        AsciiString::from_ascii_unchecked(self)
    }
}

impl IntoAsciiString for Vec<AsciiChar> {
    open spec fn ascii_source(self) -> Seq<u8> {
        Seq::new(self@.len(), |i: int| self@[i]@)
    }

    fn into_ascii_string(self) -> (r: Result<AsciiString, Self>) {
        let ghost source = self.ascii_source();
        let r = AsciiString::from_chars(self);
        proof {
            assert(r@ =~= source);
        }
        Ok(r)
    }

    fn into_ascii_string_unchecked(self) -> (r: AsciiString) {
        let ghost source = self.ascii_source();
        let r = AsciiString::from_chars(self);
        proof {
            assert(r@ =~= source);
        }
        r
    }
}

impl IntoAsciiString for String {
    open spec fn ascii_source(self) -> Seq<u8> {
        vstd::utf8::encode_utf8(self@)
    }

    fn into_ascii_string(self) -> (r: Result<AsciiString, Self>) {
        let valid = match AsciiStr::from_text(self.as_str()) {
            Ok(_) => true,
            Err(_) => false,
        };
        if valid {
            Ok(AsciiString::from_ascii_unchecked(self.into_bytes()))
        } else {
            Err(self)
        }
    }

    fn into_ascii_string_unchecked(self) -> (r: AsciiString) {
        AsciiString::from_ascii_unchecked(self.into_bytes())
    }
}

impl core::str::FromStr for AsciiString {
    type Err = AsAsciiStrError;

    /// Copies a string slice into an `AsciiString`, failing at the first
    /// byte outside the ASCII range.
    fn from_str(s: &str) -> Result<AsciiString, AsAsciiStrError> {
        match AsciiStr::from_text(s) {
            Ok(v) => Ok(v.to_ascii_string()),
            Err(e) => Err(e),
        }
    }
}

/// Inserting a character and removing it again at the same index leaves any
/// sequence unchanged.
pub proof fn lemma_insert_remove(s: Seq<u8>, i: int, c: u8)
    requires
        0 <= i <= s.len(),
    ensures
        s.insert(i, c).remove(i) == s,
{
    assert(s.insert(i, c).remove(i) =~= s);
}

/// Whether every byte of a slice lies in the ASCII range.
fn all_ascii(bytes: &[u8]) -> (r: bool)
    ensures
        r == is_ascii_seq(bytes@),
{
    let n = bytes.len();
    let mut i: usize = 0;
    while i < n
        invariant
            n == bytes@.len(),
            0 <= i <= n,
            forall|j: int| 0 <= j < i ==> crate::ascii_char::is_ascii_byte(#[trigger] bytes@[j]),
        decreases n - i,
    {
        if *vstd::slice::slice_index_get(bytes, i) > 127 {
            return false;
        }
        i = i + 1;
    }
    true
}

} // verus!
