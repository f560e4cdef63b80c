//! The original single-character type `Ascii`, kept alongside `AsciiChar`
//! for callers of the older interface. It wraps a byte that is always in the
//! ASCII range and offers the same classification predicates.

use vstd::prelude::*;

use crate::ascii_char::{
    is_ascii_byte, spec_is_alphabetic, spec_is_alphanumeric, spec_is_blank, spec_is_control,
    spec_is_digit, spec_is_graph, spec_is_hex, spec_is_lowercase, spec_is_print,
    spec_is_punctuation, spec_is_uppercase,
};

verus! {

/// Datatype to hold one ASCII character. It wraps a `u8` that is always in
/// the range `0..=127`.
#[derive(Clone, Copy, PartialEq, Eq, Structural, Hash, Debug, PartialOrd, Ord)]
pub struct Ascii {
    chr: u8,
}

impl View for Ascii {
    type V = u8;

    closed spec fn view(&self) -> u8 {
        self.chr
    }
}

impl Ascii {
    #[verifier::type_invariant]
    spec fn in_range(self) -> bool {
        is_ascii_byte(self.chr)
    }

    /// Constructs an `Ascii` character from a `char`, failing exactly when
    /// the character's code point lies outside `0..=127`.
    pub fn from(ch: char) -> (r: Result<Ascii, ()>)
        ensures
            r is Ok <==> ch as u32 <= 127,
            r matches Ok(a) ==> a@ == ch as u32,
    {
        let code = ch as u32;
        if code <= 0x7f {
            Ok(Ascii { chr: code as u8 })
        } else {
            Err(())
        }
    }

    /// Constructs an `Ascii` character from a `u8`, failing exactly when the
    /// byte lies outside `0..=127`.
    pub fn from_byte(ch: u8) -> (r: Result<Ascii, ()>)
        ensures
            r is Ok <==> ch <= 127,
            r matches Ok(a) ==> a@ == ch,
    {
        if ch <= 0x7f {
            Ok(Ascii { chr: ch })
        } else {
            Err(())
        }
    }

    /// Converts an ASCII character into a `u8`.
    pub fn as_byte(&self) -> (b: u8)
        ensures
            b == self@,
    {
        self.chr
    }

    /// Converts an ASCII character into a `char`.
    pub fn as_char(&self) -> (c: char)
        ensures
            c == self@ as char,
    {
        self.chr as char
    }

    /// Check if the character is a letter (a-z, A-Z).
    pub fn is_alphabetic(&self) -> (r: bool)
        ensures
            r == spec_is_alphabetic(self@),
    {
        (self.chr >= 0x41 && self.chr <= 0x5a) || (self.chr >= 0x61 && self.chr <= 0x7a)
    }

    /// Check if the character is a number (0-9).
    pub fn is_digit(&self) -> (r: bool)
        ensures
            r == spec_is_digit(self@),
    {
        self.chr >= 0x30 && self.chr <= 0x39
    }

    /// Check if the character is a letter or number.
    pub fn is_alphanumeric(&self) -> (r: bool)
        ensures
            r == spec_is_alphanumeric(self@),
    {
        self.is_alphabetic() || self.is_digit()
    }

    /// Check if the character is a space or horizontal tab.
    pub fn is_blank(&self) -> (r: bool)
        ensures
            r == spec_is_blank(self@),
    {
        self.chr == 0x20 || self.chr == 0x09
    }

    /// Check if the character is a control character.
    pub fn is_control(&self) -> (r: bool)
        ensures
            r == spec_is_control(self@),
    {
        self.chr < 0x20 || self.chr == 0x7f
    }

    /// Checks if the character is printable (except space).
    pub fn is_graph(&self) -> (r: bool)
        ensures
            r == spec_is_graph(self@),
    {
        self.chr.wrapping_sub(0x21) < 0x5e
    }

    /// Checks if the character is printable (including space).
    pub fn is_print(&self) -> (r: bool)
        ensures
            r == spec_is_print(self@),
    {
        self.chr.wrapping_sub(0x20) < 0x5f
    }

    /// Checks if the character is alphabetic and lowercase.
    pub fn is_lowercase(&self) -> (r: bool)
        ensures
            r == spec_is_lowercase(self@),
    {
        self.chr.wrapping_sub(0x61) < 26
    }

    /// Checks if the character is alphabetic and uppercase.
    pub fn is_uppercase(&self) -> (r: bool)
        ensures
            r == spec_is_uppercase(self@),
    {
        self.chr.wrapping_sub(0x41) < 26
    }

    /// Checks if the character is punctuation.
    pub fn is_punctuation(&self) -> (r: bool)
        ensures
            r == spec_is_punctuation(self@),
    {
        self.is_graph() && !self.is_alphanumeric()
    }

    /// Checks if the character is a valid hex digit.
    pub fn is_hex(&self) -> (r: bool)
        ensures
            r == spec_is_hex(self@),
    {
        self.is_digit() || (self.chr | 0x20).wrapping_sub(0x61) < 6
    }

    /// The character as an owned one-character `String`; what a display of
    /// the value shows.
    pub fn to_string(&self) -> (r: String)
        ensures
            r@ == seq![self@ as char],
    {
        let mut out = String::new();
        out.push(self.as_char());
        proof {
            assert(out@ =~= seq![self@ as char]);
        }
        out
    }

    /// The character wrapped in single quotes; what a debug rendering of the
    /// value shows.
    pub fn debug_string(&self) -> (r: String)
        ensures
            r@ == seq!['\'', self@ as char, '\''],
    {
        let mut out = String::new();
        out.push('\'');
        out.push(self.as_char());
        out.push('\'');
        proof {
            assert(out@ =~= seq!['\'', self@ as char, '\'']);
        }
        out
    }
}

} // verus!
