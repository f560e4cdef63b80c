//! The single-character type `AsciiChar` and the classic ctype-style
//! classification predicates, stated as spec functions over the stored byte.

use vstd::prelude::*;

verus! {

/// A byte lies in the ASCII range.
pub open spec fn is_ascii_byte(b: u8) -> bool {
    b <= 127
}

/// Letter, `a-z` or `A-Z`.
pub open spec fn spec_is_alphabetic(b: u8) -> bool {
    (0x41 <= b && b <= 0x5a) || (0x61 <= b && b <= 0x7a)
}

/// Decimal digit, `0-9`.
pub open spec fn spec_is_digit(b: u8) -> bool {
    0x30 <= b && b <= 0x39
}

/// Letter or decimal digit.
pub open spec fn spec_is_alphanumeric(b: u8) -> bool {
    spec_is_alphabetic(b) || spec_is_digit(b)
}

/// Space or horizontal tab.
pub open spec fn spec_is_blank(b: u8) -> bool {
    b == 0x20 || b == 0x09
}

/// Space, tab, line feed or carriage return.
pub open spec fn spec_is_whitespace(b: u8) -> bool {
    spec_is_blank(b) || b == 0x0a || b == 0x0d
}

/// Control character: below space, or delete.
pub open spec fn spec_is_control(b: u8) -> bool {
    b < 0x20 || b == 0x7f
}

/// Printable except space, `0x21..=0x7e`.
pub open spec fn spec_is_graph(b: u8) -> bool {
    0x21 <= b && b <= 0x7e
}

/// Printable including space, `0x20..=0x7e`.
pub open spec fn spec_is_print(b: u8) -> bool {
    0x20 <= b && b <= 0x7e
}

/// Lowercase letter, `a-z`.
pub open spec fn spec_is_lowercase(b: u8) -> bool {
    0x61 <= b && b <= 0x7a
}

/// Uppercase letter, `A-Z`.
pub open spec fn spec_is_uppercase(b: u8) -> bool {
    0x41 <= b && b <= 0x5a
}

/// Printable, except space, letters and digits.
pub open spec fn spec_is_punctuation(b: u8) -> bool {
    spec_is_graph(b) && !spec_is_alphanumeric(b)
}

/// Hexadecimal digit, `0-9`, `a-f` or `A-F`.
pub open spec fn spec_is_hex(b: u8) -> bool {
    spec_is_digit(b) || (0x61 <= (b | 0x20) && (b | 0x20) <= 0x66)
}

/// The uppercase counterpart of a byte: lowercase letters are mapped to
/// uppercase, everything else is unchanged.
pub open spec fn spec_to_upper(b: u8) -> u8 {
    if spec_is_lowercase(b) {
        (b - 0x20) as u8
    } else {
        b
    }
}

/// The lowercase counterpart of a byte: uppercase letters are mapped to
/// lowercase, everything else is unchanged.
pub open spec fn spec_to_lower(b: u8) -> u8 {
    if spec_is_uppercase(b) {
        (b + 0x20) as u8
    } else {
        b
    }
}

/// An ASCII character. It wraps a byte that is always in the range `0..=127`.
#[derive(Clone, Copy, PartialEq, Eq, Structural, Hash, Debug, PartialOrd, Ord)]
pub struct AsciiChar {
    byte: u8,
}

impl View for AsciiChar {
    type V = u8;

    closed spec fn view(&self) -> u8 {
        self.byte
    }
}

impl AsciiChar {
    #[verifier::type_invariant]
    spec fn in_range(self) -> bool {
        is_ascii_byte(self.byte)
    }

    /// Constructs an ASCII character from a `u8`, `char` or other character
    /// type, failing exactly when the value lies outside `0..=127`.
    pub fn from<C: ToAsciiChar>(ch: C) -> (r: Result<Self, ToAsciiCharError>)
        ensures
            r is Ok <==> ch.spec_codepoint() <= 127,
            r matches Ok(c) ==> c@ == ch.spec_codepoint(),
    {
        ch.to_ascii_char()
    }

    /// Constructs an ASCII character from a `char` or `u8` already known to be
    /// in range; the caller asserts the precondition, no check is made.
    pub fn from_unchecked<C: ToAsciiChar>(ch: C) -> (r: Self)
        requires
            ch.spec_codepoint() <= 127,
        ensures
            r@ == ch.spec_codepoint(),
    {
        ch.to_ascii_char_unchecked()
    }

    /// Converts an ASCII character into a `u8`; the result is always in the
    /// ASCII range.
    pub fn as_byte(&self) -> (b: u8)
        ensures
            b == self@,
            is_ascii_byte(b),
    {
        proof {
            use_type_invariant(self);
        }
        self.byte
    }

    /// Converts an ASCII character into a `char`.
    pub fn as_char(&self) -> (c: char)
        ensures
            c == self@ as char,
    {
        self.byte as char
    }

    /// Check if the character is a letter (a-z, A-Z).
    pub fn is_alphabetic(&self) -> (r: bool)
        ensures
            r == spec_is_alphabetic(self@),
    {
        let b = self.byte;
        let c = b | 0b010_0000;
        assert((c >= 0x61 && c <= 0x7a) == ((0x41 <= b && b <= 0x5a) || (0x61 <= b && b
            <= 0x7a))) by (bit_vector)
            requires
                c == b | 0b010_0000,
        ;
        c >= 0x61 && c <= 0x7a
    }

    /// Check if the character is a number (0-9).
    pub fn is_digit(&self) -> (r: bool)
        ensures
            r == spec_is_digit(self@),
    {
        self.byte >= 0x30 && self.byte <= 0x39
    }

    /// Check if the character is a letter or number.
    pub fn is_alphanumeric(&self) -> (r: bool)
        ensures
            r == spec_is_alphanumeric(self@),
    {
        self.is_alphabetic() || self.is_digit()
    }

    /// Check if the character is a space or horizontal tab.
    pub fn is_blank(&self) -> (r: bool)
        ensures
            r == spec_is_blank(self@),
    {
        self.byte == 0x20 || self.byte == 0x09
    }

    /// Check if the character is a space, tab, line feed or carriage return.
    pub fn is_whitespace(&self) -> (r: bool)
        ensures
            r == spec_is_whitespace(self@),
    {
        self.is_blank() || self.byte == 0x0a || self.byte == 0x0d
    }

    /// Check if the character is a control character.
    pub fn is_control(&self) -> (r: bool)
        ensures
            r == spec_is_control(self@),
    {
        self.byte < 0x20 || self.byte == 0x7f
    }

    /// Checks if the character is printable (except space).
    pub fn is_graph(&self) -> (r: bool)
        ensures
            r == spec_is_graph(self@),
    {
        self.byte.wrapping_sub(0x21) < 0x5e
    }

    /// Checks if the character is printable (including space).
    pub fn is_print(&self) -> (r: bool)
        ensures
            r == spec_is_print(self@),
    {
        self.byte.wrapping_sub(0x20) < 0x5f
    }

    /// Checks if the character is alphabetic and lowercase.
    pub fn is_lowercase(&self) -> (r: bool)
        ensures
            r == spec_is_lowercase(self@),
    {
        self.byte.wrapping_sub(0x61) < 26
    }

    /// Checks if the character is alphabetic and uppercase.
    pub fn is_uppercase(&self) -> (r: bool)
        ensures
            r == spec_is_uppercase(self@),
    {
        self.byte.wrapping_sub(0x41) < 26
    }

    /// Checks if the character is punctuation.
    pub fn is_punctuation(&self) -> (r: bool)
        ensures
            r == spec_is_punctuation(self@),
    {
        self.is_graph() && !self.is_alphanumeric()
    }

    /// Checks if the character is a valid hex digit.
    pub fn is_hex(&self) -> (r: bool)
        ensures
            r == spec_is_hex(self@),
    {
        self.is_digit() || (self.byte | 0x20).wrapping_sub(0x61) < 6
    }

    /// Maps lowercase letters to their uppercase equivalent and leaves every
    /// other character unchanged.
    pub fn to_ascii_uppercase(&self) -> (r: Self)
        ensures
            r@ == spec_to_upper(self@),
    {
        proof {
            use_type_invariant(self);
        }
        let b = self.byte;
        if self.is_lowercase() {
            assert(b ^ 0x20 == b - 0x20) by (bit_vector)
                requires
                    0x61 <= b && b <= 0x7a,
            ;
            AsciiChar { byte: b ^ 0x20 }
        } else {
            *self
        }
    }

    /// Maps uppercase letters to their lowercase equivalent and leaves every
    /// other character unchanged.
    pub fn to_ascii_lowercase(&self) -> (r: Self)
        ensures
            r@ == spec_to_lower(self@),
    {
        proof {
            use_type_invariant(self);
        }
        let b = self.byte;
        if self.is_uppercase() {
            assert(b ^ 0x20 == b + 0x20) by (bit_vector)
                requires
                    0x41 <= b && b <= 0x5a,
            ;
            AsciiChar { byte: b ^ 0x20 }
        } else {
            *self
        }
    }

    /// The character as an owned one-character `String`; what a display of
    /// the value shows.
    pub fn to_string(&self) -> (r: String)
        ensures
            r@ == seq![self@ as char],
    {
        let mut out = String::new();
        out.push(self.as_char());
        proof {
            assert(out@ =~= seq![self@ as char]);
        }
        out
    }

    /// The character wrapped in single quotes; what a debug rendering of the
    /// value shows.
    pub fn debug_string(&self) -> (r: String)
        ensures
            r@ == seq!['\'', self@ as char, '\''],
    {
        let mut out = String::new();
        out.push('\'');
        out.push(self.as_char());
        out.push('\'');
        proof {
            assert(out@ =~= seq!['\'', self@ as char, '\'']);
        }
        out
    }

    /// Compares two characters while ignoring the case of letters.
    pub fn eq_ignore_ascii_case(&self, other: &Self) -> (r: bool)
        ensures
            r == (spec_to_lower(self@) == spec_to_lower(other@)),
    {
        self.to_ascii_lowercase().byte == other.to_ascii_lowercase().byte
    }
}

/// Uppercasing is idempotent: applying it twice gives the same byte as
/// applying it once. The same holds for lowercasing.
pub proof fn lemma_case_idempotent(b: u8)
    ensures
        spec_to_upper(spec_to_upper(b)) == spec_to_upper(b),
        spec_to_lower(spec_to_lower(b)) == spec_to_lower(b),
{
}

/// Error returned by `ToAsciiChar`: the value lay outside the ASCII range.
#[derive(Clone, Copy, PartialEq, Eq, Debug)]
pub struct ToAsciiCharError {
    marker: (),
}

impl ToAsciiCharError {
    /// A short description of the failure.
    pub fn description(&self) -> (r: &'static str)
        ensures
            r@ == "not an ASCII character"@,
    {
        "not an ASCII character"
    }

    pub(crate) fn new() -> (r: Self) {
        ToAsciiCharError { marker: () }
    }
}

/// Convert `char`, `u8` and other character types to `AsciiChar`.
pub trait ToAsciiChar: Sized {
    /// The numeric code point of the value, the quantity the ASCII range
    /// check is made on.
    spec fn spec_codepoint(self) -> u32;

    /// Convert to `AsciiChar`, failing exactly when the code point lies
    /// outside `0..=127`.
    fn to_ascii_char(self) -> (r: Result<AsciiChar, ToAsciiCharError>)
        ensures
            r is Ok <==> self.spec_codepoint() <= 127,
            r matches Ok(c) ==> c@ == self.spec_codepoint(),
    ;

    /// Convert to `AsciiChar` without a range check; the caller asserts that
    /// the code point is in range.
    fn to_ascii_char_unchecked(self) -> (r: AsciiChar)
        requires
            self.spec_codepoint() <= 127,
        ensures
            r@ == self.spec_codepoint(),
    ;
}

impl ToAsciiChar for AsciiChar {
    open spec fn spec_codepoint(self) -> u32 {
        self@ as u32
    }

    fn to_ascii_char(self) -> (r: Result<AsciiChar, ToAsciiCharError>) {
        proof {
            use_type_invariant(self);
        }
        Ok(self)
    }

    fn to_ascii_char_unchecked(self) -> (r: AsciiChar) {
        self
    }
}

impl ToAsciiChar for u8 {
    open spec fn spec_codepoint(self) -> u32 {
        self as u32
    }

    fn to_ascii_char(self) -> (r: Result<AsciiChar, ToAsciiCharError>) {
        if self <= 0x7f {
            Ok(AsciiChar { byte: self })
        } else {
            Err(ToAsciiCharError::new())
        }
    }

    fn to_ascii_char_unchecked(self) -> (r: AsciiChar) {
        AsciiChar { byte: self }
    }
}

impl ToAsciiChar for char {
    open spec fn spec_codepoint(self) -> u32 {
        self as u32
    }

    fn to_ascii_char(self) -> (r: Result<AsciiChar, ToAsciiCharError>) {
        let code = self as u32;
        if code <= 0x7f {
            Ok(AsciiChar { byte: code as u8 })
        } else {
            Err(ToAsciiCharError::new())
        }
    }

    fn to_ascii_char_unchecked(self) -> (r: AsciiChar) {
        let code = self as u32;
        AsciiChar { byte: code as u8 }
    }
}

} // verus!
