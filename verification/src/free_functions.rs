//! Caret notation: a reversible textual escaping of ASCII strings.
//!
//! The scheme used here: a control character `c` (below space, or delete)
//! is written as a caret followed by `c` with its 0x40 bit flipped, which is
//! a printable character; a literal caret is written as a caret followed by
//! an exclamation mark; every other character stands for itself. Decoding
//! inverts this exactly, so decoding the encoding of any ASCII string gives
//! that string back.

use vstd::prelude::*;

use crate::ascii_char::{is_ascii_byte, spec_is_control};
use crate::ascii_str::{is_ascii_seq, AsciiStr};
use crate::ascii_string::AsciiString;

verus! {

/// The caret character.
pub open spec fn caret() -> u8 {
    0x5e
}

/// The escape written for one character.
pub open spec fn caret_unit(b: u8) -> Seq<u8> {
    if spec_is_control(b) {
        seq![caret(), b ^ 0x40]
    } else if b == caret() {
        seq![caret(), 0x21]
    } else {
        seq![b]
    }
}

/// The caret encoding of a sequence: the escapes of its characters, in
/// order.
pub open spec fn caret_encode_seq(s: Seq<u8>) -> Seq<u8>
    decreases s.len(),
{
    if s.len() == 0 {
        Seq::empty()
    } else {
        caret_unit(s[0]) + caret_encode_seq(s.drop_first())
    }
}

/// The caret decoding of a sequence: carets introduce a two-character
/// escape, everything else stands for itself. `None` when a caret is not
/// followed by a valid escape character, or stands at the end.
pub open spec fn caret_decode_seq(s: Seq<u8>) -> Option<Seq<u8>>
    decreases s.len(),
{
    if s.len() == 0 {
        Some(Seq::empty())
    } else if s[0] != caret() {
        match caret_decode_seq(s.drop_first()) {
            Some(t) => Some(seq![s[0]] + t),
            None => None,
        }
    } else if s.len() == 1 {
        None
    } else {
        let d = s[1];
        let decoded: Option<u8> = if d == 0x21 {
            Some(caret())
        } else if 0x3f <= d && d <= 0x5f {
            Some(d ^ 0x40)
        } else {
            None
        };
        match decoded {
            Some(b) => match caret_decode_seq(s.skip(2)) {
                Some(t) => Some(seq![b] + t),
                None => None,
            },
            None => None,
        }
    }
}

/// Every byte of an escape is ASCII and the escape of a control character
/// or caret starts with a caret; flipping the 0x40 bit twice gives the
/// character back.
proof fn lemma_caret_unit_facts(b: u8)
    requires
        is_ascii_byte(b),
    ensures
        is_ascii_seq(caret_unit(b)),
        caret_unit(b).len() >= 1,
        caret_unit(b)[0] == caret() <==> (spec_is_control(b) || b == caret()),
        spec_is_control(b) ==> {
            &&& caret_unit(b).len() == 2
            &&& 0x3f <= caret_unit(b)[1] <= 0x5f
            &&& caret_unit(b)[1] != 0x21
            &&& (caret_unit(b)[1] ^ 0x40) == b
        },
{
    if spec_is_control(b) {
        assert((b < 0x20 || b == 0x7f) ==> (0x3f <= (b ^ 0x40) <= 0x5f && (b ^ 0x40) != 0x21 && ((b
            ^ 0x40) ^ 0x40) == b && (b ^ 0x40) <= 127)) by (bit_vector);
    }
}

/// Decoding inverts encoding: for every ASCII sequence, decoding the
/// encoding succeeds and gives the sequence back.
pub proof fn lemma_caret_round_trip(s: Seq<u8>)
    requires
        is_ascii_seq(s),
    ensures
        caret_decode_seq(caret_encode_seq(s)) == Some(s),
    decreases s.len(),
{
    if s.len() == 0 {
        assert(caret_decode_seq(caret_encode_seq(s)) =~= Some(s));
    } else {
        let b = s[0];
        let t = s.drop_first();
        assert(is_ascii_seq(t));
        lemma_caret_round_trip(t);
        lemma_caret_unit_facts(b);
        let e = caret_encode_seq(s);
        let et = caret_encode_seq(t);
        assert(e == caret_unit(b) + et);
        if spec_is_control(b) {
            assert(e[0] == caret());
            assert(e.len() >= 2);
            assert(e[1] == caret_unit(b)[1]);
            assert(e[1] != 0x21);
            assert(e.skip(2) =~= et);
            assert(caret_decode_seq(e) == Some(seq![(e[1] ^ 0x40)] + t));
            assert(seq![(e[1] ^ 0x40)] + t =~= s);
        } else if b == caret() {
            assert(e[0] == caret());
            assert(e.len() >= 2);
            assert(e[1] == 0x21);
            assert(e.skip(2) =~= et);
            assert(caret_decode_seq(e) == Some(seq![caret()] + t));
            assert(seq![caret()] + t =~= s);
        } else {
            assert(e[0] == b);
            assert(b != caret());
            assert(e.drop_first() =~= et);
            assert(caret_decode_seq(e) == Some(seq![b] + t));
            assert(seq![b] + t =~= s);
        }
    }
}

/// Encodes a string in caret notation: control characters become a caret
/// followed by a printable character, a literal caret becomes a caret
/// followed by an exclamation mark, and everything else stands for itself.
pub fn caret_encode(s: AsciiStr<'_>) -> (r: AsciiString)
    ensures
        r@ == caret_encode_seq(s@),
{
    let bytes = s.as_bytes();
    let n = bytes.len();
    let mut out: Vec<u8> = Vec::new();
    let mut i: usize = 0;
    while i < n
        invariant
            n == bytes@.len(),
            0 <= i <= n,
            is_ascii_seq(bytes@),
            is_ascii_seq(out@),
            out@ == caret_encode_seq(bytes@.take(i as int)),
        decreases n - i,
    {
        let b = *vstd::slice::slice_index_get(bytes, i);
        proof {
            lemma_caret_unit_facts(b);
            lemma_caret_encode_snoc(bytes@.take(i as int), b);
            assert(bytes@.take(i + 1) =~= bytes@.take(i as int).push(b));
        }
        if b < 0x20 || b == 0x7f {
            out.push(0x5e);
            assert(b < 0x20 || b == 0x7f ==> (b ^ 0x40) <= 127) by (bit_vector);
            out.push(b ^ 0x40);
        } else if b == 0x5e {
            out.push(0x5e);
            out.push(0x21);
        } else {
            out.push(b);
        }
        proof {
            assert(out@ =~= caret_encode_seq(bytes@.take(i as int)) + caret_unit(b));
        }
        i = i + 1;
    }
    proof {
        assert(bytes@.take(n as int) =~= bytes@);
    }
    AsciiString::from_ascii_unchecked(out)
}

/// Encoding one more character appends its escape.
proof fn lemma_caret_encode_snoc(s: Seq<u8>, b: u8)
    ensures
        caret_encode_seq(s.push(b)) == caret_encode_seq(s) + caret_unit(b),
    decreases s.len(),
{
    assert(s.push(b)[0] == if s.len() == 0 {
        b
    } else {
        s[0]
    });
    if s.len() == 0 {
        assert(s.push(b).drop_first() =~= Seq::<u8>::empty());
        assert(caret_encode_seq(Seq::<u8>::empty()) == Seq::<u8>::empty());
        assert(caret_encode_seq(s.push(b)) == caret_unit(b) + caret_encode_seq(
            s.push(b).drop_first(),
        ));
        assert(caret_encode_seq(s.push(b)) =~= caret_unit(b));
        assert(caret_encode_seq(s) + caret_unit(b) =~= caret_unit(b));
    } else {
        assert(s.push(b).drop_first() =~= s.drop_first().push(b));
        lemma_caret_encode_snoc(s.drop_first(), b);
        assert(caret_encode_seq(s.push(b)) =~= caret_encode_seq(s) + caret_unit(b));
    }
}

/// A decoded prefix put in front of the result of decoding the rest.
spec fn opt_prepend(p: Seq<u8>, o: Option<Seq<u8>>) -> Option<Seq<u8>> {
    match o {
        Some(t) => Some(p + t),
        None => None,
    }
}

proof fn lemma_opt_prepend_empty(o: Option<Seq<u8>>)
    ensures
        opt_prepend(Seq::empty(), o) == o,
{
    match o {
        Some(t) => {
            assert(Seq::<u8>::empty() + t =~= t);
        },
        None => {},
    }
}

proof fn lemma_opt_prepend_shift(p: Seq<u8>, b: u8, o: Option<Seq<u8>>)
    ensures
        opt_prepend(
            p,
            match o {
                Some(t) => Some(seq![b] + t),
                None => None,
            },
        ) == opt_prepend(p.push(b), o),
{
    match o {
        Some(t) => {
            assert(p + (seq![b] + t) =~= p.push(b) + t);
        },
        None => {},
    }
}

/// Decodes a string from caret notation, failing exactly where the caret
/// escape scheme is violated: a trailing caret, or a caret followed by a
/// character no escape produces.
pub fn caret_decode(s: AsciiStr<'_>) -> (r: Option<AsciiString>)
    ensures
        match r {
            Some(v) => caret_decode_seq(s@) == Some(v@),
            None => caret_decode_seq(s@) is None,
        },
{
    let bytes = s.as_bytes();
    let n = bytes.len();
    let mut out: Vec<u8> = Vec::new();
    let mut i: usize = 0;
    proof {
        assert(bytes@.skip(0) =~= bytes@);
        lemma_opt_prepend_empty(caret_decode_seq(bytes@));
    }
    while i < n
        invariant
            bytes@ == s@,
            n == bytes@.len(),
            0 <= i <= n,
            is_ascii_seq(bytes@),
            is_ascii_seq(out@),
            caret_decode_seq(bytes@) == opt_prepend(out@, caret_decode_seq(bytes@.skip(i as int))),
        decreases n - i,
    {
        let ghost rem = bytes@.skip(i as int);
        let b = *vstd::slice::slice_index_get(bytes, i);
        proof {
            assert(rem[0] == b);
        }
        if b != 0x5e {
            proof {
                assert(rem.drop_first() =~= bytes@.skip(i + 1));
                lemma_opt_prepend_shift(out@, b, caret_decode_seq(bytes@.skip(i + 1)));
            }
            out.push(b);
            i = i + 1;
        } else if i + 1 == n {
            proof {
                assert(rem.len() == 1);
                assert(caret_decode_seq(rem) is None);
            }
            return None;
        } else {
            let d = *vstd::slice::slice_index_get(bytes, i + 1);
            proof {
                assert(rem[1] == d);
                assert(rem.len() >= 2);
            }
            let decoded: u8;
            if d == 0x21 {
                decoded = 0x5e;
            } else if 0x3f <= d && d <= 0x5f {
                assert(0x3f <= d && d <= 0x5f ==> (d ^ 0x40) <= 127) by (bit_vector);
                decoded = d ^ 0x40;
            } else {
                proof {
                    assert(caret_decode_seq(rem) is None);
                }
                return None;
            }
            proof {
                assert(rem.skip(2) =~= bytes@.skip(i + 2));
                lemma_opt_prepend_shift(out@, decoded, caret_decode_seq(bytes@.skip(i + 2)));
            }
            out.push(decoded);
            i = i + 2;
        }
    }
    proof {
        assert(bytes@.skip(n as int) =~= Seq::<u8>::empty());
        assert(out@ + Seq::<u8>::empty() =~= out@);
    }
    Some(AsciiString::from_ascii_unchecked(out))
}

} // verus!
