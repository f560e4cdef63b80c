//! Cursors over the characters, separated parts and lines of an `AsciiStr`.
//!
//! Each cursor can be consumed from the front and from the back; both ends
//! work on one shared model of what remains, so mixed consumption can never
//! emit an element twice or skip one. The models are the spec functions
//! `split_segments` and `split_lines` below.

use vstd::prelude::*;

use crate::ascii_char::AsciiChar;
use crate::ascii_str::{is_ascii_seq, AsciiStr};

verus! {

/// The parts a sequence falls into when cut at every occurrence of the
/// separator: one more part than there are separators, and consecutive
/// separators produce empty parts. An empty sequence yields one empty part.
pub open spec fn split_segments(s: Seq<u8>, sep: u8) -> Seq<Seq<u8>>
    decreases s.len(),
{
    if s.len() == 0 {
        seq![s]
    } else if s[0] == sep {
        seq![Seq::<u8>::empty()] + split_segments(s.drop_first(), sep)
    } else {
        let rest = split_segments(s.drop_first(), sep);
        seq![seq![s[0]] + rest[0]] + rest.drop_first()
    }
}

/// Splitting always yields at least one part.
pub proof fn lemma_segments_nonempty(s: Seq<u8>, sep: u8)
    ensures
        split_segments(s, sep).len() >= 1,
    decreases s.len(),
{
    if s.len() == 0 {
    } else if s[0] == sep {
        lemma_segments_nonempty(s.drop_first(), sep);
    } else {
        lemma_segments_nonempty(s.drop_first(), sep);
    }
}

/// A sequence without the separator is a single part.
proof fn lemma_segments_no_sep(s: Seq<u8>, sep: u8)
    requires
        forall|k: int| 0 <= k < s.len() ==> s[k] != sep,
    ensures
        split_segments(s, sep) =~= seq![s],
    decreases s.len(),
{
    if s.len() == 0 {
    } else {
        assert(s[0] != sep);
        lemma_segments_no_sep(s.drop_first(), sep);
        lemma_segments_nonempty(s.drop_first(), sep);
        assert(seq![s[0]] + s.drop_first() =~= s);
    }
}

/// Cutting at the first separator: the part before it, then the parts of
/// what follows it.
proof fn lemma_segments_first_sep(s: Seq<u8>, sep: u8, i: int)
    requires
        0 <= i < s.len(),
        s[i] == sep,
        forall|k: int| 0 <= k < i ==> s[k] != sep,
    ensures
        split_segments(s, sep) =~= seq![s.take(i)] + split_segments(s.skip(i + 1), sep),
    decreases s.len(),
{
    if i == 0 {
        assert(s.take(0) =~= Seq::<u8>::empty());
        assert(s.skip(1) =~= s.drop_first());
    } else {
        let t = s.drop_first();
        assert(t[i - 1] == sep);
        lemma_segments_first_sep(t, sep, i - 1);
        lemma_segments_nonempty(t.skip(i), sep);
        assert(t.take(i - 1) =~= s.take(i).drop_first());
        assert(t.skip(i) =~= s.skip(i + 1));
        assert(seq![s[0]] + s.take(i).drop_first() =~= s.take(i));
    }
}

/// Cutting at the last separator: the parts of what precedes it, then the
/// part after it.
proof fn lemma_segments_last_sep(s: Seq<u8>, sep: u8, j: int)
    requires
        0 <= j < s.len(),
        s[j] == sep,
        forall|k: int| j < k < s.len() ==> s[k] != sep,
    ensures
        split_segments(s, sep) =~= split_segments(s.take(j), sep) + seq![s.skip(j + 1)],
    decreases s.len(),
{
    if j == 0 {
        assert(forall|k: int| 0 <= k < s.drop_first().len() ==> s.drop_first()[k] != sep);
        lemma_segments_no_sep(s.drop_first(), sep);
        assert(s.take(0) =~= Seq::<u8>::empty());
        assert(s.skip(1) =~= s.drop_first());
    } else {
        let t = s.drop_first();
        assert(t[j - 1] == sep);
        lemma_segments_last_sep(t, sep, j - 1);
        lemma_segments_nonempty(t.take(j - 1), sep);
        assert(t.take(j - 1) =~= s.take(j).drop_first());
        assert(t.skip(j) =~= s.skip(j + 1));
        if s[0] == sep {
            assert(s.take(j)[0] == sep);
        } else {
            assert(s.take(j)[0] != sep);
            let rest = split_segments(t, sep);
            let rest2 = split_segments(s.take(j).drop_first(), sep);
            assert(rest =~= rest2 + seq![s.skip(j + 1)]);
            lemma_segments_nonempty(s.take(j).drop_first(), sep);
            assert(rest[0] == rest2[0]);
            assert(rest.drop_first() =~= rest2.drop_first() + seq![s.skip(j + 1)]);
            assert(seq![s[0]] + s.take(j).drop_first() =~= s.take(j));
        }
    }
}

/// The index of the first occurrence of `x`, or the length of the sequence
/// when `x` does not occur.
pub open spec fn first_index_of(s: Seq<u8>, x: u8) -> int
    decreases s.len(),
{
    if s.len() == 0 {
        0
    } else if s[0] == x {
        0
    } else {
        1 + first_index_of(s.drop_first(), x)
    }
}

/// What `first_index_of` returns: the first position holding `x`, or the
/// length when no position does.
pub proof fn lemma_first_index_of(s: Seq<u8>, x: u8)
    ensures
        0 <= first_index_of(s, x) <= s.len(),
        first_index_of(s, x) < s.len() ==> s[first_index_of(s, x)] == x,
        forall|k: int| 0 <= k < first_index_of(s, x) ==> s[k] != x,
    decreases s.len(),
{
    if s.len() == 0 {
    } else if s[0] == x {
    } else {
        lemma_first_index_of(s.drop_first(), x);
        assert forall|k: int| 0 <= k < first_index_of(s, x) implies s[k] != x by {
            if k > 0 {
                assert(s[k] == s.drop_first()[k - 1]);
            }
        }
    }
}

proof fn lemma_first_index_from_scan(s: Seq<u8>, x: u8, i: int)
    requires
        0 <= i <= s.len(),
        forall|k: int| 0 <= k < i ==> s[k] != x,
        i == s.len() || s[i] == x,
    ensures
        first_index_of(s, x) == i,
    decreases s.len(),
{
    if s.len() == 0 {
    } else if i == 0 {
    } else {
        assert(s[0] != x);
        let t = s.drop_first();
        assert(forall|k: int| 0 <= k < i - 1 ==> t[k] != x);
        lemma_first_index_from_scan(t, x, i - 1);
    }
}

/// The lines a sequence falls into. A line ends at a line feed, optionally
/// preceded by a carriage return that is excluded from the line; a trailing
/// terminator produces no extra empty line, while consecutive terminators
/// produce empty lines. An empty sequence has no lines.
pub open spec fn split_lines(s: Seq<u8>) -> Seq<Seq<u8>>
    decreases s.len(),
    via split_lines_dec
{
    if s.len() == 0 {
        Seq::empty()
    } else {
        let i = first_index_of(s, 0x0a);
        if i < s.len() {
            let line = if i > 0 && s[i - 1] == 0x0d {
                s.take(i - 1)
            } else {
                s.take(i)
            };
            seq![line] + split_lines(s.skip(i + 1))
        } else {
            seq![s]
        }
    }
}

#[via_fn]
proof fn split_lines_dec(s: Seq<u8>) {
    if s.len() != 0 {
        lemma_first_index_of(s, 0x0a);
    }
}

/// Removing the last line: `i` marks the end of the last line's contents,
/// `j` its start. `i` cuts off nothing, a bare line feed, or a carriage
/// return and line feed pair at the very end; `j` follows the previous line
/// feed, with none between the two.
proof fn lemma_split_lines_back(s: Seq<u8>, i: int, j: int)
    requires
        s.len() > 0,
        0 <= j <= i <= s.len(),
        (i == s.len() && s[s.len() - 1] != 0x0a) || (i == s.len() - 1 && s[i] == 0x0a && (i == 0
            || s[i - 1] != 0x0d)) || (i == s.len() - 2 && s[i] == 0x0d && s[i + 1] == 0x0a),
        j == 0 || s[j - 1] == 0x0a,
        forall|k: int| j <= k < i ==> s[k] != 0x0a,
    ensures
        split_lines(s) =~= split_lines(s.take(j)) + seq![s.subrange(j, i)],
    decreases s.len(),
{
    lemma_first_index_of(s, 0x0a);
    let fi = first_index_of(s, 0x0a);
    if j == 0 {
        if i == s.len() && s[s.len() - 1] != 0x0a {
            assert(forall|k: int| 0 <= k < s.len() ==> s[k] != 0x0a);
            assert(fi == s.len());
            assert(s.take(0) =~= Seq::<u8>::empty());
            assert(s.subrange(0, i) =~= s);
        } else if i == s.len() - 1 && s[i] == 0x0a {
            lemma_first_index_from_scan(s, 0x0a, i);
            assert(s.skip(i + 1) =~= Seq::<u8>::empty());
            assert(s.take(0) =~= Seq::<u8>::empty());
            assert(s.subrange(0, i) =~= s.take(i));
        } else {
            assert(s[i] == 0x0d && s[i + 1] == 0x0a && i == s.len() - 2);
            lemma_first_index_from_scan(s, 0x0a, i + 1);
            assert(s.skip(i + 2) =~= Seq::<u8>::empty());
            assert(s.take(0) =~= Seq::<u8>::empty());
            assert(s.subrange(0, i) =~= s.take(i));
        }
    } else {
        assert(s[j - 1] == 0x0a);
        assert(fi <= j - 1) by {
            if fi > j - 1 {
                assert(s[j - 1] != 0x0a);
            }
        }
        assert(fi < s.len());
        let t = s.skip(fi + 1);
        let i2 = i - (fi + 1);
        let j2 = j - (fi + 1);
        assert(t.len() == s.len() - (fi + 1));
        assert(t.len() > 0) by {
            assert(fi + 1 <= j <= i <= s.len());
            if fi + 1 == s.len() {
                assert(j == i && i == s.len());
                assert(s[j - 1] == 0x0a);
                assert(!(i == s.len() && s[s.len() - 1] != 0x0a));
                assert(i == s.len() - 1 || i == s.len() - 2);
            }
        }
        assert(forall|k: int| 0 <= k < t.len() ==> t[k] == s[k + fi + 1]);
        lemma_split_lines_back(t, i2, j2);
        let tk = s.take(j);
        lemma_first_index_from_scan(tk, 0x0a, fi);
        assert(split_lines(s) =~= seq![line_at(s, fi)] + split_lines(t));
        assert(tk.len() > 0);
        assert(split_lines(tk) =~= seq![line_at(tk, fi)] + split_lines(tk.skip(fi + 1)));
        assert(line_at(tk, fi) =~= line_at(s, fi)) by {
            assert(tk.take(fi) =~= s.take(fi));
            if fi > 0 {
                assert(tk.take(fi - 1) =~= s.take(fi - 1));
            }
        }
        assert(tk.skip(fi + 1) =~= t.take(j2));
        assert(t.subrange(j2, i2) =~= s.subrange(j, i));
    }
}

/// The line starting at position 0 when the first line feed is at `i`.
spec fn line_at(s: Seq<u8>, i: int) -> Seq<u8> {
    if i > 0 && s[i - 1] == 0x0d {
        s.take(i - 1)
    } else {
        s.take(i)
    }
}

/// A copying cursor over the characters of an `AsciiStr`, consumable from
/// either end. Its view is the run of characters not yet emitted.
#[derive(Clone, Copy, Debug)]
pub struct Chars<'a> {
    rem: &'a [u8],
}

impl<'a> View for Chars<'a> {
    type V = Seq<u8>;

    closed spec fn view(&self) -> Seq<u8> {
        self.rem@
    }
}

impl<'a> Chars<'a> {
    #[verifier::type_invariant]
    spec fn wf(self) -> bool {
        is_ascii_seq(self.rem@)
    }

    pub(crate) fn over(s: AsciiStr<'a>) -> (r: Chars<'a>)
        ensures
            r@ == s@,
    {
        Chars { rem: s.as_bytes() }
    }

    /// Returns the ascii string slice with the remaining characters.
    pub fn as_str(&self) -> (r: AsciiStr<'a>)
        ensures
            r@ == self@,
    {
        proof {
            use_type_invariant(self);
        }
        AsciiStr::from_ascii_unchecked(self.rem)
    }

    /// The next character from the front, or `None` once none remain.
    pub fn next(&mut self) -> (r: Option<AsciiChar>)
        ensures
            old(self)@.len() == 0 ==> (r is None && final(self)@ == old(self)@),
            old(self)@.len() > 0 ==> {
                &&& (r matches Some(c) && c@ == old(self)@[0])
                &&& final(self)@ == old(self)@.drop_first()
            },
    {
        proof {
            use_type_invariant(&*self);
        }
        let view = self.as_str();
        if view.is_empty() {
            None
        } else {
            let c = view.at(0);
            self.rem = view.substr(1, view.len()).as_bytes();
            proof {
                assert(self.rem@ =~= old(self)@.drop_first());
            }
            Some(c)
        }
    }

    /// The next character from the back, or `None` once none remain.
    pub fn next_back(&mut self) -> (r: Option<AsciiChar>)
        ensures
            old(self)@.len() == 0 ==> (r is None && final(self)@ == old(self)@),
            old(self)@.len() > 0 ==> {
                &&& (r matches Some(c) && c@ == old(self)@.last())
                &&& final(self)@ == old(self)@.drop_last()
            },
    {
        proof {
            use_type_invariant(&*self);
        }
        let view = self.as_str();
        if view.is_empty() {
            None
        } else {
            let n = view.len();
            let c = view.at(n - 1);
            self.rem = view.substr(0, n - 1).as_bytes();
            proof {
                assert(self.rem@ =~= old(self)@.drop_last());
            }
            Some(c)
        }
    }

    /// The number of characters not yet emitted.
    pub fn len(&self) -> (n: usize)
        ensures
            n == self@.len(),
    {
        self.rem.len()
    }
}

/// A cursor over the characters of an `AsciiStr` borrowed for reading; it
/// behaves exactly like `Chars`.
#[derive(Clone, Copy, Debug)]
pub struct CharsRef<'a> {
    inner: Chars<'a>,
}

impl<'a> View for CharsRef<'a> {
    type V = Seq<u8>;

    closed spec fn view(&self) -> Seq<u8> {
        self.inner@
    }
}

impl<'a> CharsRef<'a> {
    pub(crate) fn over(s: AsciiStr<'a>) -> (r: CharsRef<'a>)
        ensures
            r@ == s@,
    {
        CharsRef { inner: Chars::over(s) }
    }

    /// Returns the ascii string slice with the remaining characters.
    pub fn as_str(&self) -> (r: AsciiStr<'a>)
        ensures
            r@ == self@,
    {
        self.inner.as_str()
    }

    /// The next character from the front, or `None` once none remain.
    pub fn next(&mut self) -> (r: Option<AsciiChar>)
        ensures
            old(self)@.len() == 0 ==> (r is None && final(self)@ == old(self)@),
            old(self)@.len() > 0 ==> {
                &&& (r matches Some(c) && c@ == old(self)@[0])
                &&& final(self)@ == old(self)@.drop_first()
            },
    {
        self.inner.next()
    }

    /// The next character from the back, or `None` once none remain.
    pub fn next_back(&mut self) -> (r: Option<AsciiChar>)
        ensures
            old(self)@.len() == 0 ==> (r is None && final(self)@ == old(self)@),
            old(self)@.len() > 0 ==> {
                &&& (r matches Some(c) && c@ == old(self)@.last())
                &&& final(self)@ == old(self)@.drop_last()
            },
    {
        self.inner.next_back()
    }
}

/// A cursor over the parts of an `AsciiStr` separated by one character,
/// consumable from either end. Its view is the sequence of parts not yet
/// emitted; both ends draw from that one sequence.
#[derive(Clone, Copy, Debug)]
pub struct Split<'a> {
    on: u8,
    rem: &'a [u8],
    done: bool,
}

impl<'a> View for Split<'a> {
    type V = Seq<Seq<u8>>;

    closed spec fn view(&self) -> Seq<Seq<u8>> {
        if self.done {
            Seq::empty()
        } else {
            split_segments(self.rem@, self.on)
        }
    }
}

impl<'a> Split<'a> {
    #[verifier::type_invariant]
    spec fn wf(self) -> bool {
        is_ascii_seq(self.rem@)
    }

    pub(crate) fn over(s: AsciiStr<'a>, on: AsciiChar) -> (r: Split<'a>)
        ensures
            r@ == split_segments(s@, on@),
    {
        Split { on: on.as_byte(), rem: s.as_bytes(), done: false }
    }

    /// The next part from the front, or `None` once none remain.
    pub fn next(&mut self) -> (r: Option<AsciiStr<'a>>)
        ensures
            old(self)@.len() == 0 ==> (r is None && final(self)@ == old(self)@),
            old(self)@.len() > 0 ==> {
                &&& (r matches Some(v) && v@ == old(self)@[0])
                &&& final(self)@ == old(self)@.drop_first()
            },
    {
        proof {
            use_type_invariant(&*self);
        }
        if self.done {
            return None;
        }
        let view = AsciiStr::from_ascii_unchecked(self.rem);
        proof {
            lemma_segments_nonempty(self.rem@, self.on);
        }
        let n = view.len();
        let mut i: usize = 0;
        while i < n && view.at(i).as_byte() != self.on
            invariant
                n == view@.len(),
                0 <= i <= n,
                forall|k: int| 0 <= k < i ==> view@[k] != self.on,
            decreases n - i,
        {
            i = i + 1;
        }
        if i < n {
            let part = view.substr(0, i);
            self.rem = view.substr(i + 1, n).as_bytes();
            proof {
                lemma_segments_first_sep(view@, self.on, i as int);
            }
            Some(part)
        } else {
            self.done = true;
            proof {
                lemma_segments_no_sep(view@, self.on);
            }
            Some(view)
        }
    }

    /// The next part from the back, or `None` once none remain.
    pub fn next_back(&mut self) -> (r: Option<AsciiStr<'a>>)
        ensures
            old(self)@.len() == 0 ==> (r is None && final(self)@ == old(self)@),
            old(self)@.len() > 0 ==> {
                &&& (r matches Some(v) && v@ == old(self)@.last())
                &&& final(self)@ == old(self)@.drop_last()
            },
    {
        proof {
            use_type_invariant(&*self);
        }
        if self.done {
            return None;
        }
        let view = AsciiStr::from_ascii_unchecked(self.rem);
        proof {
            lemma_segments_nonempty(self.rem@, self.on);
        }
        let n = view.len();
        let mut i: usize = n;
        while i > 0 && view.at(i - 1).as_byte() != self.on
            invariant
                n == view@.len(),
                0 <= i <= n,
                forall|k: int| i <= k < n ==> view@[k] != self.on,
            decreases i,
        {
            i = i - 1;
        }
        if i > 0 {
            let part = view.substr(i, n);
            self.rem = view.substr(0, i - 1).as_bytes();
            proof {
                lemma_segments_last_sep(view@, self.on, i - 1);
                assert(old(self)@.drop_last() =~= split_segments(view@.take(i - 1), self.on));
            }
            Some(part)
        } else {
            self.done = true;
            proof {
                lemma_segments_no_sep(view@, self.on);
                assert(view@.skip(0) =~= view@);
            }
            Some(view)
        }
    }
}

/// A cursor over the lines of an `AsciiStr`, consumable from either end.
/// Its view is the sequence of lines not yet emitted; both ends draw from
/// that one sequence.
#[derive(Clone, Copy, Debug)]
pub struct Lines<'a> {
    rem: &'a [u8],
}

impl<'a> View for Lines<'a> {
    type V = Seq<Seq<u8>>;

    closed spec fn view(&self) -> Seq<Seq<u8>> {
        split_lines(self.rem@)
    }
}

impl<'a> Lines<'a> {
    #[verifier::type_invariant]
    spec fn wf(self) -> bool {
        is_ascii_seq(self.rem@)
    }

    pub(crate) fn over(s: AsciiStr<'a>) -> (r: Lines<'a>)
        ensures
            r@ == split_lines(s@),
    {
        Lines { rem: s.as_bytes() }
    }

    /// The next line from the front, or `None` once none remain.
    pub fn next(&mut self) -> (r: Option<AsciiStr<'a>>)
        ensures
            old(self)@.len() == 0 ==> (r is None && final(self)@ == old(self)@),
            old(self)@.len() > 0 ==> {
                &&& (r matches Some(v) && v@ == old(self)@[0])
                &&& final(self)@ == old(self)@.drop_first()
            },
    {
        proof {
            use_type_invariant(&*self);
        }
        let view = AsciiStr::from_ascii_unchecked(self.rem);
        let n = view.len();
        if n == 0 {
            return None;
        }
        let mut i: usize = 0;
        while i < n && view.at(i).as_byte() != 0x0a
            invariant
                n == view@.len(),
                0 <= i <= n,
                forall|k: int| 0 <= k < i ==> view@[k] != 0x0a,
            decreases n - i,
        {
            i = i + 1;
        }
        proof {
            lemma_first_index_from_scan(view@, 0x0a, i as int);
        }
        if i < n {
            let line = if i > 0 && view.at(i - 1).as_byte() == 0x0d {
                view.substr(0, i - 1)
            } else {
                view.substr(0, i)
            };
            self.rem = view.substr(i + 1, n).as_bytes();
            Some(line)
        } else {
            self.rem = view.substr(0, 0).as_bytes();
            Some(view)
        }
    }

    /// The next line from the back, or `None` once none remain.
    pub fn next_back(&mut self) -> (r: Option<AsciiStr<'a>>)
        ensures
            old(self)@.len() == 0 ==> (r is None && final(self)@ == old(self)@),
            old(self)@.len() > 0 ==> {
                &&& (r matches Some(v) && v@ == old(self)@.last())
                &&& final(self)@ == old(self)@.drop_last()
            },
    {
        proof {
            use_type_invariant(&*self);
        }
        let view = AsciiStr::from_ascii_unchecked(self.rem);
        let n = view.len();
        if n == 0 {
            return None;
        }
        let mut i: usize = n;
        if view.at(i - 1).as_byte() == 0x0a {
            i = i - 1;
            if i > 0 && view.at(i - 1).as_byte() == 0x0d {
                i = i - 1;
            }
        }
        let mut j: usize = i;
        while j > 0 && view.at(j - 1).as_byte() != 0x0a
            invariant
                n == view@.len(),
                0 <= j <= i <= n,
                forall|k: int| j <= k < i ==> view@[k] != 0x0a,
            decreases j,
        {
            j = j - 1;
        }
        let line = view.substr(j, i);
        self.rem = view.substr(0, j).as_bytes();
        proof {
            lemma_split_lines_back(view@, i as int, j as int);
            assert(old(self)@.drop_last() =~= split_lines(view@.take(j as int)));
        }
        Some(line)
    }
}

/// Drawing every element from the back, one by one, yields exactly the
/// reverse of the sequence: as many elements, and the element drawn at step
/// `k` is the one the forward order would deliver last but `k`.
pub open spec fn drained_back<T>(q: Seq<T>) -> Seq<T>
    decreases q.len(),
{
    if q.len() == 0 {
        Seq::empty()
    } else {
        seq![q.last()] + drained_back(q.drop_last())
    }
}

/// Reverse consumption mirrors forward consumption exactly.
pub proof fn lemma_drain_back_reverses<T>(q: Seq<T>)
    ensures
        drained_back(q).len() == q.len(),
        forall|k: int| 0 <= k < q.len() ==> drained_back(q)[k] == q[q.len() - 1 - k],
    decreases q.len(),
{
    if q.len() == 0 {
    } else {
        lemma_drain_back_reverses(q.drop_last());
    }
}

} // verus!
