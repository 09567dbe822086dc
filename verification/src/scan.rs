//! Scanning one line of a document: which characters stand inside quotes, how
//! deep they are nested in brackets, and where a separator really separates.
use vstd::prelude::*;
use vstd::slice::slice_subrange;

use crate::text::slices_view;

verus! {

/// Which kind of quote is open, and whether a backslash protects the next
/// character.
#[derive(Clone, Copy)]
pub struct Quotes {
    pub single: bool,
    pub double: bool,
    pub held: bool,
}

impl Quotes {
    pub open spec fn none(self) -> bool {
        !self.single && !self.double
    }
}

/// A quote toggles its kind unless the other kind is open. Where there are
/// escapes, a backslash inside double quotes protects the character behind it.
pub open spec fn quotes_step(esc: bool, q: Quotes, c: char) -> Quotes {
    if q.held {
        Quotes { held: false, ..q }
    } else if esc && q.double && c == '\\' {
        Quotes { held: true, ..q }
    } else if c == '\'' && !q.double {
        Quotes { single: !q.single, ..q }
    } else if c == '"' && !q.single {
        Quotes { double: !q.double, ..q }
    } else {
        q
    }
}

/// The quotes that are open before position `i`.
pub open spec fn quotes_at(esc: bool, s: Seq<char>, i: int) -> Quotes
    decreases i,
{
    if i <= 0 {
        Quotes { single: false, double: false, held: false }
    } else {
        quotes_step(esc, quotes_at(esc, s, i - 1), s[i - 1])
    }
}

/// The balance of opening and closing brackets outside quotes before `i`.
pub open spec fn depth_at(esc: bool, s: Seq<char>, i: int) -> int
    decreases i,
{
    if i <= 0 {
        0
    } else if !quotes_at(esc, s, i - 1).none() {
        depth_at(esc, s, i - 1)
    } else if s[i - 1] == '[' || s[i - 1] == '{' {
        depth_at(esc, s, i - 1) + 1
    } else if s[i - 1] == ']' || s[i - 1] == '}' {
        depth_at(esc, s, i - 1) - 1
    } else {
        depth_at(esc, s, i - 1)
    }
}

/// Does a separator `sep` stand at `i`, outside quotes and brackets?
pub open spec fn separates(esc: bool, s: Seq<char>, sep: char, i: int) -> bool {
    s[i] == sep && quotes_at(esc, s, i).none() && depth_at(esc, s, i) == 0
}

/// The first separator at or after `i`, or the length.
pub open spec fn next_separator(esc: bool, s: Seq<char>, sep: char, i: int) -> int
    decreases s.len() - i,
{
    if i >= s.len() {
        s.len() as int
    } else if separates(esc, s, sep, i) {
        i
    } else {
        next_separator(esc, s, sep, i + 1)
    }
}

pub proof fn lemma_next_separator(esc: bool, s: Seq<char>, sep: char, i: int)
    requires
        0 <= i <= s.len(),
    ensures
        i <= next_separator(esc, s, sep, i) <= s.len(),
        next_separator(esc, s, sep, i) < s.len() ==> s[next_separator(esc, s, sep, i)] == sep,
    decreases s.len() - i,
{
    if i < s.len() && !separates(esc, s, sep, i) {
        lemma_next_separator(esc, s, sep, i + 1);
    }
}

/// What lies between the separators, from position `start` on.
pub open spec fn pieces(esc: bool, s: Seq<char>, sep: char, start: int) -> Seq<Seq<char>>
    decreases s.len() - start,
    via pieces_decreases
{
    if start < 0 || start > s.len() {
        Seq::empty()
    } else {
        let k = next_separator(esc, s, sep, start);
        if k >= s.len() {
            seq![s.skip(start)]
        } else {
            seq![s.subrange(start, k)] + pieces(esc, s, sep, k + 1)
        }
    }
}

#[via_fn]
proof fn pieces_decreases(esc: bool, s: Seq<char>, sep: char, start: int) {
    if 0 <= start <= s.len() {
        lemma_next_separator(esc, s, sep, start);
    }
}

/// The summed length of the parts.
pub open spec fn total_len(ps: Seq<Seq<char>>) -> nat
    decreases ps.len(),
{
    if ps.len() == 0 {
        0
    } else {
        ps[0].len() + total_len(ps.skip(1))
    }
}

pub proof fn lemma_pieces_total(esc: bool, s: Seq<char>, sep: char, start: int)
    requires
        0 <= start <= s.len(),
    ensures
        total_len(pieces(esc, s, sep, start)) <= s.len() - start,
    decreases s.len() - start,
{
    lemma_next_separator(esc, s, sep, start);
    let k = next_separator(esc, s, sep, start);
    let ps = pieces(esc, s, sep, start);
    if k >= s.len() {
        assert(ps.skip(1) =~= Seq::empty());
        assert(total_len(ps.skip(1)) == 0);
    } else {
        lemma_pieces_total(esc, s, sep, k + 1);
        assert(ps.skip(1) =~= pieces(esc, s, sep, k + 1));
    }
}

/// The state of a scan over a text.
#[derive(Clone, Copy)]
pub struct Scan {
    pub esc: bool,
    pub quotes: Quotes,
    pub depth: i128,
}

impl Scan {
    /// The state reached after the first `i` characters of `s`.
    pub open spec fn at(self, s: Seq<char>, i: int) -> bool {
        &&& self.quotes == quotes_at(self.esc, s, i)
        &&& self.depth == depth_at(self.esc, s, i)
        &&& -i <= self.depth <= i
    }

    pub fn start(esc: bool, Ghost(s): Ghost<Seq<char>>) -> (r: Scan)
        ensures
            r.at(s, 0),
            r.esc == esc,
    {
        Scan { esc, quotes: Quotes { single: false, double: false, held: false }, depth: 0 }
    }

    pub fn top(&self) -> (r: bool)
        ensures
            r == (self.quotes.none() && self.depth == 0),
    {
        !self.quotes.single && !self.quotes.double && self.depth == 0
    }

    /// Reads the character at position `i`.
    pub fn step(&mut self, c: char, Ghost(s): Ghost<Seq<char>>, Ghost(i): Ghost<int>)
        requires
            old(self).at(s, i),
            0 <= i < s.len() <= usize::MAX,
            c == s[i],
        ensures
            final(self).at(s, i + 1),
            final(self).esc == old(self).esc,
    {
        let open: bool = self.quotes.single || self.quotes.double;
        if self.quotes.held {
            self.quotes.held = false;
        } else if self.esc && self.quotes.double && c == '\\' {
            self.quotes.held = true;
        } else if c == '\'' && !self.quotes.double {
            self.quotes.single = !self.quotes.single;
        } else if c == '"' && !self.quotes.single {
            self.quotes.double = !self.quotes.double;
        }
        if !open {
            if c == '[' || c == '{' {
                self.depth = self.depth + 1;
            } else if c == ']' || c == '}' {
                self.depth = self.depth - 1;
            }
        }
    }
}

/// The position of the first separator, or the length.
pub fn find_separator(esc: bool, s: &[char], sep: char) -> (r: usize)
    ensures
        r == next_separator(esc, s@, sep, 0),
        r <= s@.len(),
{
    let mut st: Scan = Scan::start(esc, Ghost(s@));
    let mut i: usize = 0;
    while i < s.len()
        invariant
            i <= s.len(),
            st.at(s@, i as int),
            st.esc == esc,
            next_separator(esc, s@, sep, 0) == next_separator(esc, s@, sep, i as int),
        decreases s.len() - i,
    {
        if s[i] == sep && st.top() {
            return i;
        }
        st.step(s[i], Ghost(s@), Ghost(i as int));
        i += 1;
    }
    i
}

/// Splits a text at its separators. Also says whether every quote was closed.
pub fn split_pieces<'a>(esc: bool, s: &'a [char], sep: char) -> (r: (Vec<&'a [char]>, bool))
    ensures
        slices_view(r.0@) == pieces(esc, s@, sep, 0),
        r.1 == quotes_at(esc, s@, s@.len() as int).none(),
        r.0@.len() > 0,
{
    let mut out: Vec<&'a [char]> = Vec::new();
    let mut st: Scan = Scan::start(esc, Ghost(s@));
    let mut start: usize = 0;
    let mut i: usize = 0;
    proof {
        assert(slices_view(out@) + pieces(esc, s@, sep, 0) =~= pieces(esc, s@, sep, 0));
    }
    while i < s.len()
        invariant
            start <= i <= s.len(),
            st.at(s@, i as int),
            st.esc == esc,
            next_separator(esc, s@, sep, start as int) == next_separator(esc, s@, sep, i as int),
            slices_view(out@) + pieces(esc, s@, sep, start as int) == pieces(esc, s@, sep, 0),
        decreases s.len() - i,
    {
        if s[i] == sep && st.top() {
            let piece = slice_subrange(s, start, i);
            let ghost before = out@;
            out.push(piece);
            proof {
                assert(slices_view(out@) =~= slices_view(before).push(piece@));
                assert(slices_view(out@) + pieces(esc, s@, sep, i + 1) =~= slices_view(before) + (
                seq![piece@] + pieces(esc, s@, sep, i + 1)));
            }
            start = i + 1;
        }
        st.step(s[i], Ghost(s@), Ghost(i as int));
        i += 1;
    }
    let ghost before = out@;
    let last = slice_subrange(s, start, s.len());
    out.push(last);
    proof {
        assert(last@ =~= s@.skip(start as int));
        assert(slices_view(out@) =~= slices_view(before) + seq![last@]);
    }
    (out, !st.quotes.single && !st.quotes.double)
}

} // verus!
