//! What the scan of a line is good for: texts that leave nothing open can be put
//! together and taken apart again.
use vstd::prelude::*;

use crate::scan::{depth_at, next_separator, pieces, quotes_at, separates, Quotes};

verus! {

// ---- scanning --------------------------------------------------------------

pub open spec fn fresh() -> Quotes {
    Quotes { single: false, double: false, held: false }
}

/// Does the text leave no quote and no bracket open?
pub open spec fn settled(esc: bool, a: Seq<char>) -> bool {
    quotes_at(esc, a, a.len() as int) == fresh() && depth_at(esc, a, a.len() as int) == 0
}

pub proof fn lemma_front(esc: bool, a: Seq<char>, b: Seq<char>, i: int)
    requires
        0 <= i <= a.len(),
    ensures
        quotes_at(esc, a + b, i) == quotes_at(esc, a, i),
        depth_at(esc, a + b, i) == depth_at(esc, a, i),
    decreases i,
{
    if i > 0 {
        lemma_front(esc, a, b, i - 1);
        assert((a + b)[i - 1] == a[i - 1]);
    }
}

pub proof fn lemma_back(esc: bool, a: Seq<char>, b: Seq<char>, i: int)
    requires
        0 <= i <= b.len(),
        quotes_at(esc, a, a.len() as int) == fresh(),
    ensures
        quotes_at(esc, a + b, a.len() + i) == quotes_at(esc, b, i),
        depth_at(esc, a + b, a.len() + i) == depth_at(esc, a, a.len() as int) + depth_at(esc,
            b,
            i,
        ),
    decreases i,
{
    if i > 0 {
        lemma_back(esc, a, b, i - 1);
        assert((a + b)[a.len() + i - 1] == b[i - 1]);
    } else {
        lemma_front(esc, a, b, a.len() as int);
    }
}

/// Text that can stand as a part: settled, never closing more than it opened, with no
/// comma that separates and no comment sign outside quotes, and on one line.
pub open spec fn closed_text(esc: bool, p: Seq<char>) -> bool {
    &&& settled(esc, p)
    &&& forall|i: int| 0 <= i <= p.len() ==> #[trigger] depth_at(esc, p, i) >= 0
    &&& forall|i: int|
        0 <= i < p.len() ==> !(#[trigger] p[i] == ',' && quotes_at(esc, p, i).none() && depth_at(esc,
            p,
            i,
        ) == 0)
    &&& calm(esc, p)
}

/// No comment sign outside quotes, and no line break.
pub open spec fn calm(esc: bool, p: Seq<char>) -> bool {
    forall|i: int|
        0 <= i < p.len() ==> #[trigger] p[i] != '\n' && (p[i] == '#' ==> !quotes_at(esc,
            p,
            i,
        ).none())
}

pub proof fn lemma_calm_both(esc: bool, a: Seq<char>, b: Seq<char>)
    requires
        calm(esc, a),
        calm(esc, b),
        quotes_at(esc, a, a.len() as int) == fresh(),
    ensures
        calm(esc, a + b),
{
    let s = a + b;
    assert forall|i: int| 0 <= i < s.len() implies #[trigger] s[i] != '\n' && (s[i] == '#'
        ==> !quotes_at(esc, s, i).none()) by {
        if i < a.len() {
            lemma_front(esc, a, b, i);
            assert(a[i] != '\n');
        } else {
            lemma_back(esc, a, b, i - a.len());
            assert(s[i] == b[i - a.len()]);
        }
    }
}

pub proof fn lemma_closed_both(esc: bool, a: Seq<char>, b: Seq<char>)
    requires
        closed_text(esc, a),
        closed_text(esc, b),
    ensures
        closed_text(esc, a + b),
{
    let s = a + b;
    lemma_calm_both(esc, a, b);
    lemma_back(esc, a, b, b.len() as int);
    assert forall|i: int| 0 <= i <= s.len() implies #[trigger] depth_at(esc, s, i) >= 0 by {
        if i < a.len() {
            lemma_front(esc, a, b, i);
            assert(depth_at(esc, a, i) >= 0);
        } else {
            lemma_back(esc, a, b, i - a.len());
            assert(depth_at(esc, b, i - a.len()) >= 0);
        }
    }
    assert forall|i: int| 0 <= i < s.len() implies !(#[trigger] s[i] == ',' && quotes_at(esc,
        s,
        i,
    ).none() && depth_at(esc, s, i) == 0) by {
        if i < a.len() {
            lemma_front(esc, a, b, i);
            assert(s[i] == a[i]);
        } else {
            lemma_back(esc, a, b, i - a.len());
            assert(s[i] == b[i - a.len()]);
        }
    }
}

/// A character that changes nothing of the scan.
pub open spec fn idle(c: char) -> bool {
    c != '\'' && c != '"' && c != '[' && c != ']' && c != '{' && c != '}'
}

pub proof fn lemma_idle(esc: bool, s: Seq<char>, i: int)
    requires
        0 <= i <= s.len(),
        forall|k: int| 0 <= k < s.len() ==> idle(#[trigger] s[k]),
    ensures
        quotes_at(esc, s, i) == fresh(),
        depth_at(esc, s, i) == 0,
    decreases i,
{
    if i > 0 {
        lemma_idle(esc, s, i - 1);
        assert(idle(s[i - 1]));
    }
}

pub proof fn lemma_idle_closed(esc: bool, s: Seq<char>)
    requires
        forall|k: int|
            0 <= k < s.len() ==> idle(#[trigger] s[k]) && s[k] != ',' && s[k] != '#' && s[k] != '\n',
    ensures
        closed_text(esc, s),
{
    assert forall|i: int| 0 <= i <= s.len() implies #[trigger] depth_at(esc, s, i) >= 0 by {
        lemma_idle(esc, s, i);
    }
    lemma_idle(esc, s, s.len() as int);
}

/// Brackets around closed text, with commas between its parts.
pub open spec fn inner_text(esc: bool, p: Seq<char>) -> bool {
    &&& settled(esc, p)
    &&& forall|i: int| 0 <= i <= p.len() ==> #[trigger] depth_at(esc, p, i) >= 0
    &&& calm(esc, p)
}

pub proof fn lemma_inner_both(esc: bool, a: Seq<char>, b: Seq<char>)
    requires
        inner_text(esc, a),
        inner_text(esc, b),
    ensures
        inner_text(esc, a + b),
{
    let s = a + b;
    lemma_calm_both(esc, a, b);
    lemma_back(esc, a, b, b.len() as int);
    assert forall|i: int| 0 <= i <= s.len() implies #[trigger] depth_at(esc, s, i) >= 0 by {
        if i < a.len() {
            lemma_front(esc, a, b, i);
            assert(depth_at(esc, a, i) >= 0);
        } else {
            lemma_back(esc, a, b, i - a.len());
            assert(depth_at(esc, b, i - a.len()) >= 0);
        }
    }
}

pub proof fn lemma_one(esc: bool, o: char)
    requires
        o == '[' || o == '{',
    ensures
        quotes_at(esc, seq![o], 1) == fresh(),
        depth_at(esc, seq![o], 1) == 1,
{
    assert(quotes_at(esc, seq![o], 0) == fresh());
    assert(depth_at(esc, seq![o], 0) == 0);
    assert(seq![o][0] == o);
}

pub proof fn lemma_in_brackets(esc: bool, o: char, p: Seq<char>, c: char, i: int)
    requires
        o == '[' || o == '{',
        0 <= i <= p.len(),
    ensures
        quotes_at(esc, seq![o] + p + seq![c], 1 + i) == quotes_at(esc, p, i),
        depth_at(esc, seq![o] + p + seq![c], 1 + i) == 1 + depth_at(esc, p, i),
{
    lemma_one(esc, o);
    lemma_front(esc, seq![o] + p, seq![c], 1 + i);
    lemma_back(esc, seq![o], p, i);
}

pub proof fn lemma_bracketed(esc: bool, o: char, p: Seq<char>, c: char)
    requires
        inner_text(esc, p),
        (o == '[' && c == ']') || (o == '{' && c == '}'),
    ensures
        closed_text(esc, seq![o] + p + seq![c]),
{
    let s = seq![o] + p + seq![c];
    let n = p.len() as int;
    lemma_in_brackets(esc, o, p, c, n);
    assert(s[1 + n] == c);
    assert(quotes_at(esc, s, 2 + n) == fresh());
    assert(depth_at(esc, s, 2 + n) == 0);
    assert(s.len() == 2 + n);
    assert forall|i: int| 0 <= i <= s.len() implies #[trigger] depth_at(esc, s, i) >= 0 by {
        if 1 <= i <= n + 1 {
            lemma_in_brackets(esc, o, p, c, i - 1);
            assert(depth_at(esc, p, i - 1) >= 0);
        }
    }
    assert forall|i: int| 0 <= i < s.len() implies !(#[trigger] s[i] == ',' && quotes_at(esc,
        s,
        i,
    ).none() && depth_at(esc, s, i) == 0) by {
        if 1 <= i <= n {
            lemma_in_brackets(esc, o, p, c, i - 1);
            assert(depth_at(esc, p, i - 1) >= 0);
        }
    }
    assert forall|i: int| 0 <= i < s.len() implies #[trigger] s[i] != '\n' && (s[i] == '#'
        ==> !quotes_at(esc, s, i).none()) by {
        if 1 <= i <= n {
            lemma_in_brackets(esc, o, p, c, i - 1);
            assert(s[i] == p[i - 1]);
        }
    }
}

// ---- parts -----------------------------------------------------------------

/// Texts with a comma and a blank before each.
pub open spec fn comma_texts(ps: Seq<Seq<char>>) -> Seq<char>
    decreases ps.len(),
{
    if ps.len() == 0 {
        Seq::empty()
    } else {
        seq![',', ' '] + ps[0] + comma_texts(ps.skip(1))
    }
}

/// Texts with commas between them.
pub open spec fn joined_texts(ps: Seq<Seq<char>>) -> Seq<char> {
    if ps.len() == 0 {
        Seq::empty()
    } else {
        ps[0] + comma_texts(ps.skip(1))
    }
}

pub open spec fn all_closed(esc: bool, ps: Seq<Seq<char>>) -> bool {
    forall|i: int| 0 <= i < ps.len() ==> closed_text(esc, #[trigger] ps[i])
}

pub open spec fn spaced(ps: Seq<Seq<char>>) -> Seq<Seq<char>> {
    ps.map_values(|p: Seq<char>| seq![' '] + p)
}

pub proof fn lemma_space_closed(esc: bool, p: Seq<char>)
    requires
        closed_text(esc, p),
    ensures
        closed_text(esc, seq![' '] + p),
{
    lemma_idle_closed(esc, seq![' ']);
    lemma_closed_both(esc, seq![' '], p);
}

pub proof fn lemma_comma_inner(esc: bool, ps: Seq<Seq<char>>)
    requires
        all_closed(esc, ps),
    ensures
        inner_text(esc, comma_texts(ps)),
    decreases ps.len(),
{
    if ps.len() > 0 {
        let sep = seq![',', ' '];
        assert(closed_text(esc, ps[0]));
        assert forall|i: int| 0 <= i <= sep.len() implies #[trigger] depth_at(esc, sep, i)
            >= 0 by {
            lemma_idle(esc, sep, i);
        }
        lemma_idle(esc, sep, 2);
        assert(inner_text(esc, sep));
        assert forall|i: int| 0 <= i < ps.skip(1).len() implies closed_text(esc, 
            #[trigger] ps.skip(1)[i],
        ) by {
            assert(closed_text(esc, ps[i + 1]));
        }
        lemma_comma_inner(esc, ps.skip(1));
        lemma_inner_both(esc, sep, ps[0]);
        lemma_inner_both(esc, sep + ps[0], comma_texts(ps.skip(1)));
    }
}

pub proof fn lemma_no_separator(esc: bool, p: Seq<char>, r: Seq<char>, i: int)
    requires
        closed_text(esc, p),
        0 <= i <= p.len(),
    ensures
        r.len() > 0 && r[0] == ',' ==> next_separator(esc, p + r, ',', i) == p.len(),
        r.len() == 0 ==> next_separator(esc, p + r, ',', i) == p.len(),
    decreases p.len() - i,
{
    let s = p + r;
    if i < p.len() {
        lemma_front(esc, p, r, i);
        assert(s[i] == p[i]);
        lemma_no_separator(esc, p, r, i + 1);
    } else if r.len() > 0 {
        lemma_front(esc, p, r, i);
        assert(s[i] == r[0]);
    }
}

pub proof fn lemma_separator_place(esc: bool, s: Seq<char>, i: int)
    requires
        0 <= i <= s.len(),
    ensures
        i <= next_separator(esc, s, ',', i) <= s.len(),
    decreases s.len() - i,
{
    if i < s.len() && !separates(esc, s, ',', i) {
        lemma_separator_place(esc, s, i + 1);
    }
}

pub proof fn lemma_shift_separator(esc: bool, a: Seq<char>, b: Seq<char>, i: int)
    requires
        settled(esc, a),
        0 <= i <= b.len(),
    ensures
        next_separator(esc, a + b, ',', a.len() + i) == a.len() + next_separator(esc,
            b,
            ',',
            i,
        ),
    decreases b.len() - i,
{
    if i < b.len() {
        lemma_back(esc, a, b, i);
        assert((a + b)[a.len() + i] == b[i]);
        lemma_shift_separator(esc, a, b, i + 1);
    }
}

pub proof fn lemma_shift_pieces(esc: bool, a: Seq<char>, b: Seq<char>, i: int)
    requires
        settled(esc, a),
        0 <= i <= b.len(),
    ensures
        pieces(esc, a + b, ',', a.len() + i) == pieces(esc, b, ',', i),
    decreases b.len() - i,
{
    lemma_shift_separator(esc, a, b, i);
    lemma_separator_place(esc, b, i);
    let k = next_separator(esc, b, ',', i);
    if k >= b.len() {
        assert((a + b).skip(a.len() + i) =~= b.skip(i));
    } else {
        assert((a + b).subrange(a.len() + i, a.len() + k) =~= b.subrange(i, k));
        lemma_shift_pieces(esc, a, b, k + 1);
    }
}

/// The parts between the commas are the texts that were joined.
pub proof fn lemma_pieces(esc: bool, q: Seq<char>, ps: Seq<Seq<char>>)
    requires
        closed_text(esc, q),
        all_closed(esc, ps),
    ensures
        pieces(esc, q + comma_texts(ps), ',', 0) == seq![q] + spaced(ps),
    decreases ps.len(),
{
    let r = comma_texts(ps);
    let s = q + r;
    lemma_no_separator(esc, q, r, 0);
    if ps.len() == 0 {
        assert(s =~= q);
        assert(s.skip(0) =~= q);
        assert(seq![q] + spaced(ps) =~= seq![q]);
    } else {
        assert(closed_text(esc, ps[0]));
        assert(r[0] == ',');
        let rest = ps.skip(1);
        assert forall|i: int| 0 <= i < rest.len() implies closed_text(esc, #[trigger] rest[i]) by {
            assert(closed_text(esc, ps[i + 1]));
        }
        let next = seq![' '] + ps[0];
        lemma_space_closed(esc, ps[0]);
        let a = q + seq![','];
        let tail = next + comma_texts(rest);
        assert(s =~= a + tail);
        assert(quotes_at(esc, a, a.len() as int) == fresh() && depth_at(esc, a, a.len() as int)
            == 0) by {
            lemma_front(esc, q, seq![','], q.len() as int);
            assert(a[q.len() as int] == ',');
        }
        lemma_shift_pieces(esc, a, tail, 0);
        lemma_pieces(esc, next, rest);
        assert(s.subrange(0, q.len() as int) =~= q);
        assert(seq![q] + (seq![next] + spaced(rest)) =~= seq![q] + spaced(ps));
    }
}

} // verus!
