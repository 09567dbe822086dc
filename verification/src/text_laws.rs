//! What is done to texts: trimming, cutting, splitting, joining and comparing.
use vstd::prelude::*;

use crate::keycodes::{key_of_char, key_of_code};
use crate::order::text_less;
use crate::strutil::{ascii_lower, ascii_upper, left_of, lower_of, mid_of, right_of, upper_of};
use crate::text::{
    is_space, joined, lemma_next_index, next_index, split_at, trimmed, trimmed_end, trimmed_start,
};

verus! {

// ---- trimming --------------------------------------------------------------

pub open spec fn all_blank(p: Seq<char>) -> bool {
    forall|i: int| 0 <= i < p.len() ==> is_space(#[trigger] p[i])
}

proof fn lemma_blank_start(p: Seq<char>, x: Seq<char>)
    requires
        all_blank(p),
        x.len() > 0 ==> !is_space(x[0]),
    ensures
        trimmed_start(p + x) == x,
    decreases p.len(),
{
    if p.len() == 0 {
        assert(p + x =~= x);
    } else {
        let rest = p.skip(1);
        assert(is_space(p[0]));
        assert forall|i: int| 0 <= i < rest.len() implies is_space(#[trigger] rest[i]) by {
            assert(is_space(p[i + 1]));
        }
        assert((p + x).skip(1) =~= rest + x);
        lemma_blank_start(rest, x);
    }
}

proof fn lemma_blank_end(x: Seq<char>, q: Seq<char>)
    requires
        all_blank(q),
        x.len() > 0 ==> !is_space(x.last()),
    ensures
        trimmed_end(x + q) == x,
    decreases q.len(),
{
    if q.len() == 0 {
        assert(x + q =~= x);
    } else {
        let front = q.drop_last();
        assert(is_space(q[q.len() - 1]));
        assert forall|i: int| 0 <= i < front.len() implies is_space(#[trigger] front[i]) by {
            assert(is_space(q[i]));
        }
        assert((x + q).drop_last() =~= x + front);
        assert((x + q).last() == q.last());
        lemma_blank_end(x, front);
    }
}

/// Trimming takes the blanks at both ends and nothing else.
pub proof fn trimming_takes_the_ends(p: Seq<char>, x: Seq<char>, q: Seq<char>)
    requires
        all_blank(p),
        all_blank(q),
        x.len() > 0,
        !is_space(x[0]),
        !is_space(x.last()),
    ensures
        trimmed(p + x + q) == x,
        trimmed_start(p + x + q) == x + q,
        trimmed_end(p + x + q) == p + x,
{
    assert(p + x + q =~= p + (x + q));
    assert((x + q)[0] == x[0]);
    lemma_blank_start(p, x + q);
    lemma_blank_end(x, q);
    assert((p + x).last() == x.last());
    lemma_blank_end(p + x, q);
}

// ---- splitting and joining -------------------------------------------------

/// The parts of a text hold no separator, and joined by it they are the text.
pub proof fn parts_make_the_text(s: Seq<char>, c: char)
    ensures
        joined(split_at(s, c), seq![c]) == s,
        split_at(s, c).len() > 0,
        forall|i: int| 0 <= i < split_at(s, c).len() ==> !(#[trigger] split_at(s, c)[i]).contains(c),
    decreases s.len(),
{
    let k = next_index(s, c, 0);
    lemma_next_index(s, c, 0);
    let ps = split_at(s, c);
    if k >= s.len() {
        lemma_none(s, c, 0);
    } else {
        let rest = s.skip(k + 1);
        parts_make_the_text(rest, c);
        let more = split_at(rest, c);
        assert(ps == seq![s.take(k)] + more);
        lemma_joined_front(s.take(k), more, seq![c]);
        assert(s.take(k) + seq![c] + rest =~= s);
        assert forall|i: int| 0 <= i < ps.len() implies !(#[trigger] ps[i]).contains(c) by {
            if i == 0 {
                lemma_before(s, c, 0);
            } else {
                assert(ps[i] == more[i - 1]);
            }
        }
    }
}

proof fn lemma_none(s: Seq<char>, c: char, i: int)
    requires
        0 <= i <= s.len(),
        next_index(s, c, i) >= s.len(),
    ensures
        forall|k: int| i <= k < s.len() ==> s[k] != c,
    decreases s.len() - i,
{
    if i < s.len() {
        lemma_next_index(s, c, i + 1);
        lemma_none(s, c, i + 1);
    }
}

proof fn lemma_before(s: Seq<char>, c: char, i: int)
    requires
        0 <= i <= s.len(),
    ensures
        forall|k: int| i <= k < next_index(s, c, i) ==> s[k] != c,
    decreases s.len() - i,
{
    if i < s.len() && s[i] != c {
        lemma_before(s, c, i + 1);
    }
}

proof fn lemma_joined_front(p: Seq<char>, more: Seq<Seq<char>>, sep: Seq<char>)
    requires
        more.len() > 0,
    ensures
        joined(seq![p] + more, sep) == p + sep + joined(more, sep),
    decreases more.len(),
{
    let all = seq![p] + more;
    assert(all.last() == more.last());
    if more.len() == 1 {
        assert(all.drop_last() =~= seq![p]);
        assert(joined(seq![p], sep) == p);
        assert(joined(all, sep) =~= p + sep + joined(more, sep));
    } else {
        assert(all.drop_last() =~= seq![p] + more.drop_last());
        lemma_joined_front(p, more.drop_last(), sep);
        assert(joined(all, sep) =~= p + sep + joined(more, sep));
    }
}

/// Texts without the separator, joined by it, are split into the same texts.
pub proof fn joined_texts_split_back(ps: Seq<Seq<char>>, c: char)
    requires
        ps.len() > 0,
        forall|i: int| 0 <= i < ps.len() ==> !(#[trigger] ps[i]).contains(c),
    ensures
        split_at(joined(ps, seq![c]), c) == ps,
    decreases ps.len(),
{
    let p = ps[0];
    assert(!p.contains(c));
    if ps.len() == 1 {
        assert(next_index(p, c, 0) == p.len()) by {
            lemma_next_index(p, c, 0);
            let k = next_index(p, c, 0);
            if k < p.len() {
                assert(p.contains(p[k]));
            }
        }
        assert(ps =~= seq![p]);
    } else {
        let rest = ps.skip(1);
        assert forall|i: int| 0 <= i < rest.len() implies !(#[trigger] rest[i]).contains(c) by {
            assert(!ps[i + 1].contains(c));
        }
        joined_texts_split_back(rest, c);
        assert(seq![p] + rest =~= ps);
        lemma_joined_front(p, rest, seq![c]);
        let tail = joined(rest, seq![c]);
        let s = p + seq![c] + tail;
        lemma_first(p, c, tail, 0);
        assert(s.take(p.len() as int) =~= p);
        assert(s.skip(p.len() as int + 1) =~= tail);
    }
}

proof fn lemma_first(p: Seq<char>, c: char, r: Seq<char>, i: int)
    requires
        !p.contains(c),
        0 <= i <= p.len(),
    ensures
        next_index(p + seq![c] + r, c, i) == p.len(),
    decreases p.len() - i,
{
    let s = p + seq![c] + r;
    if i < p.len() {
        assert(s[i] == p[i]);
        assert(p.contains(p[i]));
        lemma_first(p, c, r, i + 1);
    } else {
        assert(s[i] == c);
    }
}

// ---- cutting ---------------------------------------------------------------

/// A part is cut where it is asked for, as far as the text goes: from the left, from
/// the right, or from the middle; a negative length cuts nothing, and a negative
/// offset counts as none.
pub proof fn parts_are_cut_where_asked(s: Seq<char>, offset: int, length: int)
    ensures
        0 <= length <= s.len() ==> left_of(s, length) == s.subrange(0, length) && right_of(s, length)
            == s.subrange(s.len() - length, s.len() as int),
        length > s.len() ==> left_of(s, length) == s && right_of(s, length) == s,
        length <= 0 ==> left_of(s, length).len() == 0 && right_of(s, length).len() == 0 && mid_of(
            s,
            offset,
            length,
        ).len() == 0,
        0 <= offset && 0 <= length && offset + length <= s.len() ==> mid_of(s, offset, length)
            == s.subrange(offset, offset + length),
        0 <= offset <= s.len() && offset + length > s.len() ==> mid_of(s, offset, length) == s.skip(
            offset,
        ),
        offset < 0 ==> mid_of(s, offset, length) == left_of(s, length),
        offset >= s.len() ==> mid_of(s, offset, length).len() == 0,
{
    if 0 <= offset <= s.len() && 0 <= length {
        let t = s.skip(offset);
        if offset + length <= s.len() {
            assert(t.take(length) =~= s.subrange(offset, offset + length));
        } else {
            assert(t.take(t.len() as int) =~= t);
        }
    }
    assert(s.take(s.len() as int) =~= s);
    assert(s.skip(0) =~= s);
    if 0 <= length <= s.len() {
        assert(s.take(length) =~= s.subrange(0, length));
    }
}

// ---- letters ---------------------------------------------------------------

/// Only letters have a case: each capital has its small letter 32 further on, and
/// each small letter its capital.
pub proof fn letters_have_their_case(c: char)
    ensures
        'A' <= c <= 'Z' ==> ascii_lower(c) as u32 == c as u32 + 32 && ascii_upper(ascii_lower(c))
            == c,
        'a' <= c <= 'z' ==> ascii_upper(c) as u32 == c as u32 - 32 && ascii_lower(ascii_upper(c))
            == c,
        !('A' <= c <= 'Z') ==> ascii_lower(c) == c,
        !('a' <= c <= 'z') ==> ascii_upper(c) == c,
{
}

pub open spec fn all_ascii(s: Seq<char>) -> bool {
    forall|i: int| 0 <= i < s.len() ==> (#[trigger] s[i] as u32) < 128
}

/// A text of ASCII characters is lowered and raised letter by letter.
pub proof fn texts_are_lowered_letter_by_letter(s: Seq<char>)
    requires
        all_ascii(s),
    ensures
        lower_of(s) == s.map_values(|c: char| ascii_lower(c)),
        upper_of(s) == s.map_values(|c: char| ascii_upper(c)),
    decreases s.len(),
{
    let low = s.map_values(|c: char| ascii_lower(c));
    let up = s.map_values(|c: char| ascii_upper(c));
    if s.len() == 0 {
        assert(low =~= Seq::empty());
        assert(up =~= Seq::empty());
    } else {
        let front = s.drop_last();
        assert forall|i: int| 0 <= i < front.len() implies (#[trigger] front[i] as u32) < 128 by {
            assert((s[i] as u32) < 128);
        }
        texts_are_lowered_letter_by_letter(front);
        assert((s[s.len() - 1] as u32) < 128);
        assert(front.map_values(|c: char| ascii_lower(c)) + seq![ascii_lower(s.last())] =~= low);
        assert(front.map_values(|c: char| ascii_upper(c)) + seq![ascii_upper(s.last())] =~= up);
    }
}

// ---- comparing -------------------------------------------------------------

/// Texts are compared at the first place where they differ; a text comes before
/// every longer one that starts with it.
pub proof fn texts_are_compared_where_they_differ(p: Seq<char>, a: Seq<char>, b: Seq<char>)
    ensures
        a.len() > 0 && b.len() > 0 && a[0] != b[0] ==> text_less(p + a, p + b) == (a[0]
            < b[0]),
        a.len() == 0 && b.len() > 0 ==> text_less(p + a, p + b) && !text_less(p + b, p + a),
        !text_less(p, p),
    decreases p.len(),
{
    if p.len() == 0 {
        assert(p + a =~= a);
        assert(p + b =~= b);
    } else {
        let rest = p.skip(1);
        texts_are_compared_where_they_differ(rest, a, b);
        assert((p + a).skip(1) =~= rest + a);
        assert((p + b).skip(1) =~= rest + b);
        assert((p + a)[0] == p[0] && (p + b)[0] == p[0]);
    }
}

// ---- keys ------------------------------------------------------------------

/// The keys that are known by their code: the arrows, the keys that edit, and the
/// first four function keys; any other is no key.
pub proof fn keys_have_their_codes(code: int)
    ensures
        key_of_code(123) == 37 && key_of_code(126) == 38 && key_of_code(124) == 39 && key_of_code(
            125,
        ) == 40,
        key_of_code(36) == 13 && key_of_code(48) == 9 && key_of_code(51) == 8 && key_of_code(53)
            == 27 && key_of_code(49) == 32,
        key_of_code(122) == 112 && key_of_code(120) == 113 && key_of_code(99) == 114
            && key_of_code(118) == 115,
        !(code == 123 || code == 126 || code == 124 || code == 125 || code == 36 || code == 48
            || code == 51 || code == 53 || code == 49 || code == 122 || code == 120 || code == 99
            || code == 118) ==> key_of_code(code) == 0,
{
}

/// A letter is the key of its capital, a figure and the blank are keys themselves,
/// and no other character is a key.
pub proof fn characters_are_keys(c: char)
    ensures
        'A' <= c <= 'Z' || '0' <= c <= '9' || c == ' ' ==> key_of_char(c) == Some(c as int),
        'a' <= c <= 'z' ==> key_of_char(c) == key_of_char(ascii_upper(c)),
        !('A' <= c <= 'Z' || 'a' <= c <= 'z' || '0' <= c <= '9' || c == ' ') ==> key_of_char(c)
            is None,
{
}

} // verus!
