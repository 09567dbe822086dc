//! What a tweak document in tables says: every value that is written, with its
//! quotes, escapes and brackets, is read back as that value.
use vstd::prelude::*;

use crate::documents::{plain, plain_char, undotted};
use crate::modconfig::{lines_read_back, one_line, unlines, without_cr};
use crate::node::{key_index, list_node, map_node, scalar_node, NodeV};
use crate::scan::{depth_at, next_separator, quotes_at, Quotes};
use crate::scan_laws::{
    all_closed, calm, closed_text, comma_texts, fresh, idle, inner_text, joined_texts,
    lemma_bracketed, lemma_closed_both, lemma_comma_inner, lemma_front, lemma_idle_closed,
    lemma_inner_both, lemma_pieces, settled, spaced,
};
use crate::text::{drop_cr, is_space, trimmed, trimmed_end, trimmed_start};
use crate::toml::{
    add_field, code_of, comma_parts, document, fields, header_name, is_date, is_time, key_name,
    key_value, nonblank, run_statements, scan_code, statement, statements_from, unescaped, unquoted,
    value, values, CodeV, DocV,
};

verus! {

// ---- escapes ---------------------------------------------------------------

/// How a character is written between double quotes.
pub open spec fn escape(c: char) -> Seq<char> {
    if c == '\n' {
        seq!['\\', 'n']
    } else if c == '\t' {
        seq!['\\', 't']
    } else if c == '\r' {
        seq!['\\', 'r']
    } else if c == '"' {
        seq!['\\', '"']
    } else if c == '\\' {
        seq!['\\', '\\']
    } else {
        seq![c]
    }
}

pub open spec fn escaped(s: Seq<char>) -> Seq<char>
    decreases s.len(),
{
    if s.len() == 0 {
        Seq::empty()
    } else {
        escape(s[0]) + escaped(s.skip(1))
    }
}

/// Every text that is written with its escapes is read back: line breaks, tabs,
/// carriage returns, quotes and backslashes too.
pub proof fn escapes_read_back(s: Seq<char>)
    ensures
        unescaped(escaped(s)) == s,
    decreases s.len(),
{
    if s.len() > 0 {
        let rest = s.skip(1);
        let e = escaped(s);
        let m = escaped(rest);
        escapes_read_back(rest);
        assert(seq![s[0]] + rest =~= s);
        if escape(s[0]).len() == 1 {
            assert(e[0] == s[0]);
            assert(e.skip(1) =~= m);
        } else {
            assert(e[0] == '\\');
            assert(e[1] == escape(s[0])[1]);
            assert(e.skip(2) =~= m);
        }
    } else {
        assert(s =~= Seq::empty());
    }
}

/// Other escapes stay as they are written.
pub proof fn other_escapes_stay(c: char, s: Seq<char>)
    requires
        c != 'n' && c != 't' && c != 'r' && c != '"' && c != '\\',
    ensures
        unescaped(seq!['\\', c] + s) == seq!['\\', c] + unescaped(s),
{
    assert((seq!['\\', c] + s).skip(2) =~= s);
}

pub open spec fn basic_text(s: Seq<char>) -> Seq<char> {
    seq!['"'] + escaped(s) + seq!['"']
}

pub open spec fn literal_text(s: Seq<char>) -> Seq<char> {
    seq!['\''] + s + seq!['\'']
}

proof fn lemma_no_break(s: Seq<char>)
    ensures
        forall|i: int| 0 <= i < escaped(s).len() ==> #[trigger] escaped(s)[i] != '\n',
    decreases s.len(),
{
    if s.len() > 0 {
        let e = escaped(s);
        let f = escape(s[0]);
        let m = escaped(s.skip(1));
        lemma_no_break(s.skip(1));
        assert forall|i: int| 0 <= i < e.len() implies #[trigger] e[i] != '\n' by {
            if i < f.len() {
                assert(e[i] == f[i]);
            } else {
                assert(e[i] == m[i - f.len()]);
            }
        }
    }
}

spec fn in_double() -> Quotes {
    Quotes { single: false, double: true, held: false }
}

/// Inside the quotes, escapes do not end them.
proof fn lemma_in_basic(front: Seq<char>, s: Seq<char>, back: Seq<char>)
    requires
        quotes_at(true, front, front.len() as int) == in_double(),
        depth_at(true, front, front.len() as int) == 0,
    ensures
        quotes_at(true, front + escaped(s) + back, (front + escaped(s)).len() as int)
            == in_double(),
        forall|i: int|
            front.len() <= i <= front.len() + escaped(s).len() ==> {
                &&& (#[trigger] quotes_at(true, front + escaped(s) + back, i)).double
                &&& depth_at(true, front + escaped(s) + back, i) == 0
            },
    decreases s.len(),
{
    let all = front + escaped(s) + back;
    let n = front.len() as int;
    assert(all =~= front + (escaped(s) + back));
    lemma_front(true, front, escaped(s) + back, n);
    if s.len() > 0 {
        let f = escape(s[0]);
        let m = escaped(s.skip(1));
        let next = front + f;
        assert(all =~= next + m + back);
        assert((next + m).len() == (front + escaped(s)).len());
        assert(all[n] == f[0]);
        let q1 = quotes_at(true, all, n + 1);
        assert(depth_at(true, all, n + 1) == 0);
        if f.len() == 1 {
            assert(q1 == in_double());
        } else {
            assert(q1 == (Quotes { single: false, double: true, held: true }));
            assert(quotes_at(true, all, n + 2) == in_double());
            assert(depth_at(true, all, n + 2) == 0);
        }
        lemma_front(true, next, m + back, next.len() as int);
        assert(all =~= next + (m + back));
        lemma_in_basic(next, s.skip(1), back);
        assert forall|i: int| n <= i <= n + escaped(s).len() implies {
            &&& (#[trigger] quotes_at(true, all, i)).double
            &&& depth_at(true, all, i) == 0
        } by {
            if i >= next.len() {
                assert(quotes_at(true, next + m + back, i).double);
            } else if i == n + 1 {
                assert(q1.double);
            }
        }
    } else {
        assert(front + escaped(s) =~= front);
    }
}

proof fn lemma_basic_closed(s: Seq<char>)
    ensures
        closed_text(true, basic_text(s)),
{
    let t = basic_text(s);
    let front = seq!['"'];
    let n = escaped(s).len() as int;
    assert(quotes_at(true, front, 0) == fresh());
    assert(depth_at(true, front, 0) == 0);
    assert(front[0] == '"');
    assert(quotes_at(true, front, 1) == in_double());
    assert(depth_at(true, front, 1) == 0);
    lemma_in_basic(front, s, seq!['"']);
    lemma_no_break(s);
    assert((front + escaped(s)).len() == 1 + n);
    assert(t[1 + n] == '"');
    assert(quotes_at(true, t, 1 + n) == in_double());
    assert(depth_at(true, t, 1 + n) == 0) by {
        assert(quotes_at(true, front + escaped(s) + seq!['"'], 1 + n).double);
    }
    assert(quotes_at(true, t, 2 + n) == fresh());
    assert(depth_at(true, t, 2 + n) == 0);
    assert forall|i: int| 0 <= i <= t.len() implies #[trigger] depth_at(true, t, i) >= 0 by {
        if 1 <= i <= n + 1 {
            assert(quotes_at(true, front + escaped(s) + seq!['"'], i).double);
        }
    }
    assert forall|i: int| 0 <= i < t.len() implies !(#[trigger] t[i] == ',' && quotes_at(
        true,
        t,
        i,
    ).none() && depth_at(true, t, i) == 0) && t[i] != '\n' && (t[i] == '#' ==> !quotes_at(
        true,
        t,
        i,
    ).none()) by {
        if 1 <= i <= n {
            assert(quotes_at(true, front + escaped(s) + seq!['"'], i).double);
            assert(t[i] == escaped(s)[i - 1]);
        }
    }
}

proof fn lemma_in_literal(s: Seq<char>, i: int)
    requires
        !s.contains('\''),
        1 <= i <= s.len() + 1,
    ensures
        quotes_at(true, literal_text(s), i) == (Quotes { single: true, double: false, held: false }),
        depth_at(true, literal_text(s), i) == 0,
    decreases i,
{
    let t = literal_text(s);
    if i > 1 {
        lemma_in_literal(s, i - 1);
        assert(t[i - 1] == s[i - 2]);
        assert(s.contains(s[i - 2]));
    } else {
        assert(quotes_at(true, t, 0) == fresh());
        assert(depth_at(true, t, 0) == 0);
        assert(t[0] == '\'');
    }
}

proof fn lemma_literal_closed(s: Seq<char>)
    requires
        !s.contains('\''),
        !s.contains('\n'),
    ensures
        closed_text(true, literal_text(s)),
{
    let t = literal_text(s);
    let n = s.len() as int;
    lemma_in_literal(s, n + 1);
    assert(t[n + 1] == '\'');
    assert(quotes_at(true, t, n + 2) == fresh());
    assert(depth_at(true, t, n + 2) == 0);
    assert forall|i: int| 0 <= i <= t.len() implies #[trigger] depth_at(true, t, i) >= 0 by {
        if 1 <= i <= n + 1 {
            lemma_in_literal(s, i);
        }
    }
    assert forall|i: int| 0 <= i < t.len() implies !(#[trigger] t[i] == ',' && quotes_at(
        true,
        t,
        i,
    ).none() && depth_at(true, t, i) == 0) && t[i] != '\n' && (t[i] == '#' ==> !quotes_at(
        true,
        t,
        i,
    ).none()) by {
        if 1 <= i <= n {
            lemma_in_literal(s, i);
            assert(t[i] == s[i - 1]);
            assert(s.contains(s[i - 1]));
        }
    }
}

// ---- values ----------------------------------------------------------------

/// A value: a bare word, a text with escapes, a text as it stands, an array, a table,
/// or a value with its tag.
pub enum TomlV {
    Word(Seq<char>),
    Basic(Seq<char>),
    Literal(Seq<char>),
    Array(Seq<TomlV>),
    Table(Seq<PairV>),
    Tagged { tag: Seq<char>, value: Box<TomlV> },
}

pub struct PairV {
    pub key: Seq<char>,
    pub value: TomlV,
}

/// A bare word: characters that mean nothing but themselves, a dash before them
/// perhaps.
pub open spec fn is_word(s: Seq<char>) -> bool {
    plain(s) || (s.len() > 1 && s[0] == '-' && plain(s.skip(1)))
}

pub open spec fn is_toml(v: TomlV) -> bool
    decreases v,
{
    match v {
        TomlV::Word(s) => is_word(s),
        TomlV::Basic(s) => true,
        TomlV::Literal(s) => !s.contains('\'') && !s.contains('\n'),
        TomlV::Array(xs) => forall|i: int| 0 <= i < xs.len() ==> is_toml(#[trigger] xs[i]),
        TomlV::Table(ps) => forall|i: int| 0 <= i < ps.len() ==> is_pair(#[trigger] ps[i]),
        TomlV::Tagged { tag, value } => tag.len() > 0 && tag[0] == '!' && !tag.contains('"')
            && !tag.contains('\\') && !tag.contains('\n') && !tag.contains('=') && is_toml(*value)
            && !(value.untagged() is Array),
    }
}

pub open spec fn is_pair(p: PairV) -> bool
    decreases p,
{
    plain(p.key) && undotted(p.key) && is_toml(p.value)
}

pub open spec fn toml_text(v: TomlV) -> Seq<char>
    decreases v,
{
    match v {
        TomlV::Word(s) => s,
        TomlV::Basic(s) => basic_text(s),
        TomlV::Literal(s) => literal_text(s),
        TomlV::Array(xs) => seq!['['] + joined_texts(toml_texts(xs)) + seq![']'],
        TomlV::Table(ps) => seq!['{'] + joined_texts(pair_texts(ps)) + seq!['}'],
        TomlV::Tagged { tag, value } => seq!['{'] + (seq!['"'] + tag + seq!['"'] + seq![
            ' ',
            '=',
            ' ',
        ] + toml_text(*value)) + seq!['}'],
    }
}

pub open spec fn toml_texts(xs: Seq<TomlV>) -> Seq<Seq<char>>
    decreases xs,
{
    Seq::new(
        xs.len(),
        |i: int|
            if 0 <= i < xs.len() {
                toml_text(xs[i])
            } else {
                Seq::empty()
            },
    )
}

pub open spec fn pair_text(p: PairV) -> Seq<char>
    decreases p,
{
    p.key + seq![' ', '=', ' '] + toml_text(p.value)
}

pub open spec fn pair_texts(ps: Seq<PairV>) -> Seq<Seq<char>>
    decreases ps,
{
    Seq::new(
        ps.len(),
        |i: int|
            if 0 <= i < ps.len() {
                pair_text(ps[i])
            } else {
                Seq::empty()
            },
    )
}

pub open spec fn toml_node(v: TomlV) -> NodeV
    decreases v,
{
    match v {
        TomlV::Word(s) => scalar_node(s),
        TomlV::Basic(s) => scalar_node(s),
        TomlV::Literal(s) => scalar_node(s),
        TomlV::Array(xs) => list_node(toml_nodes(xs)),
        TomlV::Table(ps) => map_node(pair_nodes(ps)),
        TomlV::Tagged { tag, value } => NodeV { tag: Some(tag), kind: toml_node(*value).kind },
    }
}

pub open spec fn toml_nodes(xs: Seq<TomlV>) -> Seq<NodeV>
    decreases xs,
{
    Seq::new(
        xs.len(),
        |i: int|
            if 0 <= i < xs.len() {
                toml_node(xs[i])
            } else {
                arbitrary()
            },
    )
}

pub open spec fn pair_node(p: PairV) -> (Seq<char>, NodeV)
    decreases p,
{
    (p.key, toml_node(p.value))
}

pub open spec fn pair_nodes(ps: Seq<PairV>) -> Seq<(Seq<char>, NodeV)>
    decreases ps,
{
    Seq::new(
        ps.len(),
        |i: int|
            if 0 <= i < ps.len() {
                pair_node(ps[i])
            } else {
                arbitrary()
            },
    )
}

spec fn firm(s: Seq<char>) -> bool {
    s.len() > 0 && !is_space(s[0]) && !is_space(s.last())
}

proof fn lemma_firm(s: Seq<char>)
    requires
        firm(s),
    ensures
        trimmed_start(s) == s,
        trimmed_end(s) == s,
        trimmed(s) == s,
        trimmed(seq![' '] + s) == s,
{
    let t = seq![' '] + s;
    assert(t[0] == ' ');
    assert(t.skip(1) =~= s);
    assert(trimmed_start(t) == trimmed_start(t.skip(1)));
}

proof fn lemma_word(s: Seq<char>)
    requires
        is_word(s),
    ensures
        closed_text(true, s),
        firm(s),
        value(s) == Ok::<NodeV, Seq<char>>(scalar_node(s)),
{
    assert forall|k: int| 0 <= k < s.len() implies plain_char(#[trigger] s[k]) || (k == 0 && s[k]
        == '-') by {
        if !plain(s) && k > 0 {
            assert(plain_char(s.skip(1)[k - 1]));
        }
    }
    assert forall|k: int| 0 <= k < s.len() implies idle(#[trigger] s[k]) && s[k] != ',' && s[k]
        != '#' && s[k] != '\n' by {
        assert(plain_char(s[k]) || (k == 0 && s[k] == '-'));
        if s[k] == '\n' {
            assert(is_space('\n'));
        }
    }
    lemma_idle_closed(true, s);
    assert(plain_char(s[0]) || s[0] == '-');
    assert(plain_char(s[s.len() - 1]) || s.len() == 1);
    lemma_firm(s);
    if is_date(s) {
        assert(plain_char(s[4]));
    }
    if is_time(s) {
        assert(plain_char(s[2]));
    }
}

/// A text between quotes is read as that text: with its escapes resolved between
/// double quotes, as it stands between single ones.
pub proof fn quoted_texts_read_back(s: Seq<char>)
    ensures
        value(basic_text(s)) == Ok::<NodeV, Seq<char>>(scalar_node(s)),
        unquoted(basic_text(s)) == s,
        !(s.len() > 0 && s[0] == '\'') ==> value(literal_text(s)) == Ok::<NodeV, Seq<char>>(
            scalar_node(s),
        ),
        unquoted(literal_text(s)) == s,
{
    let b = basic_text(s);
    let l = literal_text(s);
    lemma_firm(b);
    lemma_firm(l);
    assert(b.subrange(1, b.len() - 1) =~= escaped(s));
    assert(l.subrange(1, l.len() - 1) =~= s);
    escapes_read_back(s);
    if escaped(s).len() > 0 {
        assert(b[1] == escaped(s)[0]);
        assert(s.len() > 0);
        assert(escaped(s)[0] == escape(s[0])[0]);
        assert(escape(s[0])[0] != '"');
    } else {
        assert(b.len() == 2);
    }
    if s.len() > 0 {
        assert(l[1] == s[0]);
    } else {
        assert(l.len() == 2);
    }
}

spec fn toml_ok(v: TomlV) -> bool {
    &&& closed_text(true, toml_text(v))
    &&& firm(toml_text(v))
    &&& value(toml_text(v)) == Ok::<NodeV, Seq<char>>(toml_node(v))
}

spec fn pair_ok(p: PairV) -> bool {
    let t = pair_text(p);
    &&& closed_text(true, t)
    &&& firm(t)
    &&& key_value(t) is Ok
    &&& (key_value(t)->Ok_0).0 == p.key
    &&& trimmed((key_value(t)->Ok_0).1) == toml_text(p.value)
    &&& value(toml_text(p.value)) == Ok::<NodeV, Seq<char>>(toml_node(p.value))
}

proof fn lemma_values(xs: Seq<TomlV>)
    requires
        forall|i: int| 0 <= i < xs.len() ==> toml_ok(#[trigger] xs[i]),
    ensures
        values(toml_texts(xs)) == Ok::<Seq<NodeV>, Seq<char>>(toml_nodes(xs)),
    decreases xs.len(),
{
    let ps = toml_texts(xs);
    if xs.len() == 0 {
        assert(toml_nodes(xs) =~= Seq::empty());
    } else {
        let rest = xs.skip(1);
        assert(toml_ok(xs[0]));
        assert forall|i: int| 0 <= i < rest.len() implies toml_ok(#[trigger] rest[i]) by {
            assert(toml_ok(xs[i + 1]));
        }
        lemma_values(rest);
        assert(ps.skip(1) =~= toml_texts(rest));
        assert(seq![toml_node(xs[0])] + toml_nodes(rest) =~= toml_nodes(xs));
    }
}

proof fn lemma_pairs(xs: Seq<PairV>)
    requires
        forall|i: int| 0 <= i < xs.len() ==> pair_ok(#[trigger] xs[i]),
    ensures
        fields(pair_texts(xs)) == Ok::<Seq<(Seq<char>, NodeV)>, Seq<char>>(pair_nodes(xs)),
    decreases xs.len(),
{
    let ps = pair_texts(xs);
    if xs.len() == 0 {
        assert(pair_nodes(xs) =~= Seq::empty());
    } else {
        let rest = xs.skip(1);
        assert(pair_ok(xs[0]));
        assert forall|i: int| 0 <= i < rest.len() implies pair_ok(#[trigger] rest[i]) by {
            assert(pair_ok(xs[i + 1]));
        }
        lemma_pairs(rest);
        assert(ps.skip(1) =~= pair_texts(rest));
        assert(seq![pair_node(xs[0])] + pair_nodes(rest) =~= pair_nodes(xs));
    }
}

spec fn all_firm(ps: Seq<Seq<char>>) -> bool {
    forall|i: int| 0 <= i < ps.len() ==> firm(#[trigger] ps[i])
}

proof fn lemma_nonblank(q: Seq<char>, ps: Seq<Seq<char>>)
    requires
        firm(q),
        all_firm(ps),
    ensures
        nonblank(seq![q] + spaced(ps)) == seq![q] + ps,
    decreases ps.len(),
{
    let all = seq![q] + spaced(ps);
    if ps.len() == 0 {
        assert(all =~= seq![q]);
        assert(all.drop_last() =~= Seq::empty());
        assert(all.last() == q);
        lemma_firm(q);
        assert(nonblank(Seq::<Seq<char>>::empty()) =~= Seq::empty());
        assert(nonblank(all) =~= seq![q]);
        assert(seq![q] + ps =~= seq![q]);
    } else {
        let front = ps.drop_last();
        assert(firm(ps[ps.len() - 1]));
        assert forall|i: int| 0 <= i < front.len() implies firm(#[trigger] front[i]) by {
            assert(firm(ps[i]));
        }
        lemma_nonblank(q, front);
        assert(all.drop_last() =~= seq![q] + spaced(front));
        assert(all.last() == seq![' '] + ps.last());
        lemma_firm(ps.last());
        assert((seq![q] + front).push(ps.last()) =~= seq![q] + ps);
    }
}

proof fn lemma_comma_parts(ps: Seq<Seq<char>>)
    requires
        all_closed(true, ps),
        all_firm(ps),
    ensures
        comma_parts(joined_texts(ps)) == Ok::<Seq<Seq<char>>, Seq<char>>(ps),
        inner_text(true, joined_texts(ps)),
{
    let none = Seq::<char>::empty();
    lemma_idle_closed(true, none);
    if ps.len() == 0 {
        lemma_pieces(true, none, Seq::empty());
        assert(none + comma_texts(Seq::empty()) =~= none);
        assert(seq![none] + spaced(Seq::empty()) =~= seq![none]);
        assert(trimmed(none) =~= none);
        assert(seq![none].drop_last() =~= Seq::empty());
        assert(nonblank(Seq::<Seq<char>>::empty()) =~= Seq::empty());
        assert(seq![none].last() == none);
        assert(nonblank(seq![none]) =~= ps);
    } else {
        let rest = ps.skip(1);
        assert(closed_text(true, ps[0]));
        assert(firm(ps[0]));
        assert forall|i: int| 0 <= i < rest.len() implies closed_text(true, #[trigger] rest[i]) by {
            assert(closed_text(true, ps[i + 1]));
        }
        assert forall|i: int| 0 <= i < rest.len() implies firm(#[trigger] rest[i]) by {
            assert(firm(ps[i + 1]));
        }
        lemma_pieces(true, ps[0], rest);
        lemma_comma_inner(true, rest);
        lemma_inner_both(true, ps[0], comma_texts(rest));
        lemma_nonblank(ps[0], rest);
        assert(seq![ps[0]] + rest =~= ps);
    }
}

proof fn lemma_enclosed(o: char, p: Seq<char>, c: char)
    requires
        (o == '[' && c == ']') || (o == '{' && c == '}'),
    ensures
        ({
            let s = seq![o] + p + seq![c];
            &&& firm(s)
            &&& s[0] == o
            &&& s.last() == c
            &&& s.subrange(1, s.len() - 1) == p
        }),
{
    let s = seq![o] + p + seq![c];
    assert(s.subrange(1, s.len() - 1) =~= p);
}

/// The equals sign behind a key.
proof fn lemma_equals(k: Seq<char>, v: Seq<char>, i: int)
    requires
        closed_text(true, k),
        !k.contains('='),
        0 <= i <= k.len() + 1,
    ensures
        next_separator(true, k + seq![' ', '=', ' '] + v, '=', i) == k.len() + 1,
    decreases k.len() + 1 - i,
{
    let s = k + seq![' ', '=', ' '] + v;
    assert(s =~= k + (seq![' ', '=', ' '] + v));
    if i < k.len() {
        assert(s[i] == k[i]);
        assert(k.contains(k[i]));
        lemma_equals(k, v, i + 1);
    } else if i == k.len() {
        assert(s[i] == ' ');
        lemma_equals(k, v, i + 1);
    } else {
        lemma_front(true, k, seq![' ', '=', ' '] + v, k.len() as int);
        assert(s[k.len() as int] == ' ');
        assert(s[i] == '=');
    }
}

proof fn lemma_no_dot(t: Seq<char>, i: int)
    requires
        undotted(t),
        0 <= i <= t.len(),
    ensures
        next_separator(true, t, '.', i) == t.len(),
    decreases t.len() - i,
{
    if i < t.len() {
        assert(t[i] != '.');
        lemma_no_dot(t, i + 1);
    }
}

proof fn lemma_plain_key(k: Seq<char>)
    requires
        plain(k),
        undotted(k),
    ensures
        closed_text(true, k),
        firm(k),
        !k.contains('='),
        key_name(k.push(' ')) == Ok::<Seq<char>, Seq<char>>(k),
{
    assert forall|i: int| 0 <= i < k.len() implies idle(#[trigger] k[i]) && k[i] != ',' && k[i]
        != '#' && k[i] != '\n' by {
        assert(plain_char(k[i]));
        if k[i] == '\n' {
            assert(is_space('\n'));
        }
    }
    lemma_idle_closed(true, k);
    assert(plain_char(k[0]) && plain_char(k[k.len() - 1]));
    lemma_firm(k);
    assert(!k.contains('=')) by {
        if k.contains('=') {
            let i = choose|i: int| 0 <= i < k.len() && k[i] == '=';
            assert(plain_char(k[i]));
        }
    }
    lemma_trailing(k);
    lemma_no_dot(k, 0);
}

proof fn lemma_trailing(k: Seq<char>)
    requires
        firm(k),
    ensures
        trimmed(k.push(' ')) == k,
{
    let s = k.push(' ');
    assert(s[0] == k[0]);
    assert(trimmed_start(s) == s);
    assert(s.drop_last() =~= k);
    assert(trimmed_end(s) == trimmed_end(s.drop_last()));
}

/// A key, its equals sign and a value.
proof fn lemma_keyed(k: Seq<char>, name: Seq<char>, v: Seq<char>)
    requires
        closed_text(true, k),
        firm(k),
        !k.contains('='),
        key_name(k.push(' ')) == Ok::<Seq<char>, Seq<char>>(name),
        closed_text(true, v),
        firm(v),
    ensures
        ({
            let s = k + seq![' ', '=', ' '] + v;
            &&& closed_text(true, s)
            &&& firm(s)
            &&& key_value(s) is Ok
            &&& (key_value(s)->Ok_0).0 == name
            &&& trimmed((key_value(s)->Ok_0).1) == v
        }),
{
    let s = k + seq![' ', '=', ' '] + v;
    lemma_equals(k, v, 0);
    assert(s.take(k.len() as int + 1) =~= k.push(' '));
    assert(s.skip(k.len() as int + 2) =~= seq![' '] + v);
    lemma_firm(v);
    lemma_idle_closed(true, seq![' ', '=', ' ']);
    lemma_closed_both(true, k, seq![' ', '=', ' ']);
    lemma_closed_both(true, k + seq![' ', '=', ' '], v);
    assert(s[0] == k[0]);
    assert(s.last() == v.last());
}

proof fn lemma_plain_escapes(t: Seq<char>)
    requires
        !t.contains('"'),
        !t.contains('\\'),
        !t.contains('\n'),
    ensures
        !t.contains('\t') && !t.contains('\r') ==> escaped(t) == t,
        unescaped(t) == t,
    decreases t.len(),
{
    if t.len() > 0 {
        let rest = t.skip(1);
        assert(t.contains(t[0]));
        assert forall|c: char| #[trigger] rest.contains(c) implies t.contains(c) by {
            let k = choose|k: int| 0 <= k < rest.len() && rest[k] == c;
            assert(t[k + 1] == c);
        }
        lemma_plain_escapes(rest);
        assert(seq![t[0]] + rest =~= t);
    } else {
        assert(t =~= Seq::empty());
    }
}

/// A tag between its quotes, as a key.
proof fn lemma_tag_key(tag: Seq<char>)
    requires
        tag.len() > 0,
        tag[0] == '!',
        !tag.contains('"'),
        !tag.contains('\\'),
        !tag.contains('\n'),
        !tag.contains('='),
    ensures
        ({
            let k = seq!['"'] + tag + seq!['"'];
            &&& closed_text(true, k)
            &&& firm(k)
            &&& !k.contains('=')
            &&& key_name(k.push(' ')) == Ok::<Seq<char>, Seq<char>>(tag)
        }),
{
    let k = seq!['"'] + tag + seq!['"'];
    lemma_quoted_key(tag);
    lemma_trailing(k);
    lemma_firm(k);
    lemma_plain_escapes(tag);
    assert(k.subrange(1, k.len() - 1) =~= tag);
    assert(k[1] == '!');
    lemma_no_dot_inside(tag, 0);
    assert(!k.contains('=')) by {
        if k.contains('=') {
            let i = choose|i: int| 0 <= i < k.len() && k[i] == '=';
            assert(k[i] == tag[i - 1]);
            assert(tag.contains(tag[i - 1]));
        }
    }
}

proof fn lemma_in_key(tag: Seq<char>, i: int)
    requires
        !tag.contains('"'),
        !tag.contains('\\'),
        1 <= i <= tag.len() + 1,
    ensures
        quotes_at(true, seq!['"'] + tag + seq!['"'], i) == in_double(),
        depth_at(true, seq!['"'] + tag + seq!['"'], i) == 0,
    decreases i,
{
    let t = seq!['"'] + tag + seq!['"'];
    if i > 1 {
        lemma_in_key(tag, i - 1);
        assert(t[i - 1] == tag[i - 2]);
        assert(tag.contains(tag[i - 2]));
    } else {
        assert(quotes_at(true, t, 0) == fresh());
        assert(depth_at(true, t, 0) == 0);
        assert(t[0] == '"');
    }
}

proof fn lemma_no_dot_inside(tag: Seq<char>, i: int)
    requires
        !tag.contains('"'),
        !tag.contains('\\'),
        0 <= i <= tag.len() + 2,
    ensures
        next_separator(true, seq!['"'] + tag + seq!['"'], '.', i) == tag.len() + 2,
    decreases tag.len() + 2 - i,
{
    let t = seq!['"'] + tag + seq!['"'];
    if i < tag.len() + 2 {
        if 1 <= i <= tag.len() {
            lemma_in_key(tag, i);
        } else {
            assert(t[i] == '"');
        }
        lemma_no_dot_inside(tag, i + 1);
    }
}

proof fn lemma_quoted_key(tag: Seq<char>)
    requires
        !tag.contains('"'),
        !tag.contains('\\'),
        !tag.contains('\n'),
    ensures
        closed_text(true, seq!['"'] + tag + seq!['"']),
{
    let t = seq!['"'] + tag + seq!['"'];
    let n = tag.len() as int;
    lemma_in_key(tag, n + 1);
    assert(t[n + 1] == '"');
    assert(quotes_at(true, t, n + 2) == fresh());
    assert(depth_at(true, t, n + 2) == 0);
    assert forall|i: int| 0 <= i <= t.len() implies #[trigger] depth_at(true, t, i) >= 0 by {
        if 1 <= i <= n + 1 {
            lemma_in_key(tag, i);
        }
    }
    assert forall|i: int| 0 <= i < t.len() implies !(#[trigger] t[i] == ',' && quotes_at(
        true,
        t,
        i,
    ).none() && depth_at(true, t, i) == 0) && t[i] != '\n' && (t[i] == '#' ==> !quotes_at(
        true,
        t,
        i,
    ).none()) by {
        if 1 <= i <= n {
            lemma_in_key(tag, i);
            assert(t[i] == tag[i - 1]);
            assert(tag.contains(tag[i - 1]));
        }
    }
}

proof fn lemma_array(xs: Seq<TomlV>)
    requires
        forall|i: int| 0 <= i < xs.len() ==> toml_ok(#[trigger] xs[i]),
    ensures
        toml_ok(TomlV::Array(xs)),
{
    let ps = toml_texts(xs);
    assert forall|i: int| 0 <= i < ps.len() implies closed_text(true, #[trigger] ps[i]) && firm(
        ps[i],
    ) by {
        assert(toml_ok(xs[i]));
    }
    let p = joined_texts(ps);
    lemma_comma_parts(ps);
    lemma_bracketed(true, '[', p, ']');
    lemma_enclosed('[', p, ']');
    lemma_firm(toml_text(TomlV::Array(xs)));
    lemma_values(xs);
}

proof fn lemma_table(xs: Seq<PairV>)
    requires
        forall|i: int| 0 <= i < xs.len() ==> pair_ok(#[trigger] xs[i]),
        forall|i: int| 0 <= i < xs.len() ==> plain((#[trigger] xs[i]).key),
    ensures
        toml_ok(TomlV::Table(xs)),
{
    let ps = pair_texts(xs);
    assert forall|i: int| 0 <= i < ps.len() implies closed_text(true, #[trigger] ps[i]) && firm(
        ps[i],
    ) by {
        assert(pair_ok(xs[i]));
    }
    let p = joined_texts(ps);
    lemma_comma_parts(ps);
    lemma_bracketed(true, '{', p, '}');
    lemma_enclosed('{', p, '}');
    lemma_firm(toml_text(TomlV::Table(xs)));
    lemma_pairs(xs);
    if xs.len() == 1 {
        assert(plain(xs[0].key));
        assert(plain_char(xs[0].key[0]));
        assert(pair_nodes(xs)[0].0 == xs[0].key);
    }
}

proof fn lemma_one_part(part: Seq<char>)
    requires
        closed_text(true, part),
        firm(part),
    ensures
        comma_parts(part) == Ok::<Seq<Seq<char>>, Seq<char>>(seq![part]),
        inner_text(true, part),
{
    let ps = seq![part];
    assert(all_closed(true, ps));
    assert(all_firm(ps));
    lemma_comma_parts(ps);
    assert(ps.skip(1) =~= Seq::empty());
    assert(comma_texts(ps.skip(1)) =~= Seq::empty());
    assert(joined_texts(ps) =~= part);
}

proof fn lemma_one_field(part: Seq<char>, k: Seq<char>, t: Seq<char>, n: NodeV)
    requires
        key_value(part) is Ok,
        (key_value(part)->Ok_0).0 == k,
        trimmed((key_value(part)->Ok_0).1) == t,
        value(t) == Ok::<NodeV, Seq<char>>(n),
    ensures
        fields(seq![part]) == Ok::<Seq<(Seq<char>, NodeV)>, Seq<char>>(seq![(k, n)]),
{
    let ps = seq![part];
    assert(ps.skip(1) =~= Seq::empty());
    assert(fields(ps.skip(1)) == Ok::<Seq<(Seq<char>, NodeV)>, Seq<char>>(Seq::empty()));
    assert(seq![(k, n)] + Seq::empty() =~= seq![(k, n)]);
}

proof fn lemma_tagged(tag: Seq<char>, w: Box<TomlV>)
    requires
        tag.len() > 0 && tag[0] == '!',
        !tag.contains('"') && !tag.contains('\\') && !tag.contains('\n') && !tag.contains('='),
        toml_ok(*w),
        !(toml_node(*w).kind is List),
    ensures
        toml_ok(TomlV::Tagged { tag, value: w }),
{
    let v = TomlV::Tagged { tag, value: w };
    let k = seq!['"'] + tag + seq!['"'];
    let t = toml_text(*w);
    lemma_tag_key(tag);
    lemma_keyed(k, tag, t);
    let part = k + seq![' ', '=', ' '] + t;
    lemma_one_part(part);
    lemma_bracketed(true, '{', part, '}');
    lemma_enclosed('{', part, '}');
    lemma_firm(toml_text(v));
    lemma_one_field(part, tag, t, toml_node(*w));
}

proof fn lemma_toml(v: TomlV)
    requires
        is_toml(v),
    ensures
        toml_ok(v),
    decreases v,
{
    match v {
        TomlV::Word(s) => {
            lemma_word(s);
        },
        TomlV::Basic(s) => {
            lemma_basic_closed(s);
            quoted_texts_read_back(s);
        },
        TomlV::Literal(s) => {
            lemma_literal_closed(s);
            if s.len() > 0 {
                assert(s.contains(s[0]));
            }
            quoted_texts_read_back(s);
        },
        TomlV::Array(xs) => {
            assert forall|i: int| 0 <= i < xs.len() implies toml_ok(#[trigger] xs[i]) by {
                assert(is_toml(xs[i]));
                lemma_toml(xs[i]);
            }
            lemma_array(xs);
        },
        TomlV::Table(xs) => {
            assert forall|i: int| 0 <= i < xs.len() implies pair_ok(#[trigger] xs[i]) && plain(
                xs[i].key,
            ) by {
                assert(is_pair(xs[i]));
                lemma_pair(xs[i]);
            }
            lemma_table(xs);
        },
        TomlV::Tagged { tag, value: w } => {
            lemma_toml(*w);
            lemma_kind(*w);
            lemma_tagged(tag, w);
        },
    }
}

proof fn lemma_kind(v: TomlV)
    ensures
        toml_node(v).kind is List <==> v.untagged() is Array,
    decreases v,
{
    match v {
        TomlV::Tagged { tag, value } => {
            lemma_kind(*value);
        },
        _ => {},
    }
}

impl TomlV {
    /// The value behind its tags.
    pub open spec fn untagged(self) -> TomlV
        decreases self,
    {
        match self {
            TomlV::Tagged { tag, value } => (*value).untagged(),
            _ => self,
        }
    }
}

proof fn lemma_pair(p: PairV)
    requires
        is_pair(p),
    ensures
        pair_ok(p),
    decreases p,
{
    lemma_toml(p.value);
    lemma_plain_key(p.key);
    lemma_keyed(p.key, p.key, toml_text(p.value));
}

/// Every value that is written, words, texts in quotes with and without escapes,
/// arrays, tables, tagged values, and these in one another, is read as that value.
pub proof fn values_read_back(v: TomlV)
    requires
        is_toml(v),
    ensures
        value(toml_text(v)) == Ok::<NodeV, Seq<char>>(toml_node(v)),
{
    lemma_toml(v);
}

// ---- lines -----------------------------------------------------------------

/// The quote that is open.
spec fn open_quote(q: Quotes) -> Option<char> {
    if q.double {
        Some('"')
    } else if q.single {
        Some('\'')
    } else {
        None
    }
}

spec fn proper(q: Quotes) -> bool {
    !(q.single && q.double)
}

proof fn lemma_proper(s: Seq<char>, i: int)
    requires
        0 <= i <= s.len(),
    ensures
        proper(quotes_at(true, s, i)),
        quotes_at(true, s, i).held ==> quotes_at(true, s, i).double,
    decreases i,
{
    if i > 0 {
        lemma_proper(s, i - 1);
    }
}

/// The code of a line is the whole of it where no comment sign stands outside
/// quotes.
proof fn lemma_code(s: Seq<char>, i: int)
    requires
        0 <= i <= s.len(),
        calm(true, s),
        !quotes_at(true, s, i).held,
    ensures
        scan_code(s, i, open_quote(quotes_at(true, s, i)), depth_at(true, s, i)) == (CodeV {
            end: s.len() as int,
            depth: depth_at(true, s, s.len() as int),
            open: !quotes_at(true, s, s.len() as int).none(),
        }),
    decreases s.len() - i,
{
    lemma_proper(s, i);
    let q = quotes_at(true, s, i);
    if i < s.len() {
        assert(s[i] != '\n');
        lemma_proper(s, i + 1);
        if q.double && s[i] == '\\' {
            assert(quotes_at(true, s, i + 1).held);
            assert(depth_at(true, s, i + 1) == depth_at(true, s, i));
            if i + 1 < s.len() {
                assert(quotes_at(true, s, i + 2) == q);
                assert(depth_at(true, s, i + 2) == depth_at(true, s, i));
                lemma_code(s, i + 2);
            } else {
                assert(quotes_at(true, s, i + 1).double);
                assert(scan_code(s, i + 1, Some('"'), depth_at(true, s, i)) == (CodeV {
                    end: s.len() as int,
                    depth: depth_at(true, s, i),
                    open: true,
                }));
            }
        } else {
            lemma_code(s, i + 1);
        }
    }
}

proof fn lemma_code_of(s: Seq<char>)
    requires
        calm(true, s),
        settled(true, s),
    ensures
        code_of(s) == Ok::<(Seq<char>, int), Seq<char>>((s, 0int)),
{
    assert(quotes_at(true, s, 0) == fresh());
    assert(depth_at(true, s, 0) == 0);
    lemma_code(s, 0);
    assert(s.take(s.len() as int) =~= s);
}

proof fn lemma_code_front(s: Seq<char>, r: Seq<char>, i: int)
    requires
        0 <= i <= s.len(),
        calm(true, s),
        settled(true, s),
        !quotes_at(true, s, i).held,
        r.len() > 0,
        r[0] == '#',
    ensures
        scan_code(s + r, i, open_quote(quotes_at(true, s, i)), depth_at(true, s, i)) == (CodeV {
            end: s.len() as int,
            depth: 0,
            open: false,
        }),
    decreases s.len() - i,
{
    let t = s + r;
    lemma_proper(s, i);
    let q = quotes_at(true, s, i);
    if i < s.len() {
        assert(s[i] != '\n');
        assert(t[i] == s[i]);
        lemma_proper(s, i + 1);
        if q.double && s[i] == '\\' {
            assert(quotes_at(true, s, i + 1).held);
            assert(depth_at(true, s, i + 1) == depth_at(true, s, i));
            if i + 1 < s.len() {
                assert(quotes_at(true, s, i + 2) == q);
                assert(depth_at(true, s, i + 2) == depth_at(true, s, i));
                lemma_code_front(s, r, i + 2);
            }
        } else {
            lemma_code_front(s, r, i + 1);
        }
    } else {
        assert(t[i] == '#');
    }
}

/// A comment ends the code of a line, wherever it stands outside quotes, and a
/// comment sign inside quotes ends nothing.
pub proof fn comments_end_the_code(v: TomlV, key: Seq<char>, c: Seq<char>)
    requires
        is_toml(v),
        plain(key),
        undotted(key),
    ensures
        ({
            let l = key + seq![' ', '=', ' '] + toml_text(v);
            &&& code_of(l) == Ok::<(Seq<char>, int), Seq<char>>((l, 0int))
            &&& code_of(l + (seq!['#'] + c)) == Ok::<(Seq<char>, int), Seq<char>>((l, 0int))
            &&& code_of(seq!['#'] + c) == Ok::<(Seq<char>, int), Seq<char>>(
                (Seq::empty(), 0int),
            )
        }),
{
    let p = PairV { key, value: v };
    let l = pair_text(p);
    let r = seq!['#'] + c;
    assert(is_pair(p));
    lemma_pair(p);
    lemma_code_of(l);
    assert(quotes_at(true, l, 0) == fresh());
    assert(depth_at(true, l, 0) == 0);
    lemma_code_front(l, r, 0);
    assert((l + r).take(l.len() as int) =~= l);
    assert(r[0] == '#');
    assert(r.take(0) =~= Seq::empty());
}

/// A statement that goes over two lines, inside brackets, is the two with a blank
/// between them.
pub proof fn open_brackets_go_on(a: Seq<char>, b: Seq<char>, d: int)
    requires
        d > 0,
        a.len() > 0 && a[0] != '[',
        firm_text(a),
        firm_text(b),
        code_of(a) == Ok::<(Seq<char>, int), Seq<char>>((a, d)),
        code_of(b) == Ok::<(Seq<char>, int), Seq<char>>((b, -d)),
    ensures
        statements_from(seq![a, b], 0, Seq::empty(), 0) == Ok::<Seq<Seq<char>>, Seq<char>>(
            seq![a + seq![' '] + b],
        ),
{
    let ls = seq![a, b];
    let none = Seq::<char>::empty();
    lemma_firm(a);
    lemma_firm(b);
    assert(none + a =~= a);
    assert(a.push(' ') + b =~= a + seq![' '] + b);
    assert(trimmed(none) =~= none);
    reveal_with_fuel(statements_from, 4);
    assert(statements_from(ls, 2, none, 0) == Ok::<Seq<Seq<char>>, Seq<char>>(Seq::empty()));
    assert(ls[0] == a && ls[1] == b);
    assert(seq![a + seq![' '] + b] + Seq::empty() =~= seq![a + seq![' '] + b]);
}

/// Text with something at both ends.
pub open spec fn firm_text(s: Seq<char>) -> bool {
    s.len() > 0 && !is_space(s[0]) && !is_space(s.last())
}

// ---- documents -------------------------------------------------------------

spec fn whole(l: Seq<char>) -> bool {
    &&& code_of(l) == Ok::<(Seq<char>, int), Seq<char>>((l, 0int))
    &&& firm(l)
}

proof fn lemma_whole_lines(ls: Seq<Seq<char>>, n: int)
    requires
        0 <= n <= ls.len(),
        forall|i: int| 0 <= i < ls.len() ==> whole(#[trigger] ls[i]),
    ensures
        statements_from(ls, n, Seq::empty(), 0) == Ok::<Seq<Seq<char>>, Seq<char>>(ls.skip(n)),
    decreases ls.len() - n,
{
    let none = Seq::<char>::empty();
    assert(trimmed(none) =~= none);
    if n < ls.len() {
        assert(whole(ls[n]));
        lemma_firm(ls[n]);
        lemma_whole_lines(ls, n + 1);
        assert(none + ls[n] =~= ls[n]);
        assert(seq![ls[n]] + ls.skip(n + 1) =~= ls.skip(n));
    } else {
        assert(ls.skip(n) =~= Seq::empty());
    }
}

/// A field is added to what is open, at its end, with its name and its value.
pub proof fn fields_are_added(doc: DocV, p: PairV)
    requires
        is_pair(p),
    ensures
        statement(doc, pair_text(p)) == add_field(doc, p.key, toml_node(p.value)),
        doc.cur is None ==> add_field(doc, p.key, toml_node(p.value)) == Ok::<DocV, Seq<char>>(
            DocV { root: doc.root.push((p.key, toml_node(p.value))), cur: None },
        ),
{
    lemma_pair(p);
    let t = pair_text(p);
    lemma_firm(t);
    lemma_plain_key(p.key);
    assert(plain_char(p.key[0]));
    assert(t[0] == p.key[0]);
}

proof fn lemma_root_fields(doc: DocV, ps: Seq<PairV>, more: Seq<Seq<char>>)
    requires
        doc.cur is None,
        forall|i: int| 0 <= i < ps.len() ==> is_pair(#[trigger] ps[i]),
    ensures
        run_statements(doc, pair_texts(ps) + more) == run_statements(
            DocV { root: doc.root + pair_nodes(ps), cur: None },
            more,
        ),
    decreases ps.len(),
{
    let sts = pair_texts(ps) + more;
    if ps.len() == 0 {
        assert(sts =~= more);
        assert(doc.root + pair_nodes(ps) =~= doc.root);
    } else {
        let rest = ps.skip(1);
        assert(is_pair(ps[0]));
        assert forall|i: int| 0 <= i < rest.len() implies is_pair(#[trigger] rest[i]) by {
            assert(is_pair(ps[i + 1]));
        }
        fields_are_added(doc, ps[0]);
        let next = DocV { root: doc.root.push(pair_node(ps[0])), cur: None };
        lemma_root_fields(next, rest, more);
        assert(sts[0] == pair_text(ps[0]));
        assert(sts.skip(1) =~= pair_texts(rest) + more);
        assert(next.root + pair_nodes(rest) =~= doc.root + pair_nodes(ps));
    }
}

proof fn lemma_table_fields(
    root: Seq<(Seq<char>, NodeV)>,
    name: Seq<char>,
    m: Seq<(Seq<char>, NodeV)>,
    ps: Seq<PairV>,
)
    requires
        forall|i: int| 0 <= i < ps.len() ==> is_pair(#[trigger] ps[i]),
    ensures
        run_statements(
            DocV { root: root.push((name, map_node(m))), cur: Some(root.len() as int) },
            pair_texts(ps),
        ) == Ok::<DocV, Seq<char>>(
            DocV {
                root: root.push((name, map_node(m + pair_nodes(ps)))),
                cur: Some(root.len() as int),
            },
        ),
    decreases ps.len(),
{
    let doc = DocV { root: root.push((name, map_node(m))), cur: Some(root.len() as int) };
    let sts = pair_texts(ps);
    if ps.len() == 0 {
        assert(m + pair_nodes(ps) =~= m);
    } else {
        let rest = ps.skip(1);
        assert(is_pair(ps[0]));
        assert forall|i: int| 0 <= i < rest.len() implies is_pair(#[trigger] rest[i]) by {
            assert(is_pair(ps[i + 1]));
        }
        fields_are_added(doc, ps[0]);
        let m2 = m.push(pair_node(ps[0]));
        let next = DocV { root: root.push((name, map_node(m2))), cur: doc.cur };
        assert(doc.root.update(root.len() as int, (name, map_node(m2))) =~= next.root);
        assert(add_field(doc, ps[0].key, toml_node(ps[0].value)) == Ok::<DocV, Seq<char>>(next));
        lemma_table_fields(root, name, m2, rest);
        assert(sts[0] == pair_text(ps[0]));
        assert(sts.skip(1) =~= pair_texts(rest));
        assert(m2 + pair_nodes(rest) =~= m + pair_nodes(ps));
    }
}

proof fn lemma_absent(entries: Seq<(Seq<char>, NodeV)>, name: Seq<char>, i: int)
    requires
        0 <= i <= entries.len(),
        forall|k: int| 0 <= k < entries.len() ==> (#[trigger] entries[k]).0 != name,
    ensures
        key_index(entries, name, i) == entries.len(),
    decreases entries.len() - i,
{
    if i < entries.len() {
        lemma_absent(entries, name, i + 1);
    }
}

/// The line that opens a table.
pub open spec fn header_text(name: Seq<char>) -> Seq<char> {
    seq!['['] + name + seq![']']
}

proof fn lemma_header(name: Seq<char>)
    requires
        plain(name),
    ensures
        whole(header_text(name)),
        one_line(header_text(name)),
        header_name(header_text(name)) == Ok::<Seq<char>, Seq<char>>(name),
        header_text(name)[0] == '[',
{
    let s = header_text(name);
    assert forall|i: int| 0 <= i < name.len() implies idle(#[trigger] name[i]) && name[i] != ','
        && name[i] != '#' && name[i] != '\n' by {
        assert(plain_char(name[i]));
        if name[i] == '\n' {
            assert(is_space('\n'));
        }
    }
    lemma_idle_closed(true, name);
    lemma_bracketed(true, '[', name, ']');
    lemma_code_of(s);
    assert(plain_char(name[0]) && plain_char(name[name.len() - 1]));
    lemma_firm(name);
    assert(s.skip(1).drop_last() =~= name);
    assert(s.skip(1)[0] == name[0]);
    assert(s.skip(1).last() == ']');
    if s.contains('\n') {
        let k = choose|k: int| 0 <= k < s.len() && s[k] == '\n';
        assert(s[k] == name[k - 1]);
    }
}

/// A document of fields and then a table is read as these: the fields before the
/// header are the document's own, those behind it the table's, in their order.
pub proof fn documents_read_back(ps: Seq<PairV>, name: Seq<char>, qs: Seq<PairV>)
    requires
        forall|i: int| 0 <= i < ps.len() ==> is_pair(#[trigger] ps[i]),
        forall|i: int| 0 <= i < qs.len() ==> is_pair(#[trigger] qs[i]),
        plain(name),
        forall|i: int| 0 <= i < ps.len() ==> (#[trigger] ps[i]).key != name,
    ensures
        document(unlines(pair_texts(ps) + seq![header_text(name)] + pair_texts(qs))) == Ok::<
            NodeV,
            Seq<char>,
        >(map_node(pair_nodes(ps).push((name, map_node(pair_nodes(qs)))))),
{
    let ls = pair_texts(ps) + seq![header_text(name)] + pair_texts(qs);
    let n = ps.len() as int;
    lemma_header(name);
    assert forall|i: int| 0 <= i < ls.len() implies whole(#[trigger] ls[i]) && one_line(ls[i])
        && drop_cr(ls[i]) == ls[i] by {
        if i < n {
            assert(is_pair(ps[i]));
            lemma_whole_pair(ps[i]);
        } else if i > n {
            assert(is_pair(qs[i - n - 1]));
            lemma_whole_pair(qs[i - n - 1]);
        }
        if ls[i].last() == '\r' {
            assert(is_space('\r'));
        }
    }
    lines_read_back(ls);
    assert(without_cr(ls) =~= ls);
    lemma_whole_lines(ls, 0);
    assert(ls.skip(0) =~= ls);
    let start = DocV { root: Seq::empty(), cur: None };
    let more = seq![header_text(name)] + pair_texts(qs);
    assert(ls =~= pair_texts(ps) + more);
    lemma_root_fields(start, ps, more);
    assert(start.root + pair_nodes(ps) =~= pair_nodes(ps));
    let root = pair_nodes(ps);
    lemma_absent(root, name, 0);
    lemma_firm(header_text(name));
    assert(more[0] == header_text(name));
    assert(more.skip(1) =~= pair_texts(qs));
    lemma_table_fields(root, name, Seq::empty(), qs);
    assert(Seq::<(Seq<char>, NodeV)>::empty() + pair_nodes(qs) =~= pair_nodes(qs));
}

proof fn lemma_whole_pair(p: PairV)
    requires
        is_pair(p),
    ensures
        whole(pair_text(p)),
        one_line(pair_text(p)),
{
    let t = pair_text(p);
    lemma_pair(p);
    lemma_code_of(t);
    if t.contains('\n') {
        let k = choose|k: int| 0 <= k < t.len() && t[k] == '\n';
        assert(t[k] != '\n');
    }
}

/// A header with the name of a table that is there opens that table again, and one
/// with a new name makes a table at the end.
pub proof fn headers_open_their_table(doc: DocV, name: Seq<char>, i: int)
    requires
        plain(name),
    ensures
        (forall|k: int| 0 <= k < doc.root.len() ==> (#[trigger] doc.root[k]).0 != name)
            ==> statement(doc, header_text(name)) == Ok::<DocV, Seq<char>>(
            DocV {
                root: doc.root.push((name, map_node(Seq::empty()))),
                cur: Some(doc.root.len() as int),
            },
        ),
        0 <= i < doc.root.len() && doc.root[i].0 == name && (forall|k: int|
            0 <= k < i ==> (#[trigger] doc.root[k]).0 != name) ==> statement(doc, header_text(name))
            == Ok::<DocV, Seq<char>>(DocV { root: doc.root, cur: Some(i) }),
{
    lemma_header(name);
    lemma_firm(header_text(name));
    if forall|k: int| 0 <= k < doc.root.len() ==> (#[trigger] doc.root[k]).0 != name {
        lemma_absent(doc.root, name, 0);
    }
    if 0 <= i < doc.root.len() && doc.root[i].0 == name && (forall|k: int|
        0 <= k < i ==> (#[trigger] doc.root[k]).0 != name) {
        lemma_present(doc.root, name, 0, i);
    }
}

proof fn lemma_present(entries: Seq<(Seq<char>, NodeV)>, name: Seq<char>, i: int, e: int)
    requires
        0 <= i <= e < entries.len(),
        entries[e].0 == name,
        forall|k: int| 0 <= k < e ==> (#[trigger] entries[k]).0 != name,
    ensures
        key_index(entries, name, i) == e,
    decreases e - i,
{
    if i < e {
        assert(entries[i].0 != name);
        lemma_present(entries, name, i + 1, e);
    }
}

} // verus!
