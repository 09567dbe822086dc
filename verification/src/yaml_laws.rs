//! What a tweak document in indented lines says: every tree that is written, with
//! its quotes, tags, brackets and indentation, is read back as that tree.
use vstd::prelude::*;

use crate::documents::{plain, plain_char};
use crate::modconfig::{each_one_line, lines_read_back, one_line, unlines, without_cr};
use crate::node::{list_node, map_node, scalar_node, NodeV};
use crate::scan::{depth_at, quotes_at, Quotes};
use crate::scan_laws::{
    all_closed, calm, closed_text, comma_texts, fresh, idle, inner_text, joined_texts,
    lemma_bracketed, lemma_calm_both, lemma_closed_both, lemma_comma_inner, lemma_front, lemma_idle,
    lemma_idle_closed, lemma_inner_both, lemma_pieces, lemma_space_closed, spaced,
};
use crate::text::{byte_width, drop_cr, has_prefix, is_space, trimmed, trimmed_end, trimmed_start};
use crate::yaml::{
    block, block_entries, block_item, block_items, comment_start, document, entry_value,
    flow_entries, flow_items, flow_parts, flow_value, is_item, item_lines, key_and_rest, key_end,
    logical_line, logical_lines, next_space, retagged, run_len, split_tag, tab_indented, unquoted,
    unsupported, LineV,
};

verus! {

// ---- quotes ----------------------------------------------------------------

/// A text between quotes, with none of its kind inside.
pub open spec fn quoted_text(double: bool, s: Seq<char>) -> Seq<char> {
    let q = if double {
        '"'
    } else {
        '\''
    };
    seq![q] + s + seq![q]
}

/// Can the text stand between such quotes on one line?
pub open spec fn quotable(double: bool, s: Seq<char>) -> bool {
    &&& !s.contains('\n')
    &&& !s.contains(if double {
        '"'
    } else {
        '\''
    })
}

proof fn lemma_in_quotes(double: bool, s: Seq<char>, i: int)
    requires
        quotable(double, s),
        1 <= i <= s.len() + 1,
    ensures
        quotes_at(false, quoted_text(double, s), i) == (Quotes {
            single: !double,
            double,
            held: false,
        }),
        depth_at(false, quoted_text(double, s), i) == 0,
    decreases i,
{
    let t = quoted_text(double, s);
    if i > 1 {
        lemma_in_quotes(double, s, i - 1);
        assert(t[i - 1] == s[i - 2]);
        assert(s.contains(s[i - 2]));
    } else {
        assert(quotes_at(false, t, 0) == fresh());
        assert(depth_at(false, t, 0) == 0);
        assert(t[0] == if double {
            '"'
        } else {
            '\''
        });
    }
}

proof fn lemma_quoted_closed(double: bool, s: Seq<char>)
    requires
        quotable(double, s),
    ensures
        closed_text(false, quoted_text(double, s)),
{
    let t = quoted_text(double, s);
    let n = s.len() as int;
    lemma_in_quotes(double, s, n + 1);
    assert(t[n + 1] == if double {
        '"'
    } else {
        '\''
    });
    assert(quotes_at(false, t, n + 2) == fresh());
    assert(depth_at(false, t, n + 2) == 0);
    assert forall|i: int| 0 <= i <= t.len() implies #[trigger] depth_at(false, t, i) >= 0 by {
        if 1 <= i <= n + 1 {
            lemma_in_quotes(double, s, i);
        }
    }
    assert forall|i: int| 0 <= i < t.len() implies !(#[trigger] t[i] == ',' && quotes_at(
        false,
        t,
        i,
    ).none() && depth_at(false, t, i) == 0) && t[i] != '\n' && (t[i] == '#' ==> !quotes_at(
        false,
        t,
        i,
    ).none()) by {
        if 1 <= i <= n {
            lemma_in_quotes(double, s, i);
            assert(t[i] == s[i - 1]);
            assert(s.contains(s[i - 1]));
        }
    }
}

// ---- values on one line ----------------------------------------------------

/// A value that stands on one line.
pub enum FlowV {
    Words(Seq<char>),
    Quoted { double: bool, text: Seq<char> },
    List(Seq<ItemV>),
    Table(Seq<FieldV>),
}

/// A value in a list, with its tag where it has one.
pub struct ItemV {
    pub tag: Option<Seq<char>>,
    pub value: FlowV,
}

/// A value in a table, with its key.
pub struct FieldV {
    pub key: Seq<char>,
    pub value: FlowV,
}

/// Words: characters that mean nothing but themselves, and blanks between them.
pub open spec fn is_words(s: Seq<char>) -> bool {
    &&& s.len() > 0
    &&& plain_char(s[0]) || s[0] == '-'
    &&& plain_char(s.last()) || s.last() == '-'
    &&& forall|i: int|
        0 <= i < s.len() ==> plain_char(#[trigger] s[i]) || s[i] == ' ' || s[i] == '-'
}

/// A tag: an exclamation mark, and letters and dashes.
pub open spec fn is_tag(t: Seq<char>) -> bool {
    &&& t.len() > 0
    &&& t[0] == '!'
    &&& forall|i: int|
        1 <= i < t.len() ==> 'a' <= #[trigger] t[i] <= 'z' || 'A' <= t[i] <= 'Z' || t[i] == '-'
}

pub open spec fn is_flow(f: FlowV) -> bool
    decreases f,
{
    match f {
        FlowV::Words(s) => is_words(s),
        FlowV::Quoted { double, text } => quotable(double, text),
        FlowV::List(items) => forall|i: int| 0 <= i < items.len() ==> is_flow_item(#[trigger] items[i]),
        FlowV::Table(fields) => forall|i: int|
            0 <= i < fields.len() ==> is_flow_field(#[trigger] fields[i]),
    }
}

pub open spec fn is_flow_item(it: ItemV) -> bool
    decreases it,
{
    (it.tag is Some ==> is_tag(it.tag->0)) && is_flow(it.value)
}

pub open spec fn is_flow_field(f: FieldV) -> bool
    decreases f,
{
    plain(f.key) && is_flow(f.value)
}

/// How the value is written.
pub open spec fn flow_text(f: FlowV) -> Seq<char>
    decreases f,
{
    match f {
        FlowV::Words(s) => s,
        FlowV::Quoted { double, text } => quoted_text(double, text),
        FlowV::List(items) => seq!['['] + joined_texts(item_texts(items)) + seq![']'],
        FlowV::Table(fields) => seq!['{'] + joined_texts(field_texts(fields)) + seq!['}'],
    }
}

pub open spec fn item_text(it: ItemV) -> Seq<char>
    decreases it,
{
    match it.tag {
        Some(t) => t + seq![' '] + flow_text(it.value),
        None => flow_text(it.value),
    }
}

pub open spec fn field_text(f: FieldV) -> Seq<char>
    decreases f,
{
    f.key + seq![':', ' '] + flow_text(f.value)
}

pub open spec fn item_texts(items: Seq<ItemV>) -> Seq<Seq<char>>
    decreases items,
{
    Seq::new(
        items.len(),
        |i: int|
            if 0 <= i < items.len() {
                item_text(items[i])
            } else {
                Seq::empty()
            },
    )
}

pub open spec fn field_texts(fields: Seq<FieldV>) -> Seq<Seq<char>>
    decreases fields,
{
    Seq::new(
        fields.len(),
        |i: int|
            if 0 <= i < fields.len() {
                field_text(fields[i])
            } else {
                Seq::empty()
            },
    )
}

/// What the value is.
pub open spec fn flow_node(f: FlowV) -> NodeV
    decreases f,
{
    match f {
        FlowV::Words(s) => scalar_node(s),
        FlowV::Quoted { double, text } => scalar_node(text),
        FlowV::List(items) => list_node(item_nodes(items)),
        FlowV::Table(fields) => map_node(field_nodes(fields)),
    }
}

pub open spec fn item_node(it: ItemV) -> NodeV
    decreases it,
{
    flow_node(it.value).tagged(it.tag)
}

pub open spec fn item_nodes(items: Seq<ItemV>) -> Seq<NodeV>
    decreases items,
{
    Seq::new(
        items.len(),
        |i: int|
            if 0 <= i < items.len() {
                item_node(items[i])
            } else {
                arbitrary()
            },
    )
}

pub open spec fn field_node(f: FieldV) -> (Seq<char>, NodeV)
    decreases f,
{
    (f.key, flow_node(f.value))
}

pub open spec fn field_nodes(fields: Seq<FieldV>) -> Seq<(Seq<char>, NodeV)>
    decreases fields,
{
    Seq::new(
        fields.len(),
        |i: int|
            if 0 <= i < fields.len() {
                field_node(fields[i])
            } else {
                arbitrary()
            },
    )
}

/// Text that starts and ends with something, and is no tag and nothing that is
/// refused.
spec fn solid(s: Seq<char>) -> bool {
    &&& s.len() > 0
    &&& !is_space(s[0])
    &&& !is_space(s.last())
    &&& s[0] != '!' && s[0] != '&' && s[0] != '*' && s[0] != '|' && s[0] != '>' && s[0] != '<'
}

proof fn lemma_solid(s: Seq<char>)
    requires
        solid(s),
    ensures
        trimmed_start(s) == s,
        trimmed_end(s) == s,
        trimmed(s) == s,
        trimmed_start(seq![' '] + s) == s,
        trimmed(seq![' '] + s) == s,
        split_tag(s) == (None::<Seq<char>>, s),
        split_tag(seq![' '] + s) == (None::<Seq<char>>, seq![' '] + s),
        !unsupported(s),
{
    let t = seq![' '] + s;
    assert(t[0] == ' ');
    assert(t.skip(1) =~= s);
    assert(trimmed_start(t) == trimmed_start(t.skip(1)));
    reveal_strlit("<<");
    assert("<<"@.len() == 2 && "<<"@[0] == '<');
    if has_prefix(s, "<<"@) {
        assert(s.take(2)[0] == '<');
    }
}

proof fn lemma_words(s: Seq<char>)
    requires
        is_words(s),
    ensures
        closed_text(false, s),
        solid(s),
        flow_value(s) == Ok::<NodeV, Seq<char>>(scalar_node(s)),
{
    assert forall|k: int| 0 <= k < s.len() implies idle(#[trigger] s[k]) && s[k] != ',' && s[k]
        != '#' && s[k] != '\n' by {
        if s[k] == '\n' {
            assert(is_space('\n'));
        }
    }
    lemma_idle_closed(false, s);
    lemma_solid(s);
    assert(s[0] != '\'' && s[0] != '"');
}

/// A text between double or single quotes is read as that text, without its
/// quotes, whatever else it holds: blanks at its ends, commas, brackets, comment
/// signs and colons.
pub proof fn quoted_values_are_what_stands_between(double: bool, s: Seq<char>)
    ensures
        flow_value(quoted_text(double, s)) == Ok::<NodeV, Seq<char>>(scalar_node(s)),
        unquoted(quoted_text(double, s)) == s,
{
    let t = quoted_text(double, s);
    assert(t[0] == t.last());
    lemma_solid(t);
    assert(t.subrange(1, t.len() - 1) =~= s);
}

proof fn lemma_tag(t: Seq<char>, s: Seq<char>, i: int)
    requires
        is_tag(t),
        solid(s),
        0 <= i <= t.len(),
    ensures
        next_space(t + seq![' '] + s, i) == t.len(),
    decreases t.len() - i,
{
    let all = t + seq![' '] + s;
    if i < t.len() {
        assert(all[i] == t[i]);
        if i > 0 {
            assert('a' <= t[i] <= 'z' || 'A' <= t[i] <= 'Z' || t[i] == '-');
        }
        assert(!is_space(t[i]));
        lemma_tag(t, s, i + 1);
    } else {
        assert(all[i] == ' ');
    }
}

/// A tag before a value is its tag, and the value is what follows.
proof fn lemma_tagged(t: Seq<char>, s: Seq<char>)
    requires
        is_tag(t),
        solid(s),
    ensures
        split_tag(t + seq![' '] + s) == (Some(t), s),
        split_tag(seq![' '] + (t + seq![' '] + s)) == (Some(t), s),
{
    let all = t + seq![' '] + s;
    lemma_tag(t, s, 0);
    lemma_solid(s);
    assert(all[0] == '!');
    assert(trimmed_start(all) == all);
    let lead = seq![' '] + all;
    assert(lead.skip(1) =~= all);
    assert(trimmed_start(lead) == trimmed_start(lead.skip(1)));
    assert(all.take(t.len() as int) =~= t);
    assert(all.skip(t.len() as int) =~= seq![' '] + s);
}

proof fn lemma_tag_closed(t: Seq<char>)
    requires
        is_tag(t),
    ensures
        closed_text(false, t),
{
    assert forall|k: int| 0 <= k < t.len() implies idle(#[trigger] t[k]) && t[k] != ',' && t[k]
        != '#' && t[k] != '\n' by {
        if k > 0 {
            assert('a' <= t[k] <= 'z' || 'A' <= t[k] <= 'Z' || t[k] == '-');
        }
    }
    lemma_idle_closed(false, t);
}

proof fn lemma_key_closed(k: Seq<char>)
    requires
        plain(k),
    ensures
        closed_text(false, k + seq![':', ' ']),
        trimmed(k) == k,
        unquoted(k) == k,
{
    let s = k + seq![':', ' '];
    assert forall|i: int| 0 <= i < s.len() implies idle(#[trigger] s[i]) && s[i] != ',' && s[i]
        != '#' && s[i] != '\n' by {
        if i < k.len() {
            assert(plain_char(k[i]));
            if k[i] == '\n' {
                assert(is_space('\n'));
            }
        }
    }
    lemma_idle_closed(false, s);
    assert(plain_char(k[0]) && plain_char(k[k.len() - 1]));
}

proof fn lemma_key_place(k: Seq<char>, r: Seq<char>, i: int)
    requires
        plain(k),
        0 <= i <= k.len(),
        r.len() == 0 || r[0] == ' ',
    ensures
        key_end(k + seq![':'] + r, i) == k.len(),
    decreases k.len() - i,
{
    let s = k + seq![':'] + r;
    if i < k.len() {
        assert(plain_char(k[i]));
        assert(s[i] == k[i]);
        lemma_key_place(k, r, i + 1);
    } else {
        assert forall|j: int| 0 <= j < k.len() implies idle(#[trigger] k[j]) by {
            assert(plain_char(k[j]));
        }
        lemma_idle(false, k, i);
        lemma_front(false, k, seq![':'] + r, i);
        assert(s =~= k + (seq![':'] + r));
        assert(s[i] == ':');
    }
}

/// A key, its colon and a value.
proof fn lemma_keyed(k: Seq<char>, v: Seq<char>)
    requires
        plain(k),
        solid(v),
    ensures
        key_and_rest(k + seq![':', ' '] + v) == Some((k, v)),
        !unsupported(k + seq![':', ' '] + v),
        solid(k + seq![':', ' '] + v),
{
    let s = k + seq![':', ' '] + v;
    let r = seq![' '] + v;
    assert(s =~= k + seq![':'] + r);
    lemma_key_place(k, r, 0);
    lemma_key_closed(k);
    lemma_solid(v);
    assert(s.take(k.len() as int) =~= k);
    assert(s.skip(k.len() as int + 1) =~= r);
    assert(plain_char(k[0]));
    assert(s[0] == k[0]);
    assert(s.last() == v.last());
    lemma_solid(s);
}

spec fn splits(p: Seq<char>, it: ItemV) -> bool {
    split_tag(p).0 == it.tag && trimmed(split_tag(p).1) == flow_text(it.value)
}

spec fn item_ok(it: ItemV) -> bool {
    let p = item_text(it);
    &&& closed_text(false, p)
    &&& p.len() > 0
    &&& !is_space(p[0])
    &&& trimmed(p) == p
    &&& splits(p, it)
    &&& splits(seq![' '] + p, it)
    &&& flow_value(flow_text(it.value)) == Ok::<NodeV, Seq<char>>(flow_node(it.value))
}

spec fn field_ok(f: FieldV) -> bool {
    let p = field_text(f);
    &&& closed_text(false, p)
    &&& solid(p)
    &&& key_and_rest(p) == Some((f.key, flow_text(f.value)))
    &&& trimmed(flow_text(f.value)) == flow_text(f.value)
    &&& flow_value(flow_text(f.value)) == Ok::<NodeV, Seq<char>>(flow_node(f.value))
}

/// The same text, perhaps behind a blank.
spec fn perhaps_spaced(part: Seq<char>, p: Seq<char>) -> bool {
    part == p || part == seq![' '] + p
}

proof fn lemma_items(items: Seq<ItemV>, parts: Seq<Seq<char>>)
    requires
        parts.len() == items.len(),
        forall|i: int| 0 <= i < items.len() ==> item_ok(#[trigger] items[i]),
        forall|i: int|
            0 <= i < items.len() ==> perhaps_spaced(#[trigger] parts[i], item_text(items[i])),
    ensures
        flow_items(parts) == Ok::<Seq<NodeV>, Seq<char>>(item_nodes(items)),
    decreases items.len(),
{
    if items.len() == 0 {
        assert(item_nodes(items) =~= Seq::empty());
    } else {
        let rest = items.skip(1);
        let more = parts.skip(1);
        assert(item_ok(items[0]));
        assert(perhaps_spaced(parts[0], item_text(items[0])));
        assert forall|i: int| 0 <= i < rest.len() implies item_ok(#[trigger] rest[i]) by {
            assert(item_ok(items[i + 1]));
        }
        assert forall|i: int| 0 <= i < rest.len() implies perhaps_spaced(
            #[trigger] more[i],
            item_text(rest[i]),
        ) by {
            assert(perhaps_spaced(parts[i + 1], item_text(items[i + 1])));
        }
        lemma_items(rest, more);
        assert(seq![item_node(items[0])] + item_nodes(rest) =~= item_nodes(items));
        assert(splits(parts[0], items[0]));
    }
}

proof fn lemma_fields(fields: Seq<FieldV>, parts: Seq<Seq<char>>)
    requires
        parts.len() == fields.len(),
        forall|i: int| 0 <= i < fields.len() ==> field_ok(#[trigger] fields[i]),
        forall|i: int|
            0 <= i < fields.len() ==> perhaps_spaced(#[trigger] parts[i], field_text(fields[i])),
    ensures
        flow_entries(parts) == Ok::<Seq<(Seq<char>, NodeV)>, Seq<char>>(field_nodes(fields)),
    decreases fields.len(),
{
    if fields.len() == 0 {
        assert(field_nodes(fields) =~= Seq::empty());
    } else {
        let rest = fields.skip(1);
        let more = parts.skip(1);
        assert(field_ok(fields[0]));
        assert(perhaps_spaced(parts[0], field_text(fields[0])));
        assert forall|i: int| 0 <= i < rest.len() implies field_ok(#[trigger] rest[i]) by {
            assert(field_ok(fields[i + 1]));
        }
        assert forall|i: int| 0 <= i < rest.len() implies perhaps_spaced(
            #[trigger] more[i],
            field_text(rest[i]),
        ) by {
            assert(perhaps_spaced(parts[i + 1], field_text(fields[i + 1])));
        }
        lemma_fields(rest, more);
        lemma_solid(field_text(fields[0]));
        assert(trimmed(parts[0]) == field_text(fields[0]));
        assert(seq![field_node(fields[0])] + field_nodes(rest) =~= field_nodes(fields));
    }
}

/// The parts of what was joined, each perhaps behind a blank.
proof fn lemma_parts(ps: Seq<Seq<char>>)
    requires
        all_closed(false, ps),
        forall|i: int|
            0 <= i < ps.len() ==> (#[trigger] ps[i]).len() > 0 && trimmed(ps[i]) == ps[i],
    ensures
        flow_parts(joined_texts(ps)).len() == ps.len(),
        forall|i: int|
            0 <= i < ps.len() ==> perhaps_spaced(
                #[trigger] flow_parts(joined_texts(ps))[i],
                ps[i],
            ),
        inner_text(false, joined_texts(ps)),
{
    let none = Seq::<char>::empty();
    lemma_idle_closed(false, none);
    if ps.len() == 0 {
        lemma_pieces(false, none, Seq::empty());
        assert(none + comma_texts(Seq::empty()) =~= none);
        assert(seq![none] + spaced(Seq::empty()) =~= seq![none]);
        assert(trimmed(none) =~= none);
    } else {
        let rest = ps.skip(1);
        assert(closed_text(false, ps[0]));
        assert forall|i: int| 0 <= i < rest.len() implies closed_text(false, #[trigger] rest[i]) by {
            assert(closed_text(false, ps[i + 1]));
        }
        lemma_pieces(false, ps[0], rest);
        lemma_comma_inner(false, rest);
        lemma_inner_both(false, ps[0], comma_texts(rest));
        let parts = seq![ps[0]] + spaced(rest);
        assert(trimmed(ps[0]).len() > 0);
        assert forall|i: int| 0 <= i < ps.len() implies perhaps_spaced(
            #[trigger] parts[i],
            ps[i],
        ) by {
            if i > 0 {
                assert(parts[i] == seq![' '] + rest[i - 1]);
                assert(rest[i - 1] == ps[i]);
            }
        }
    }
}

proof fn lemma_enclosed(o: char, p: Seq<char>, c: char)
    requires
        (o == '[' && c == ']') || (o == '{' && c == '}'),
    ensures
        ({
            let s = seq![o] + p + seq![c];
            &&& solid(s)
            &&& s[0] == o
            &&& s.last() == c
            &&& s.subrange(1, s.len() - 1) == p
        }),
{
    let s = seq![o] + p + seq![c];
    assert(s.subrange(1, s.len() - 1) =~= p);
}

/// A value that is written on one line is read as that value.
proof fn lemma_flow(f: FlowV)
    requires
        is_flow(f),
    ensures
        closed_text(false, flow_text(f)),
        solid(flow_text(f)),
        flow_value(flow_text(f)) == Ok::<NodeV, Seq<char>>(flow_node(f)),
    decreases f,
{
    match f {
        FlowV::Words(s) => {
            lemma_words(s);
        },
        FlowV::Quoted { double, text } => {
            lemma_quoted_closed(double, text);
            quoted_values_are_what_stands_between(double, text);
            let t = quoted_text(double, text);
            assert(t[0] == t.last());
        },
        FlowV::List(items) => {
            let ps = item_texts(items);
            assert forall|i: int| 0 <= i < items.len() implies item_ok(#[trigger] items[i]) by {
                assert(is_flow_item(items[i]));
                lemma_item(items[i]);
            }
            assert forall|i: int| 0 <= i < ps.len() implies closed_text(false, #[trigger] ps[i])
                && ps[i].len() > 0 && trimmed(ps[i]) == ps[i] by {
                assert(item_ok(items[i]));
            }
            lemma_parts(ps);
            lemma_bracketed(false, '[', joined_texts(ps), ']');
            lemma_enclosed('[', joined_texts(ps), ']');
            lemma_solid(flow_text(f));
            assert forall|i: int| 0 <= i < items.len() implies perhaps_spaced(
                #[trigger] flow_parts(joined_texts(ps))[i],
                item_text(items[i]),
            ) by {
                assert(ps[i] == item_text(items[i]));
            }
            lemma_items(items, flow_parts(joined_texts(ps)));
        },
        FlowV::Table(fields) => {
            let ps = field_texts(fields);
            assert forall|i: int| 0 <= i < fields.len() implies field_ok(#[trigger] fields[i]) by {
                assert(is_flow_field(fields[i]));
                lemma_field(fields[i]);
            }
            assert forall|i: int| 0 <= i < ps.len() implies closed_text(false, #[trigger] ps[i])
                && ps[i].len() > 0 && trimmed(ps[i]) == ps[i] by {
                assert(field_ok(fields[i]));
                lemma_solid(ps[i]);
            }
            lemma_parts(ps);
            lemma_bracketed(false, '{', joined_texts(ps), '}');
            lemma_enclosed('{', joined_texts(ps), '}');
            lemma_solid(flow_text(f));
            assert forall|i: int| 0 <= i < fields.len() implies perhaps_spaced(
                #[trigger] flow_parts(joined_texts(ps))[i],
                field_text(fields[i]),
            ) by {
                assert(ps[i] == field_text(fields[i]));
            }
            lemma_fields(fields, flow_parts(joined_texts(ps)));
        },
    }
}

proof fn lemma_item(it: ItemV)
    requires
        is_flow_item(it),
    ensures
        item_ok(it),
    decreases it,
{
    let v = flow_text(it.value);
    lemma_flow(it.value);
    lemma_solid(v);
    match it.tag {
        Some(t) => {
            lemma_tagged(t, v);
            lemma_tag_closed(t);
            lemma_space_closed(false, v);
            lemma_closed_both(false, t, seq![' '] + v);
            assert(t + (seq![' '] + v) =~= item_text(it));
            assert(item_text(it)[0] == '!');
            assert(item_text(it).last() == v.last());
        },
        None => {},
    }
}

proof fn lemma_field(f: FieldV)
    requires
        is_flow_field(f),
    ensures
        field_ok(f),
    decreases f,
{
    let v = flow_text(f.value);
    lemma_flow(f.value);
    lemma_solid(v);
    lemma_keyed(f.key, v);
    lemma_key_closed(f.key);
    lemma_closed_both(false, f.key + seq![':', ' '], v);
}

/// Every value that is written on one line, words, texts in quotes, lists with
/// their tags, tables, and these in one another, is read as that value.
pub proof fn values_read_back(f: FlowV)
    requires
        is_flow(f),
    ensures
        flow_value(flow_text(f)) == Ok::<NodeV, Seq<char>>(flow_node(f)),
{
    lemma_flow(f);
}

// ---- values on many lines --------------------------------------------------

/// A value in a document: nothing, one on the line of its key, or a table or a list
/// on the lines below.
pub enum BlockV {
    Nothing,
    Flow(FlowV),
    Table(Seq<EntryV>),
    List(Seq<ListedV>),
}

/// An entry of a table: its key, its tag where it has one, and its value.
pub struct EntryV {
    pub key: Seq<char>,
    pub tag: Option<Seq<char>>,
    pub value: BlockV,
}

/// An item of a list.
pub struct ListedV {
    pub tag: Option<Seq<char>>,
    pub value: BlockV,
}

/// Does the value take lines of its own?
pub open spec fn is_long(b: BlockV) -> bool {
    b is Table || b is List
}

pub open spec fn is_block(b: BlockV) -> bool
    decreases b,
{
    match b {
        BlockV::Nothing => true,
        BlockV::Flow(f) => is_flow(f),
        BlockV::Table(es) => es.len() > 0 && are_entries(es),
        BlockV::List(xs) => xs.len() > 0 && are_listed(xs),
    }
}

pub open spec fn are_entries(es: Seq<EntryV>) -> bool
    decreases es,
{
    es.len() == 0 || (is_entry(es[0]) && are_entries(es.skip(1)))
}

pub open spec fn is_entry(e: EntryV) -> bool
    decreases e,
{
    plain(e.key) && (e.tag is Some ==> is_tag(e.tag->0)) && is_block(e.value)
}

pub open spec fn are_listed(xs: Seq<ListedV>) -> bool
    decreases xs,
{
    xs.len() == 0 || (is_listed(xs[0]) && are_listed(xs.skip(1)))
}

/// A table or a list in a list stands on more than one line, unless a tag stands on
/// the line of its dash.
pub open spec fn is_listed(x: ListedV) -> bool
    decreases x,
{
    &&& x.tag is Some ==> is_tag(x.tag->0)
    &&& is_block(x.value)
    &&& is_long(x.value) && x.tag is None ==> block_lines(x.value, 0).len() > 1
}

pub open spec fn tag_text(tag: Option<Seq<char>>) -> Seq<char> {
    match tag {
        Some(t) => seq![' '] + t,
        None => Seq::empty(),
    }
}

pub open spec fn short_text(b: BlockV) -> Seq<char> {
    match b {
        BlockV::Flow(f) => seq![' '] + flow_text(f),
        _ => Seq::empty(),
    }
}

/// The lines of a table or a list whose first line is indented so far.
pub open spec fn block_lines(b: BlockV, indent: int) -> Seq<LineV>
    decreases b,
{
    match b {
        BlockV::Table(es) => entries_lines(es, indent),
        BlockV::List(xs) => listed_lines(xs, indent),
        _ => Seq::empty(),
    }
}

pub open spec fn entries_lines(es: Seq<EntryV>, indent: int) -> Seq<LineV>
    decreases es,
{
    if es.len() == 0 {
        Seq::empty()
    } else {
        entry_lines(es[0], indent) + entries_lines(es.skip(1), indent)
    }
}

/// A key and its colon, its tag, its value; a longer value two blanks further in.
pub open spec fn entry_lines(e: EntryV, indent: int) -> Seq<LineV>
    decreases e,
{
    seq![
        LineV {
            indent,
            content: e.key + seq![':'] + (tag_text(e.tag) + short_text(e.value)),
        },
    ] + block_lines(e.value, indent + 2)
}

pub open spec fn listed_lines(xs: Seq<ListedV>, indent: int) -> Seq<LineV>
    decreases xs,
{
    if xs.len() == 0 {
        Seq::empty()
    } else {
        one_listed(xs[0], indent) + listed_lines(xs.skip(1), indent)
    }
}

/// A dash, and the value behind it: a longer one starts on the line of the dash,
/// or below it where a tag stands there.
pub open spec fn one_listed(x: ListedV, indent: int) -> Seq<LineV>
    decreases x,
{
    let below = block_lines(x.value, indent + 2);
    if is_long(x.value) && x.tag is None {
        seq![LineV { indent, content: seq!['-', ' '] + below[0].content }] + below.skip(1)
    } else {
        seq![
            LineV { indent, content: seq!['-'] + (tag_text(x.tag) + short_text(x.value)) },
        ] + below
    }
}

pub open spec fn block_node(b: BlockV) -> NodeV
    decreases b,
{
    match b {
        BlockV::Nothing => scalar_node(Seq::empty()),
        BlockV::Flow(f) => flow_node(f),
        BlockV::Table(es) => map_node(entries_nodes(es)),
        BlockV::List(xs) => list_node(listed_nodes(xs)),
    }
}

pub open spec fn entries_nodes(es: Seq<EntryV>) -> Seq<(Seq<char>, NodeV)>
    decreases es,
{
    if es.len() == 0 {
        Seq::empty()
    } else {
        seq![entry_node(es[0])] + entries_nodes(es.skip(1))
    }
}

pub open spec fn entry_node(e: EntryV) -> (Seq<char>, NodeV)
    decreases e,
{
    (e.key, block_node(e.value).tagged(e.tag))
}

pub open spec fn listed_nodes(xs: Seq<ListedV>) -> Seq<NodeV>
    decreases xs,
{
    if xs.len() == 0 {
        Seq::empty()
    } else {
        seq![listed_node(xs[0])] + listed_nodes(xs.skip(1))
    }
}

pub open spec fn listed_node(x: ListedV) -> NodeV
    decreases x,
{
    block_node(x.value).tagged(x.tag)
}

// ---- the lines -------------------------------------------------------------

/// The start of a line: a dash, or a key and its colon.
spec fn starts_well(c: Seq<char>) -> bool {
    is_item(c) || exists|k: int|
        0 < k < c.len() && #[trigger] c[k] == ':' && plain(c.take(k))
}

spec fn line_ok(l: LineV, indent: int) -> bool {
    &&& closed_text(false, l.content)
    &&& l.content.len() > 0
    &&& !is_space(l.content[0])
    &&& !is_space(l.content.last())
    &&& starts_well(l.content)
    &&& l.indent >= indent
}

spec fn lines_ok(ls: Seq<LineV>, indent: int) -> bool {
    forall|i: int| 0 <= i < ls.len() ==> line_ok(#[trigger] ls[i], indent)
}

proof fn lemma_lines_both(a: Seq<LineV>, b: Seq<LineV>, indent: int)
    requires
        lines_ok(a, indent),
        lines_ok(b, indent),
    ensures
        lines_ok(a + b, indent),
{
    let s = a + b;
    assert forall|i: int| 0 <= i < s.len() implies line_ok(#[trigger] s[i], indent) by {
        if i < a.len() {
            assert(line_ok(a[i], indent));
        } else {
            assert(line_ok(b[i - a.len()], indent));
        }
    }
}

proof fn lemma_lines_deeper(a: Seq<LineV>, indent: int)
    requires
        lines_ok(a, indent + 2),
    ensures
        lines_ok(a, indent),
{
    assert forall|i: int| 0 <= i < a.len() implies line_ok(#[trigger] a[i], indent) by {
        assert(line_ok(a[i], indent + 2));
    }
}

/// What stands behind the colon or the dash.
spec fn tail_text(tag: Option<Seq<char>>, b: BlockV) -> Seq<char> {
    tag_text(tag) + short_text(b)
}

proof fn lemma_tail(tag: Option<Seq<char>>, b: BlockV)
    requires
        tag is Some ==> is_tag(tag->0),
        is_block(b),
    ensures
        closed_text(false, tail_text(tag, b)),
        tail_text(tag, b).len() > 0 ==> tail_text(tag, b)[0] == ' ' && !is_space(
            tail_text(tag, b).last(),
        ),
        ({
            let after = trimmed_start(tail_text(tag, b));
            let (t, rest) = split_tag(after);
            &&& t == tag
            &&& match b {
                BlockV::Flow(f) => trimmed(rest) == flow_text(f) && after.len() > 0,
                _ => trimmed(rest).len() == 0 && (after.len() > 0 <==> tag is Some),
            }
            &&& after.len() > 0 ==> tail_text(tag, b) == seq![' '] + after && !is_space(after[0])
            &&& after.len() == 0 ==> tail_text(tag, b).len() == 0
        }),
{
    let s = tail_text(tag, b);
    let none = Seq::<char>::empty();
    lemma_idle_closed(false, none);
    assert(trimmed(none) =~= none);
    match b {
        BlockV::Flow(f) => {
            let v = flow_text(f);
            lemma_flow(f);
            lemma_solid(v);
            lemma_space_closed(false, v);
            match tag {
                Some(t) => {
                    lemma_tagged(t, v);
                    lemma_tag_closed(t);
                    lemma_space_closed(false, t);
                    lemma_closed_both(false, seq![' '] + t, seq![' '] + v);
                    let after = t + seq![' '] + v;
                    assert(s =~= seq![' '] + after);
                    assert(s.skip(1) =~= after);
                    assert(after[0] == '!');
                    assert(trimmed_start(s) == trimmed_start(s.skip(1)));
                    assert(s.last() == v.last());
                },
                None => {
                    assert(s =~= seq![' '] + v);
                    assert(s.last() == v.last());
                },
            }
        },
        _ => {
            match tag {
                Some(t) => {
                    lemma_tag_closed(t);
                    lemma_space_closed(false, t);
                    assert(s =~= seq![' '] + t);
                    assert(s.skip(1) =~= t);
                    assert(t[0] == '!');
                    assert(trimmed_start(s) == trimmed_start(s.skip(1)));
                    lemma_lone_tag(t, 0);
                    assert(t.take(t.len() as int) =~= t);
                    assert(t.skip(t.len() as int) =~= none);
                    assert(trimmed_start(none) =~= none);
                    if t.len() > 1 {
                        let c = t[t.len() - 1];
                        assert('a' <= c <= 'z' || 'A' <= c <= 'Z' || c == '-');
                    }
                    assert(s.last() == t.last());
                },
                None => {
                    assert(s =~= none);
                    assert(trimmed_start(none) =~= none);
                },
            }
        },
    }
}

proof fn lemma_lone_tag(t: Seq<char>, i: int)
    requires
        is_tag(t),
        0 <= i <= t.len(),
    ensures
        next_space(t, i) == t.len(),
    decreases t.len() - i,
{
    if i < t.len() {
        if i > 0 {
            assert('a' <= t[i] <= 'z' || 'A' <= t[i] <= 'Z' || t[i] == '-');
        }
        lemma_lone_tag(t, i + 1);
    }
}

/// The line of an entry.
proof fn lemma_head(e: EntryV, indent: int)
    requires
        is_entry(e),
    ensures
        line_ok(entry_lines(e, indent)[0], indent),
        ({
            let c = entry_lines(e, indent)[0].content;
            &&& !is_item(c)
            &&& !unsupported(c)
            &&& c[0] != '!'
            &&& key_and_rest(c) == Some((e.key, trimmed_start(tail_text(e.tag, e.value))))
        }),
{
    let r = tail_text(e.tag, e.value);
    let k = e.key;
    let c = k + seq![':'] + r;
    lemma_tail(e.tag, e.value);
    assert forall|j: int| 0 <= j < (k + seq![':']).len() implies idle(
        #[trigger] (k + seq![':'])[j],
    ) && (k + seq![':'])[j] != ',' && (k + seq![':'])[j] != '#' && (k + seq![':'])[j] != '\n' by {
        if j < k.len() {
            assert(plain_char(k[j]));
            if k[j] == '\n' {
                assert(is_space('\n'));
            }
        }
    }
    lemma_idle_closed(false, k + seq![':']);
    lemma_closed_both(false, k + seq![':'], r);
    assert(plain_char(k[0]));
    assert(c[0] == k[0]);
    lemma_key_place(k, r, 0);
    lemma_key_closed(k);
    assert(c.take(k.len() as int) =~= k);
    assert(c.skip(k.len() as int + 1) =~= r);
    assert(c[k.len() as int] == ':');
    if r.len() > 0 {
        assert(c.last() == r.last());
    } else {
        assert(c.last() == ':');
    }
    reveal_strlit("<<");
    assert("<<"@.len() == 2 && "<<"@[0] == '<');
    if has_prefix(c, "<<"@) {
        assert(c.take(2)[0] == '<');
    }
}

/// The line of a dash with its tag and a short value.
proof fn lemma_dash(x: ListedV, indent: int)
    requires
        is_listed(x),
    ensures
        line_ok(
            LineV { indent, content: seq!['-'] + (tag_text(x.tag) + short_text(x.value)) },
            indent,
        ),
        is_item(seq!['-'] + (tag_text(x.tag) + short_text(x.value))),
{
    let r = tail_text(x.tag, x.value);
    let c = seq!['-'] + r;
    lemma_tail(x.tag, x.value);
    lemma_idle_closed(false, seq!['-']);
    lemma_closed_both(false, seq!['-'], r);
    if r.len() > 0 {
        assert(c[1] == r[0]);
        assert(c.last() == r.last());
    }
}

proof fn lemma_block_lines(b: BlockV, indent: int)
    requires
        is_block(b),
    ensures
        lines_ok(block_lines(b, indent), indent),
        is_long(b) ==> block_lines(b, indent).len() > 0 && block_lines(b, indent)[0].indent
            == indent,
        b is Table ==> !is_item(block_lines(b, indent)[0].content),
        b is List ==> is_item(block_lines(b, indent)[0].content),
        is_long(b) ==> block_lines(b, indent)[0].content[0] != '!',
        block_lines(b, indent).len() == block_lines(b, 0).len(),
    decreases b,
{
    match b {
        BlockV::Table(es) => {
            lemma_entries_lines(es, indent);
        },
        BlockV::List(xs) => {
            lemma_listed_lines(xs, indent);
        },
        _ => {},
    }
}

proof fn lemma_entries_lines(es: Seq<EntryV>, indent: int)
    requires
        are_entries(es),
    ensures
        lines_ok(entries_lines(es, indent), indent),
        es.len() > 0 ==> entries_lines(es, indent).len() > 0 && entries_lines(es, indent)[0].indent
            == indent && !is_item(entries_lines(es, indent)[0].content) && entries_lines(
            es,
            indent,
        )[0].content[0] != '!',
        entries_lines(es, indent).len() == entries_lines(es, 0).len(),
    decreases es,
{
    if es.len() > 0 {
        lemma_entry_lines(es[0], indent);
        lemma_entries_lines(es.skip(1), indent);
        lemma_head(es[0], indent);
        lemma_lines_both(entry_lines(es[0], indent), entries_lines(es.skip(1), indent), indent);
    }
}

proof fn lemma_entry_lines(e: EntryV, indent: int)
    requires
        is_entry(e),
    ensures
        lines_ok(entry_lines(e, indent), indent),
        entry_lines(e, indent).len() == entry_lines(e, 0).len(),
    decreases e,
{
    lemma_head(e, indent);
    lemma_block_lines(e.value, indent + 2);
    lemma_block_lines(e.value, 2);
    let below = block_lines(e.value, indent + 2);
    lemma_lines_deeper(below, indent);
    let ls = entry_lines(e, indent);
    assert forall|i: int| 0 <= i < ls.len() implies line_ok(#[trigger] ls[i], indent) by {
        if i > 0 {
            assert(ls[i] == below[i - 1]);
            assert(line_ok(below[i - 1], indent));
        }
    }
}

proof fn lemma_listed_lines(xs: Seq<ListedV>, indent: int)
    requires
        are_listed(xs),
    ensures
        lines_ok(listed_lines(xs, indent), indent),
        xs.len() > 0 ==> listed_lines(xs, indent).len() > 0 && listed_lines(xs, indent)[0].indent
            == indent && is_item(listed_lines(xs, indent)[0].content),
        listed_lines(xs, indent).len() == listed_lines(xs, 0).len(),
    decreases xs,
{
    if xs.len() > 0 {
        lemma_one_listed(xs[0], indent);
        lemma_listed_lines(xs.skip(1), indent);
        lemma_lines_both(one_listed(xs[0], indent), listed_lines(xs.skip(1), indent), indent);
    }
}

proof fn lemma_one_listed(x: ListedV, indent: int)
    requires
        is_listed(x),
    ensures
        lines_ok(one_listed(x, indent), indent),
        one_listed(x, indent).len() > 0,
        one_listed(x, indent)[0].indent == indent,
        is_item(one_listed(x, indent)[0].content),
        forall|i: int|
            1 <= i < one_listed(x, indent).len() ==> (#[trigger] one_listed(x, indent)[i]).indent
                >= indent + 2,
        one_listed(x, indent).len() == one_listed(x, 0).len(),
    decreases x,
{
    let below = block_lines(x.value, indent + 2);
    lemma_block_lines(x.value, indent + 2);
    lemma_block_lines(x.value, 2);
    lemma_lines_deeper(below, indent);
    let ls = one_listed(x, indent);
    if is_long(x.value) && x.tag is None {
        let c = below[0].content;
        assert(line_ok(below[0], indent + 2));
        lemma_idle_closed(false, seq!['-', ' ']);
        lemma_closed_both(false, seq!['-', ' '], c);
        assert((seq!['-', ' '] + c).last() == c.last());
        assert forall|i: int| 0 <= i < ls.len() implies line_ok(#[trigger] ls[i], indent) && (i >= 1
            ==> ls[i].indent >= indent + 2) by {
            if i > 0 {
                assert(ls[i] == below[i]);
                assert(line_ok(below[i], indent + 2));
            }
        }
    } else {
        lemma_dash(x, indent);
        assert forall|i: int| 0 <= i < ls.len() implies line_ok(#[trigger] ls[i], indent) && (i >= 1
            ==> ls[i].indent >= indent + 2) by {
            if i > 0 {
                assert(ls[i] == below[i - 1]);
                assert(line_ok(below[i - 1], indent + 2));
            }
        }
    }
}

// ---- reading them ----------------------------------------------------------

/// What follows a block is indented less, or there is nothing.
spec fn ends_block(q: Seq<LineV>, indent: int) -> bool {
    q.len() > 0 ==> q[0].indent < indent
}

proof fn lemma_read(p: Seq<LineV>, b: BlockV, indent: int, q: Seq<LineV>)
    requires
        is_block(b),
        is_long(b),
        ends_block(q, indent),
    ensures
        block(p + block_lines(b, indent) + q, p.len() as int, indent) == Ok::<
            (NodeV, nat),
            Seq<char>,
        >((block_node(b), block_lines(b, indent).len())),
    decreases b,
{
    lemma_block_lines(b, indent);
    let all = p + block_lines(b, indent) + q;
    assert(all[p.len() as int] == block_lines(b, indent)[0]);
    match b {
        BlockV::Table(es) => {
            lemma_read_entries(p, es, indent, q);
        },
        BlockV::List(xs) => {
            lemma_read_listed(p, xs, indent, q);
        },
        _ => {},
    }
}

proof fn lemma_read_entries(p: Seq<LineV>, es: Seq<EntryV>, indent: int, q: Seq<LineV>)
    requires
        are_entries(es),
        ends_block(q, indent),
    ensures
        block_entries(p + entries_lines(es, indent) + q, p.len() as int, indent) == Ok::<
            (Seq<(Seq<char>, NodeV)>, nat),
            Seq<char>,
        >((entries_nodes(es), entries_lines(es, indent).len())),
    decreases es,
{
    let all = p + entries_lines(es, indent) + q;
    let i = p.len() as int;
    if es.len() == 0 {
        if q.len() > 0 {
            assert(all[i] == q[0]);
        }
    } else {
        let e = es[0];
        let rest = es.skip(1);
        let first = entry_lines(e, indent);
        let more = entries_lines(rest, indent);
        let after = more + q;
        lemma_entries_lines(rest, indent);
        assert(ends_block(after, indent + 1)) by {
            if rest.len() > 0 {
                assert(after[0] == more[0]);
            } else if q.len() > 0 {
                assert(after[0] == q[0]);
            }
        }
        assert(all =~= p + first + after);
        lemma_read_entry(p, e, indent, after);
        lemma_read_entries(p + first, rest, indent, q);
        assert((p + first) + more + q =~= all);
        lemma_head(e, indent);
        assert(all[i] == first[0]);
        let m = block_lines(e.value, indent + 2).len();
        assert(i + 1 + m == (p + first).len());
        let tail = trimmed_start(tail_text(e.tag, e.value));
        let c = first[0].content;
        assert(key_and_rest(c) == Some((e.key, tail)));
        assert(entry_value(all, i, indent, split_tag(tail).1) == Ok::<(NodeV, nat), Seq<char>>(
            (block_node(e.value), m),
        ));
        assert(block_entries(all, i + 1 + m, indent) == Ok::<
            (Seq<(Seq<char>, NodeV)>, nat),
            Seq<char>,
        >((entries_nodes(rest), more.len())));
        assert(entries_lines(es, indent).len() == 1 + m + more.len());
        assert(all[i].indent == indent && all[i].content == c);
        assert(i < all.len());
        assert(block_entries(all, i, indent) == Ok::<(Seq<(Seq<char>, NodeV)>, nat), Seq<char>>(
            (seq![(e.key, block_node(e.value).tagged(e.tag))] + entries_nodes(rest), 1 + m
                + more.len()),
        ));
        assert(entry_node(e) == (e.key, block_node(e.value).tagged(e.tag)));
        assert(entries_nodes(es) == seq![entry_node(e)] + entries_nodes(rest));
    }
}

/// The value of an entry, read at its line.
proof fn lemma_read_entry(p: Seq<LineV>, e: EntryV, indent: int, after: Seq<LineV>)
    requires
        is_entry(e),
        ends_block(after, indent + 1),
    ensures
        ({
            let all = p + entry_lines(e, indent) + after;
            let tail = trimmed_start(tail_text(e.tag, e.value));
            &&& split_tag(tail).0 == e.tag
            &&& entry_value(all, p.len() as int, indent, split_tag(tail).1) == Ok::<
                (NodeV, nat),
                Seq<char>,
            >((block_node(e.value), block_lines(e.value, indent + 2).len()))
        }),
    decreases e,
{
    let first = entry_lines(e, indent);
    let all = p + first + after;
    let i = p.len() as int;
    let below = block_lines(e.value, indent + 2);
    lemma_tail(e.tag, e.value);
    match e.value {
        BlockV::Nothing => {
            if after.len() > 0 {
                assert(all[i + 1] == after[0]);
            }
        },
        BlockV::Flow(f) => {
            lemma_flow(f);
        },
        _ => {
            let p1 = p.push(first[0]);
            lemma_block_lines(e.value, indent + 2);
            lemma_read(p1, e.value, indent + 2, after);
            assert(p1 + below + after =~= all);
            assert(all[i + 1] == below[0]);
        },
    }
}

proof fn lemma_run(all: Seq<LineV>, i: int, j: int, indent: int)
    requires
        0 <= i <= j <= all.len(),
        forall|k: int| i <= k < j ==> (#[trigger] all[k]).indent >= indent,
        j < all.len() ==> all[j].indent < indent,
    ensures
        run_len(all, i, indent) == j - i,
    decreases j - i,
{
    if i < j {
        assert(all[i].indent >= indent);
        lemma_run(all, i + 1, j, indent);
    }
}

proof fn lemma_read_listed(p: Seq<LineV>, xs: Seq<ListedV>, indent: int, q: Seq<LineV>)
    requires
        are_listed(xs),
        ends_block(q, indent),
    ensures
        block_items(p + listed_lines(xs, indent) + q, p.len() as int, indent) == Ok::<
            (Seq<NodeV>, nat),
            Seq<char>,
        >((listed_nodes(xs), listed_lines(xs, indent).len())),
    decreases xs,
{
    let all = p + listed_lines(xs, indent) + q;
    let i = p.len() as int;
    if xs.len() == 0 {
        if q.len() > 0 {
            assert(all[i] == q[0]);
        }
    } else {
        let x = xs[0];
        let rest = xs.skip(1);
        let first = one_listed(x, indent);
        let more = listed_lines(rest, indent);
        let after = more + q;
        lemma_listed_lines(rest, indent);
        lemma_one_listed(x, indent);
        assert(ends_block(after, indent + 1)) by {
            if rest.len() > 0 {
                assert(after[0] == more[0]);
            } else if q.len() > 0 {
                assert(after[0] == q[0]);
            }
        }
        assert(all =~= p + first + after);
        assert(all[i] == first[0]);
        let j = i + first.len();
        assert forall|k: int| i + 1 <= k < j implies (#[trigger] all[k]).indent >= indent + 2 by {
            assert(all[k] == first[k - i]);
        }
        if j < all.len() {
            assert(all[j] == after[0]);
        }
        lemma_run(all, i + 1, j, indent + 2);
        assert(all.subrange(i, j) =~= first);
        lemma_item_lines(all, i, x, indent);
        lemma_read_item(x, indent);
        lemma_read_listed(p + first, rest, indent, q);
        assert((p + first) + more + q =~= all);
    }
}

/// The lines of an item as they are read: what follows the dash, as if it stood
/// two blanks further in.
spec fn sub_lines(x: ListedV, indent: int) -> Seq<LineV> {
    let below = block_lines(x.value, indent + 2);
    let after = trimmed_start(tail_text(x.tag, x.value));
    if is_long(x.value) && x.tag is None {
        below
    } else if after.len() > 0 {
        seq![LineV { indent: indent + 2, content: after }] + below
    } else {
        below
    }
}

proof fn lemma_item_lines(all: Seq<LineV>, i: int, x: ListedV, indent: int)
    requires
        is_listed(x),
        0 <= i,
        i + one_listed(x, indent).len() <= all.len(),
        all.subrange(i, i + one_listed(x, indent).len()) == one_listed(x, indent),
        run_len(all, i + 1, indent + 2) == one_listed(x, indent).len() - 1,
    ensures
        item_lines(all, i, indent) == sub_lines(x, indent),
{
    let first = one_listed(x, indent);
    lemma_one_listed(x, indent);
    let below = block_lines(x.value, indent + 2);
    let n = first.len();
    assert(all[i] == first[0]) by {
        assert(all.subrange(i, i + n)[0] == all[i]);
    }
    assert(all.subrange(i + 1, i + n) =~= first.skip(1)) by {
        assert(all.subrange(i + 1, i + n) =~= all.subrange(i, i + n).skip(1));
    }
    lemma_block_lines(x.value, indent + 2);
    if is_long(x.value) && x.tag is None {
        let c = below[0].content;
        assert(line_ok(below[0], indent + 2));
        let d = (seq!['-', ' '] + c).skip(1);
        assert(d =~= seq![' '] + c);
        assert(d.skip(1) =~= c);
        assert(trimmed_start(d) == trimmed_start(d.skip(1)));
        assert(trimmed_start(c) == c);
        assert(first.skip(1) =~= below.skip(1));
        assert(seq![below[0]] + below.skip(1) =~= below);
        assert(below[0].indent == indent + 2);
    } else {
        let r = tail_text(x.tag, x.value);
        lemma_tail(x.tag, x.value);
        assert((seq!['-'] + r).skip(1) =~= r);
        assert(first.skip(1) =~= below);
    }
}

proof fn lemma_read_item(x: ListedV, indent: int)
    requires
        is_listed(x),
    ensures
        block_item(sub_lines(x, indent), indent + 2) == Ok::<NodeV, Seq<char>>(listed_node(x)),
    decreases x,
{
    let sub = sub_lines(x, indent);
    let below = block_lines(x.value, indent + 2);
    let none = Seq::<LineV>::empty();
    lemma_tail(x.tag, x.value);
    lemma_block_lines(x.value, indent + 2);
    lemma_block_lines(x.value, 0);
    if is_long(x.value) {
        lemma_read(none, x.value, indent + 2, none);
        assert(none + below + none =~= below);
        if x.tag is None {
            let c = sub[0].content;
            assert(line_ok(below[0], indent + 2));
            assert(trimmed_start(c) == c);
            assert(trimmed(c) == c);
            assert(split_tag(c) == (None::<Seq<char>>, c));
            assert(retagged(sub, c) =~= sub);
        } else {
            assert(sub.skip(1) =~= below);
            assert(sub[1] == below[0]);
        }
    } else {
        assert(below =~= Seq::empty());
        match x.value {
            BlockV::Flow(f) => {
                lemma_flow(f);
            },
            _ => {},
        }
    }
}

// ---- whole documents -------------------------------------------------------

pub open spec fn blanks(n: nat) -> Seq<char>
    decreases n,
{
    if n == 0 {
        Seq::empty()
    } else {
        seq![' '] + blanks((n - 1) as nat)
    }
}

/// The line as it is written: blanks, and what they indent.
pub open spec fn written(l: LineV) -> Seq<char> {
    blanks(l.indent as nat) + l.content
}

pub open spec fn written_lines(ls: Seq<LineV>) -> Seq<Seq<char>> {
    ls.map_values(|l: LineV| written(l))
}

proof fn lemma_blanks(n: nat, c: Seq<char>)
    requires
        c.len() > 0,
        !is_space(c[0]),
    ensures
        blanks(n).len() == n,
        trimmed_start(blanks(n) + c) == c,
        !tab_indented(blanks(n) + c),
        forall|k: int| 0 <= k < n ==> #[trigger] blanks(n)[k] == ' ',
    decreases n,
{
    let s = blanks(n) + c;
    if n == 0 {
        assert(s =~= c);
        if c[0] == '\t' {
            assert(is_space('\t'));
        }
    } else {
        let m = (n - 1) as nat;
        lemma_blanks(m, c);
        assert(s.skip(1) =~= blanks(m) + c);
        assert(s[0] == ' ');
        assert forall|k: int| 0 <= k < n implies #[trigger] blanks(n)[k] == ' ' by {
            if k > 0 {
                assert(blanks(n)[k] == blanks(m)[k - 1]);
            }
        }
    }
}

proof fn lemma_width(s: Seq<char>)
    requires
        forall|k: int| 0 <= k < s.len() ==> #[trigger] s[k] == ' ',
    ensures
        byte_width(s) == s.len(),
    decreases s.len(),
{
    if s.len() > 0 {
        lemma_width(s.drop_last());
        assert(s[s.len() - 1] == ' ');
    }
}

proof fn lemma_no_comment(s: Seq<char>, i: int)
    requires
        calm(false, s),
        0 <= i <= s.len(),
    ensures
        comment_start(s, i) == s.len(),
    decreases s.len() - i,
{
    if i < s.len() {
        assert(s[i] != '\n');
        lemma_no_comment(s, i + 1);
    }
}

proof fn lemma_starts(c: Seq<char>)
    requires
        starts_well(c),
        c.len() > 0,
        !is_space(c.last()),
    ensures
        c != "---"@,
        c != "..."@,
        !has_prefix(c, "--- "@),
        !has_prefix(c, "... "@),
        c[0] != '&' && c[0] != '*' && c[0] != '|' && c[0] != '>',
        !has_prefix(c, "<<"@),
{
    reveal_strlit("---");
    reveal_strlit("...");
    reveal_strlit("--- ");
    reveal_strlit("... ");
    reveal_strlit("<<");
    assert("---"@.len() == 3 && "---"@[0] == '-' && "---"@[1] == '-');
    assert("..."@.len() == 3 && "..."@[0] == '.' && "..."@[1] == '.' && "..."@[2] == '.');
    assert("--- "@.len() == 4 && "--- "@[0] == '-' && "--- "@[1] == '-');
    assert("... "@.len() == 4 && "... "@[0] == '.' && "... "@[1] == '.' && "... "@[2] == '.'
        && "... "@[3] == ' ');
    assert("<<"@.len() == 2 && "<<"@[0] == '<');
    if has_prefix(c, "--- "@) {
        assert(c.take(4)[0] == '-' && c.take(4)[1] == '-');
    }
    if has_prefix(c, "<<"@) {
        assert(c.take(2)[0] == '<');
    }
    if has_prefix(c, "... "@) {
        assert(c.take(4)[0] == '.' && c.take(4)[1] == '.' && c.take(4)[2] == '.' && c.take(4)[3]
            == ' ');
    }
    if !is_item(c) {
        let k = choose|k: int| 0 < k < c.len() && #[trigger] c[k] == ':' && plain(c.take(k));
        let key = c.take(k);
        assert(plain_char(key[0]));
        assert(key[0] == c[0]);
        if has_prefix(c, "... "@) && k > 3 {
            assert(plain_char(key[3]));
        }
    }
}

proof fn lemma_written(l: LineV, n: int)
    requires
        line_ok(l, 0),
    ensures
        logical_line(written(l), n) == Ok::<Option<LineV>, Seq<char>>(Some(l)),
        one_line(written(l)),
        drop_cr(written(l)) == written(l),
{
    let c = l.content;
    let b = blanks(l.indent as nat);
    let s = b + c;
    lemma_blanks(l.indent as nat, c);
    assert forall|k: int| 0 <= k < b.len() implies idle(#[trigger] b[k]) && b[k] != ',' && b[k]
        != '#' && b[k] != '\n' by {
        assert(b[k] == ' ');
    }
    lemma_idle_closed(false, b);
    lemma_calm_both(false, b, c);
    lemma_no_comment(s, 0);
    assert(s.take(s.len() as int) =~= s);
    assert(s.last() == c.last());
    assert(trimmed_end(s) == s);
    lemma_starts(c);
    let lead = s.take(s.len() - c.len());
    assert(lead =~= b);
    lemma_width(b);
    if s.contains('\n') {
        let k = choose|k: int| 0 <= k < s.len() && s[k] == '\n';
        assert(s[k] != '\n');
    }
    if s.last() == '\r' {
        assert(is_space('\r'));
    }
}

proof fn lemma_logical(raw: Seq<Seq<char>>, lv: Seq<LineV>, n: int)
    requires
        raw.len() == lv.len(),
        0 <= n <= raw.len(),
        forall|i: int|
            0 <= i < raw.len() ==> logical_line(#[trigger] raw[i], i + 1) == Ok::<
                Option<LineV>,
                Seq<char>,
            >(Some(lv[i])),
    ensures
        logical_lines(raw, n) == Ok::<Seq<LineV>, Seq<char>>(lv.skip(n)),
    decreases raw.len() - n,
{
    if n < raw.len() {
        lemma_logical(raw, lv, n + 1);
        assert(logical_line(raw[n], n + 1) == Ok::<Option<LineV>, Seq<char>>(Some(lv[n])));
        assert(seq![lv[n]] + lv.skip(n + 1) =~= lv.skip(n));
    } else {
        assert(lv.skip(n) =~= Seq::empty());
    }
}

/// A document that is written in indented lines is read as what was written: tables
/// and lists in one another, to any depth, each value with its key and its tag, in
/// their order.
pub proof fn documents_read_back(b: BlockV)
    requires
        is_block(b),
        is_long(b),
    ensures
        document(unlines(written_lines(block_lines(b, 0)))) == Ok::<NodeV, Seq<char>>(
            block_node(b),
        ),
{
    let lv = block_lines(b, 0);
    let raw = written_lines(lv);
    lemma_block_lines(b, 0);
    assert forall|i: int| 0 <= i < raw.len() implies one_line(#[trigger] raw[i]) && drop_cr(raw[i])
        == raw[i] by {
        assert(line_ok(lv[i], 0));
        lemma_written(lv[i], i + 1);
    }
    assert forall|i: int| 0 <= i < raw.len() implies logical_line(#[trigger] raw[i], i + 1) == Ok::<
        Option<LineV>,
        Seq<char>,
    >(Some(lv[i])) by {
        assert(line_ok(lv[i], 0));
        lemma_written(lv[i], i + 1);
    }
    lines_read_back(raw);
    assert(without_cr(raw) =~= raw);
    lemma_logical(raw, lv, 0);
    assert(lv.skip(0) =~= lv);
    let none = Seq::<LineV>::empty();
    lemma_read(none, b, 0, none);
    assert(none + lv + none =~= lv);
}

/// The value of a field between double or single quotes is the text between them:
/// a record whose field is written so is read as the record whose field is that
/// text.
pub proof fn quoted_fields_are_what_stands_between(
    name: Seq<char>,
    key: Seq<char>,
    double: bool,
    s: Seq<char>,
)
    requires
        plain(name),
        plain(key),
        quotable(double, s),
    ensures
        document(
            unlines(
                seq![
                    name + seq![':'],
                    seq![' ', ' '] + key + seq![':', ' '] + quoted_text(double, s),
                ],
            ),
        ) == Ok::<NodeV, Seq<char>>(
            map_node(seq![(name, map_node(seq![(key, scalar_node(s))]))]),
        ),
{
    let f = FlowV::Quoted { double, text: s };
    let e = EntryV { key, tag: None, value: BlockV::Flow(f) };
    let t = BlockV::Table(seq![e]);
    let r = EntryV { key: name, tag: None, value: t };
    let b = BlockV::Table(seq![r]);
    reveal_with_fuel(are_entries, 3);
    reveal_with_fuel(is_entry, 3);
    reveal_with_fuel(is_block, 4);
    reveal_with_fuel(is_flow, 2);
    assert(seq![e].skip(1) =~= Seq::empty());
    assert(seq![r].skip(1) =~= Seq::empty());
    assert(is_entry(e));
    assert(are_entries(seq![e]));
    assert(is_entry(r));
    assert(are_entries(seq![r]));
    documents_read_back(b);
    lemma_one_entry(e, 2);
    lemma_one_entry(r, 0);
    assert(block_lines(BlockV::Flow(f), 4) =~= Seq::empty());
    assert(block_lines(t, 2) == entries_lines(seq![e], 2));
    let l0 = LineV { indent: 0, content: name + seq![':'] };
    let l1 = LineV { indent: 2, content: key + seq![':', ' '] + quoted_text(double, s) };
    assert(name + seq![':'] + (tag_text(None) + short_text(t)) =~= l0.content);
    assert(key + seq![':'] + (tag_text(None) + short_text(BlockV::Flow(f))) =~= l1.content) by {
        assert(flow_text(f) == quoted_text(double, s));
    }
    assert(entry_lines(e, 2) =~= seq![l1]);
    assert(entry_lines(r, 0) =~= seq![l0, l1]);
    assert(block_lines(b, 0) =~= seq![l0, l1]);
    reveal_with_fuel(blanks, 3);
    assert(written(l0) =~= name + seq![':']);
    assert(written(l1) =~= seq![' ', ' '] + key + seq![':', ' '] + quoted_text(double, s));
    assert(written_lines(block_lines(b, 0)) =~= seq![
        name + seq![':'],
        seq![' ', ' '] + key + seq![':', ' '] + quoted_text(double, s),
    ]);
    assert(entries_nodes(seq![e]) =~= seq![(key, scalar_node(s))]);
    assert(entries_nodes(seq![r]) =~= seq![(name, map_node(seq![(key, scalar_node(s))]))]);
}

proof fn lemma_one_entry(e: EntryV, indent: int)
    ensures
        entries_lines(seq![e], indent) == entry_lines(e, indent),
        entries_nodes(seq![e]) == seq![entry_node(e)],
{
    let es = seq![e];
    assert(es.skip(1) =~= Seq::empty());
    assert(entries_lines(es.skip(1), indent) =~= Seq::empty());
    assert(entries_lines(es, indent) =~= entry_lines(e, indent));
    assert(entries_nodes(es.skip(1)) =~= Seq::empty());
    assert(entries_nodes(es) =~= seq![entry_node(e)]);
}

/// A key between quotes is what stands between them, whatever it holds: a colon
/// there ends nothing.
pub proof fn quoted_keys_are_what_stands_between(double: bool, k: Seq<char>, v: Seq<char>)
    requires
        quotable(double, k),
        v.len() > 0,
        !is_space(v[0]),
    ensures
        key_and_rest(quoted_text(double, k) + seq![':', ' '] + v) == Some((k, v)),
{
    let q = quoted_text(double, k);
    let s = q + seq![':', ' '] + v;
    let n = q.len() as int;
    lemma_quoted_closed(double, k);
    quoted_values_are_what_stands_between(double, k);
    lemma_quoted_key_end(double, k, v, 0);
    assert(s.take(n) =~= q);
    let r = s.skip(n + 1);
    assert(r =~= seq![' '] + v);
    assert(r.skip(1) =~= v);
    assert(trimmed_start(r) == trimmed_start(r.skip(1)));
    assert(q[0] == q.last());
    assert(trimmed(q) == q);
}

proof fn lemma_quoted_key_end(double: bool, k: Seq<char>, v: Seq<char>, i: int)
    requires
        quotable(double, k),
        0 <= i <= k.len() + 2,
    ensures
        key_end(quoted_text(double, k) + seq![':', ' '] + v, i) == k.len() + 2,
    decreases k.len() + 2 - i,
{
    let q = quoted_text(double, k);
    let s = q + seq![':', ' '] + v;
    assert(s =~= q + (seq![':', ' '] + v));
    lemma_front(false, q, seq![':', ' '] + v, i);
    if i < k.len() + 2 {
        assert(s[i] == q[i]);
        if 1 <= i <= k.len() {
            lemma_in_quotes(double, k, i);
        }
        lemma_quoted_key_end(double, k, v, i + 1);
    } else {
        lemma_quoted_closed(double, k);
        assert(s[i] == ':');
        assert(s[i + 1] == ' ');
    }
}

// ---- lines that say nothing ------------------------------------------------

proof fn lemma_comment_place(l: Seq<char>, r: Seq<char>, i: int)
    requires
        0 <= i <= l.len(),
        forall|k: int| 0 <= k < l.len() ==> #[trigger] l[k] != '\'' && l[k] != '"' && l[k] != '#',
        r.len() > 0 && r[0] == '#',
        l.len() == 0 || l.last() == ' ',
    ensures
        comment_start(l + r, i) == l.len(),
    decreases l.len() - i,
{
    let s = l + r;
    if i < l.len() {
        assert(s[i] == l[i]);
        lemma_comment_place(l, r, i + 1);
    } else {
        lemma_unquoted_front(l, i);
        lemma_front(false, l, r, i);
        assert(s[i] == '#');
        if i > 0 {
            assert(s[i - 1] == l[i - 1]);
        }
    }
}

proof fn lemma_unquoted_front(l: Seq<char>, i: int)
    requires
        0 <= i <= l.len(),
        forall|k: int| 0 <= k < l.len() ==> #[trigger] l[k] != '\'' && l[k] != '"' && l[k] != '#',
    ensures
        quotes_at(false, l, i) == fresh(),
    decreases i,
{
    if i > 0 {
        lemma_unquoted_front(l, i - 1);
        assert(l[i - 1] != '"');
    }
}

proof fn lemma_tab(l: Seq<char>, r: Seq<char>)
    requires
        r.len() > 0,
        r[0] != '\t',
        r[0] == ' ' ==> r.len() > 1 && r[1] == '#',
    ensures
        tab_indented(l + r) == tab_indented(l),
    decreases l.len(),
{
    let s = l + r;
    if l.len() == 0 {
        assert(s =~= r);
        if r[0] == ' ' {
            assert(r.skip(1)[0] == '#');
            assert(!tab_indented(r.skip(1)));
        }
    } else {
        assert(s[0] == l[0]);
        assert(s.skip(1) =~= l.skip(1) + r);
        if l[0] == ' ' {
            lemma_tab(l.skip(1), r);
        }
    }
}

/// A comment behind a blank changes nothing of its line, and a line that holds only
/// a comment or blanks says nothing.
pub proof fn comments_say_nothing(l: Seq<char>, c: Seq<char>, n: int)
    requires
        forall|k: int| 0 <= k < l.len() ==> #[trigger] l[k] != '\'' && l[k] != '"' && l[k] != '#',
    ensures
        logical_line(l + (seq![' ', '#'] + c), n) == logical_line(l, n),
        logical_line(seq!['#'] + c, n) == Ok::<Option<LineV>, Seq<char>>(None),
        logical_line(Seq::empty(), n) == Ok::<Option<LineV>, Seq<char>>(None),
{
    let r = seq!['#'] + c;
    let m = l.push(' ');
    let s = l + (seq![' ', '#'] + c);
    assert(s =~= m + r);
    lemma_comment_place(m, r, 0);
    assert(s.take(m.len() as int) =~= m);
    assert(m.drop_last() =~= l);
    assert(trimmed_end(m) == trimmed_end(m.drop_last()));
    lemma_tab(l, seq![' ', '#'] + c);
    lemma_no_sign(l, 0);
    assert(l.take(l.len() as int) =~= l);
    let none = Seq::<char>::empty();
    lemma_comment_place(none, r, 0);
    assert(none + r =~= r);
    assert(r.take(0) =~= none);
    assert(r[0] == '#');
    assert(trimmed_end(none) =~= none);
    assert(trimmed_start(none) =~= none);
    assert(none.take(0) =~= none);
}

proof fn lemma_no_sign(l: Seq<char>, i: int)
    requires
        0 <= i <= l.len(),
        forall|k: int| 0 <= k < l.len() ==> #[trigger] l[k] != '\'' && l[k] != '"' && l[k] != '#',
    ensures
        comment_start(l, i) == l.len(),
    decreases l.len() - i,
{
    if i < l.len() {
        assert(l[i] != '#');
        lemma_no_sign(l, i + 1);
    }
}

/// The number of a line matters for nothing but its error.
proof fn lemma_number(l: Seq<char>, n: int, m: int)
    ensures
        logical_line(l, n) is Ok ==> logical_line(l, m) == logical_line(l, n),
{
}

proof fn lemma_lines_later(raw: Seq<Seq<char>>, more: Seq<Seq<char>>, i: int, j: int)
    requires
        0 <= i <= raw.len(),
        0 <= j,
        raw.len() - i == more.len() - j,
        forall|k: int| i <= k < raw.len() ==> #[trigger] raw[k] == more[k - i + j],
        logical_lines(raw, i) is Ok,
    ensures
        logical_lines(more, j) == logical_lines(raw, i),
    decreases raw.len() - i,
{
    if i < raw.len() {
        assert(raw[i] == more[j]);
        lemma_number(raw[i], i + 1, j + 1);
        assert(logical_lines(raw, i + 1) is Ok);
        assert forall|k: int| i + 1 <= k < raw.len() implies #[trigger] raw[k] == more[k - (i + 1)
            + (j + 1)] by {
            assert(raw[k] == more[k - i + j]);
        }
        lemma_lines_later(raw, more, i + 1, j + 1);
    }
}

proof fn lemma_insert(a: Seq<Seq<char>>, x: Seq<char>, b: Seq<Seq<char>>, i: int)
    requires
        0 <= i <= a.len(),
        logical_line(x, 0) == Ok::<Option<LineV>, Seq<char>>(None),
        logical_lines(a + b, i) is Ok,
    ensures
        logical_lines(a + seq![x] + b, i) == logical_lines(a + b, i),
    decreases a.len() - i,
{
    let old_lines = a + b;
    let new_lines = a + seq![x] + b;
    if i < a.len() {
        assert(old_lines[i] == new_lines[i]);
        lemma_insert(a, x, b, i + 1);
    } else {
        assert(new_lines[i] == x);
        lemma_number(x, 0, i + 1);
        lemma_lines_later(old_lines, new_lines, i, i + 1);
    }
}

/// A line that says nothing can stand anywhere in a document, and what is read
/// stays the same.
pub proof fn empty_lines_change_nothing(a: Seq<Seq<char>>, x: Seq<char>, b: Seq<Seq<char>>)
    requires
        each_one_line(a + seq![x] + b),
        logical_line(drop_cr(x), 0) == Ok::<Option<LineV>, Seq<char>>(None),
        document(unlines(a + b)) is Ok,
    ensures
        document(unlines(a + seq![x] + b)) == document(unlines(a + b)),
{
    assert forall|i: int| 0 <= i < (a + b).len() implies one_line(#[trigger] (a + b)[i]) by {
        if i < a.len() {
            assert(one_line((a + seq![x] + b)[i]));
        } else {
            assert(one_line((a + seq![x] + b)[i + 1]));
        }
    }
    lines_read_back(a + seq![x] + b);
    lines_read_back(a + b);
    let a2 = without_cr(a);
    let b2 = without_cr(b);
    assert(without_cr(a + b) =~= a2 + b2);
    assert(without_cr(a + seq![x] + b) =~= a2 + seq![drop_cr(x)] + b2);
    lemma_insert(a2, drop_cr(x), b2, 0);
}

} // verus!
