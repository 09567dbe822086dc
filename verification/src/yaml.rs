//! A small block-YAML reader for declarative tweaks. It keeps tags (`!append`,
//! `!remove`, ...) and the order of the fields.
//!
//! This is not full YAML. It reads block maps and block lists, scalars, one-line
//! flow collections (`[a, b]` / `{x: 1}`), tags, `#` comments and quotes.
//! Anchors, block scalars, merge keys and multiple documents are errors.
use vstd::prelude::*;
use vstd::slice::slice_subrange;

use crate::node::{entries_view, lemma_entries_push, lemma_nodes_push, list_node, map_node,
    nodes_view, outcome, scalar_node, tag_view, NodeV};
use crate::scan::{lemma_pieces_total, pieces, quotes_at, split_pieces, total_len, Scan};
use crate::text::{byte_width, chars_of, copy_chars, dec, has_prefix, is_lit, is_space, same_str,
    is_whitespace, lemma_trimmed_len, lemma_trimmed_start, lines_of, push_chars, push_dec, push_lit,
    slices_view, split_lines, starts_with, string_of, trim, trim_end, trim_start, trimmed,
    trimmed_end, trimmed_start, width_of};

pub use crate::node::{Kind, Node};

verus! {

// ---- one line --------------------------------------------------------------

/// A logical line: its indentation and what follows it.
pub struct LineV {
    pub indent: int,
    pub content: Seq<char>,
}

/// Indentation is counted in bytes, in a type that no document can overflow.
struct Line {
    indent: u128,
    content: Vec<char>,
}

impl View for Line {
    type V = LineV;

    closed spec fn view(&self) -> LineV {
        LineV { indent: self.indent as int, content: self.content@ }
    }
}

spec fn lines_view(v: Seq<Line>) -> Seq<LineV> {
    v.map_values(|l: Line| l@)
}

/// Does the comment sign at `i` start a comment? It must stand outside quotes,
/// at the start of the line or behind a blank.
pub open spec fn comment_at(s: Seq<char>, i: int) -> bool {
    &&& s[i] == '#'
    &&& quotes_at(false, s, i).none()
    &&& (i == 0 || s[i - 1] == ' ' || s[i - 1] == '\t')
}

/// Where the comment starts, searching from `i`; the length if there is none.
pub open spec fn comment_start(s: Seq<char>, i: int) -> int
    decreases s.len() - i,
{
    if i >= s.len() {
        s.len() as int
    } else if comment_at(s, i) {
        i
    } else {
        comment_start(s, i + 1)
    }
}

/// Does a tab follow the leading blanks?
pub open spec fn tab_indented(s: Seq<char>) -> bool
    decreases s.len(),
{
    s.len() > 0 && (s[0] == '\t' || (s[0] == ' ' && tab_indented(s.skip(1))))
}

pub open spec fn line_error(n: int, what: Seq<char>) -> Seq<char> {
    "linha "@ + dec(n as nat) + what
}

/// The logical line in a physical one, with number `n`: none where nothing but
/// a comment stands there, an error where it holds something unsupported.
pub open spec fn logical_line(raw: Seq<char>, n: int) -> Result<Option<LineV>, Seq<char>> {
    let code = trimmed_end(raw.take(comment_start(raw, 0)));
    let content = trimmed_start(code);
    if tab_indented(raw) {
        Err(line_error(n, ": tab na indentação (use espaços)"@))
    } else if content.len() == 0 {
        Ok(None)
    } else if content == "---"@ || content == "..."@ || has_prefix(content, "--- "@) || has_prefix(
        content,
        "... "@,
    ) {
        Err(line_error(n, ": multi-documento não suportado"@))
    } else if content[0] == '&' || content[0] == '*' || has_prefix(content, "<<"@) {
        Err(line_error(n, ": âncoras/merge YAML não suportados"@))
    } else if content[0] == '|' || content[0] == '>' {
        Err(line_error(n, ": escalares de bloco (|/>) não suportados"@))
    } else {
        Ok(Some(LineV { indent: byte_width(code.take(code.len() - content.len())), content }))
    }
}

/// The logical lines of the physical lines from number `n` (from 0) on.
pub open spec fn logical_lines(raw: Seq<Seq<char>>, n: int) -> Result<Seq<LineV>, Seq<char>>
    decreases raw.len() - n,
{
    if n >= raw.len() {
        Ok(Seq::empty())
    } else {
        match logical_line(raw[n], n + 1) {
            Err(e) => Err(e),
            Ok(first) => match logical_lines(raw, n + 1) {
                Err(e) => Err(e),
                Ok(rest) => match first {
                    None => Ok(rest),
                    Some(l) => Ok(seq![l] + rest),
                },
            },
        }
    }
}

// ---- scalars, tags, keys ---------------------------------------------------

pub open spec fn quoted_by(s: Seq<char>, q: char) -> bool {
    s.len() >= 2 && s[0] == q && s.last() == q
}

/// The text without blanks around it and without one pair of quotes.
pub open spec fn unquoted(s: Seq<char>) -> Seq<char> {
    let t = trimmed(s);
    if quoted_by(t, '"') || quoted_by(t, '\'') {
        t.subrange(1, t.len() - 1)
    } else {
        t
    }
}

/// The first whitespace at or after `i`, or the length.
pub open spec fn next_space(s: Seq<char>, i: int) -> int
    decreases s.len() - i,
{
    if i >= s.len() {
        s.len() as int
    } else if is_space(s[i]) {
        i
    } else {
        next_space(s, i + 1)
    }
}

/// A tag at the start of a text, and what follows it.
pub open spec fn split_tag(s: Seq<char>) -> (Option<Seq<char>>, Seq<char>) {
    let t = trimmed_start(s);
    if t.len() > 0 && t[0] == '!' {
        let end = next_space(t, 0);
        (Some(t.take(end)), trimmed_start(t.skip(end)))
    } else {
        (None, s)
    }
}

/// Does the colon at `i` end a key? It stands outside quotes, at the end or
/// before a blank.
pub open spec fn key_ends(s: Seq<char>, i: int) -> bool {
    s[i] == ':' && quotes_at(false, s, i).none() && (i + 1 == s.len() || s[i + 1] == ' ')
}

pub open spec fn key_end(s: Seq<char>, i: int) -> int
    decreases s.len() - i,
{
    if i >= s.len() {
        s.len() as int
    } else if key_ends(s, i) {
        i
    } else {
        key_end(s, i + 1)
    }
}

/// `key: rest`.
pub open spec fn key_and_rest(s: Seq<char>) -> Option<(Seq<char>, Seq<char>)> {
    let i = key_end(s, 0);
    if i >= s.len() {
        None
    } else {
        Some((unquoted(trimmed(s.take(i))), trimmed_start(s.skip(i + 1))))
    }
}

/// Is the text an entry with the merge key, `<<: ...`?
pub open spec fn is_merge(s: Seq<char>) -> bool {
    has_prefix(s, "<<"@) && key_and_rest(s) is Some && (key_and_rest(s)->0).0 == "<<"@
}

/// Does an entry start with something unsupported: an anchor, an alias, a block
/// scalar, or the merge key?
pub open spec fn unsupported(s: Seq<char>) -> bool {
    is_merge(s) || (s.len() > 0 && (s[0] == '&' || s[0] == '*' || s[0] == '|' || s[0] == '>'))
}

pub open spec fn unsupported_error(s: Seq<char>) -> Seq<char> {
    "valor YAML não suportado (âncora/alias/bloco): '"@ + s + "'"@
}

pub open spec fn enclosed(s: Seq<char>, open: char, close: char) -> bool {
    s.len() >= 2 && s[0] == open && s.last() == close
}

pub open spec fn inside(s: Seq<char>) -> Seq<char> {
    s.subrange(1, s.len() - 1)
}

/// The parts of a flow collection: none where only blanks stand between the
/// brackets.
pub open spec fn flow_parts(inner: Seq<char>) -> Seq<Seq<char>> {
    let ps = pieces(false, inner, ',', 0);
    if ps.len() == 1 && trimmed(ps[0]).len() == 0 {
        Seq::empty()
    } else {
        ps
    }
}

/// The node that a one-line value denotes.
pub open spec fn flow_value(s: Seq<char>) -> Result<NodeV, Seq<char>>
    decreases s.len(), 0int,
    via flow_value_decreases
{
    if unsupported(s) {
        Err(unsupported_error(s))
    } else if enclosed(s, '[', ']') {
        match flow_items(flow_parts(inside(s))) {
            Ok(v) => Ok(list_node(v)),
            Err(e) => Err(e),
        }
    } else if enclosed(s, '{', '}') {
        match flow_entries(flow_parts(inside(s))) {
            Ok(v) => Ok(map_node(v)),
            Err(e) => Err(e),
        }
    } else {
        Ok(scalar_node(unquoted(s)))
    }
}

#[via_fn]
proof fn flow_value_decreases(s: Seq<char>) {
    if s.len() >= 2 {
        lemma_flow_parts_total(inside(s));
    }
}

/// The items of a flow list; the first error, if there is one.
pub open spec fn flow_items(ps: Seq<Seq<char>>) -> Result<Seq<NodeV>, Seq<char>>
    decreases total_len(ps), ps.len() + 1,
    via flow_items_decreases
{
    if ps.len() == 0 {
        Ok(Seq::empty())
    } else {
        let (tag, body) = split_tag(ps[0]);
        match flow_value(trimmed(body)) {
            Err(e) => Err(e),
            Ok(n) => match flow_items(ps.skip(1)) {
                Err(e) => Err(e),
                Ok(rest) => Ok(seq![n.tagged(tag)] + rest),
            },
        }
    }
}

#[via_fn]
proof fn flow_items_decreases(ps: Seq<Seq<char>>) {
    if ps.len() > 0 {
        lemma_split_tag(ps[0]);
        lemma_trimmed_len(split_tag(ps[0]).1);
    }
}

/// The entries of a flow map; blank parts are passed over.
pub open spec fn flow_entries(ps: Seq<Seq<char>>) -> Result<
    Seq<(Seq<char>, NodeV)>,
    Seq<char>,
>
    decreases total_len(ps), ps.len() + 1,
    via flow_entries_decreases
{
    if ps.len() == 0 {
        Ok(Seq::empty())
    } else if trimmed(ps[0]).len() == 0 {
        flow_entries(ps.skip(1))
    } else if unsupported(trimmed(ps[0])) {
        Err(unsupported_error(trimmed(ps[0])))
    } else {
        match key_and_rest(trimmed(ps[0])) {
            None => Err("flow map inválido: '"@ + ps[0] + "'"@),
            Some((k, v)) => match flow_value(trimmed(v)) {
                Err(e) => Err(e),
                Ok(n) => match flow_entries(ps.skip(1)) {
                    Err(e) => Err(e),
                    Ok(rest) => Ok(seq![(k, n)] + rest),
                },
            },
        }
    }
}

#[via_fn]
proof fn flow_entries_decreases(ps: Seq<Seq<char>>) {
    if ps.len() > 0 {
        lemma_trimmed_len(ps[0]);
        lemma_key_and_rest(trimmed(ps[0]));
        if let Some((k, v)) = key_and_rest(trimmed(ps[0])) {
            lemma_trimmed_len(v);
        }
    }
}

proof fn lemma_flow_parts_total(inner: Seq<char>)
    ensures
        total_len(flow_parts(inner)) <= inner.len(),
{
    lemma_pieces_total(false, inner, ',', 0);
    assert(total_len(Seq::<Seq<char>>::empty()) == 0);
}

proof fn lemma_next_space(s: Seq<char>, i: int)
    requires
        0 <= i <= s.len(),
    ensures
        i <= next_space(s, i) <= s.len(),
    decreases s.len() - i,
{
    if i < s.len() && !is_space(s[i]) {
        lemma_next_space(s, i + 1);
    }
}

proof fn lemma_split_tag(s: Seq<char>)
    ensures
        split_tag(s).1.len() <= s.len(),
        split_tag(s).0 is Some ==> split_tag(s).1.len() < s.len(),
{
    lemma_trimmed_start(s);
    let t = trimmed_start(s);
    if t.len() > 0 && t[0] == '!' {
        lemma_next_space(t, 0);
        assert(!is_space('!'));
        lemma_next_space(t, 1);
        lemma_trimmed_start(t.skip(next_space(t, 0)));
    }
}

proof fn lemma_key_end(s: Seq<char>, i: int)
    requires
        0 <= i <= s.len(),
    ensures
        i <= key_end(s, i) <= s.len(),
    decreases s.len() - i,
{
    if i < s.len() && !key_ends(s, i) {
        lemma_key_end(s, i + 1);
    }
}

proof fn lemma_key_and_rest(s: Seq<char>)
    ensures
        key_and_rest(s) is Some ==> (key_and_rest(s)->0).1.len() < s.len(),
{
    lemma_key_end(s, 0);
    if key_end(s, 0) < s.len() {
        lemma_trimmed_start(s.skip(key_end(s, 0) + 1));
    }
}

// ---- blocks ----------------------------------------------------------------

pub open spec fn is_item(content: Seq<char>) -> bool {
    content.len() > 0 && content[0] == '-' && (content.len() == 1 || content[1] == ' ')
}

/// The amount of text from line `i` on.
pub open spec fn weight(lines: Seq<LineV>, i: int) -> nat
    decreases lines.len() - i,
{
    if i < 0 || i >= lines.len() {
        0
    } else {
        lines[i].content.len() + 1 + weight(lines, i + 1)
    }
}

/// The number of lines from `i` on that are indented by at least `indent`.
pub open spec fn run_len(lines: Seq<LineV>, i: int, indent: int) -> nat
    decreases lines.len() - i,
{
    if i < 0 || i >= lines.len() || lines[i].indent < indent {
        0
    } else {
        1 + run_len(lines, i + 1, indent)
    }
}

/// The lines of the list item at line `i`, whose dash is indented by `base`:
/// what follows the dash, and the deeper lines below it.
pub open spec fn item_lines(lines: Seq<LineV>, i: int, base: int) -> Seq<LineV> {
    let after = trimmed_start(lines[i].content.skip(1));
    let below = lines.subrange(i + 1, i + 1 + run_len(lines, i + 1, base + 2));
    if after.len() > 0 {
        seq![LineV { indent: base + 2, content: after }] + below
    } else {
        below
    }
}

/// The block at line `i`, with the number of lines that it takes.
pub open spec fn block(lines: Seq<LineV>, i: int, base: int) -> Result<(NodeV, nat), Seq<char>>
    decreases weight(lines, i), 3int,
{
    if is_item(lines[i].content) {
        match block_items(lines, i, base) {
            Ok((v, n)) => Ok((list_node(v), n)),
            Err(e) => Err(e),
        }
    } else {
        match block_entries(lines, i, base) {
            Ok((v, n)) => Ok((map_node(v), n)),
            Err(e) => Err(e),
        }
    }
}

/// The list items from line `i` on, with the number of lines that they take.
pub open spec fn block_items(lines: Seq<LineV>, i: int, base: int) -> Result<
    (Seq<NodeV>, nat),
    Seq<char>,
>
    decreases weight(lines, i), 2int,
    via block_items_decreases
{
    if 0 <= i < lines.len() && lines[i].indent == base && is_item(lines[i].content) {
        let n = 1 + run_len(lines, i + 1, base + 2);
        match block_item(item_lines(lines, i, base), base + 2) {
            Err(e) => Err(e),
            Ok(first) => match block_items(lines, i + n, base) {
                Err(e) => Err(e),
                Ok((rest, m)) => Ok((seq![first] + rest, (n + m) as nat)),
            },
        }
    } else {
        Ok((Seq::empty(), 0))
    }
}

#[via_fn]
proof fn block_items_decreases(lines: Seq<LineV>, i: int, base: int) {
    if 0 <= i < lines.len() && is_item(lines[i].content) {
        lemma_item_weight(lines, i, base);
    }
}

/// The node of one list item.
pub open spec fn block_item(sub: Seq<LineV>, indent: int) -> Result<NodeV, Seq<char>>
    decreases weight(sub, 0), 4int,
    via block_item_decreases
{
    if sub.len() == 0 {
        Ok(scalar_node(Seq::empty()))
    } else {
        let (tag, first) = split_tag(sub[0].content);
        let value = if trimmed(first).len() > 0 {
            if sub.len() == 1 {
                flow_value(trimmed(first))
            } else {
                match block(retagged(sub, first), 0, indent) {
                    Ok((n, _)) => Ok(n),
                    Err(e) => Err(e),
                }
            }
        } else if sub.len() == 1 {
            Ok(scalar_node(Seq::empty()))
        } else {
            match block(sub.skip(1), 0, sub[1].indent) {
                Ok((n, _)) => Ok(n),
                Err(e) => Err(e),
            }
        };
        match value {
            Ok(n) => Ok(n.tagged(tag)),
            Err(e) => Err(e),
        }
    }
}

/// The same lines with another content in the first.
pub open spec fn retagged(sub: Seq<LineV>, first: Seq<char>) -> Seq<LineV> {
    sub.update(0, LineV { indent: sub[0].indent, content: first })
}

#[via_fn]
proof fn block_item_decreases(sub: Seq<LineV>, indent: int) {
    if sub.len() > 0 {
        let first = split_tag(sub[0].content).1;
        lemma_split_tag(sub[0].content);
        lemma_weight_same(retagged(sub, first), 1, sub, 1, (sub.len() - 1) as nat);
        lemma_weight_same(sub.skip(1), 0, sub, 1, (sub.len() - 1) as nat);
    }
}

/// The value of a key at line `i`, with the number of further lines that it takes.
pub open spec fn entry_value(lines: Seq<LineV>, i: int, base: int, rest: Seq<char>) -> Result<
    (NodeV, nat),
    Seq<char>,
>
    decreases weight(lines, i), 1int,
{
    if trimmed(rest).len() > 0 {
        match flow_value(trimmed(rest)) {
            Ok(n) => Ok((n, 0)),
            Err(e) => Err(e),
        }
    } else if 0 <= i && i + 1 < lines.len() && lines[i + 1].indent > base {
        block(lines, i + 1, lines[i + 1].indent)
    } else {
        Ok((scalar_node(Seq::empty()), 0))
    }
}

/// The map entries from line `i` on, with the number of lines that they take.
pub open spec fn block_entries(lines: Seq<LineV>, i: int, base: int) -> Result<
    (Seq<(Seq<char>, NodeV)>, nat),
    Seq<char>,
>
    decreases weight(lines, i), 2int,
    via block_entries_decreases
{
    if 0 <= i < lines.len() && lines[i].indent == base && !is_item(lines[i].content) {
        if unsupported(lines[i].content) {
            Err(unsupported_error(lines[i].content))
        } else {
            match key_and_rest(lines[i].content) {
                None => Err(line_error(i + 1, ": esperava `chave: valor`"@)),
                Some((key, after)) => {
                    let (tag, rest) = split_tag(after);
                    match entry_value(lines, i, base, rest) {
                        Err(e) => Err(e),
                        Ok((n, m)) => match block_entries(lines, i + 1 + m, base) {
                            Err(e) => Err(e),
                            Ok((more, k)) => Ok((seq![(key, n.tagged(tag))] + more, 1 + m + k)),
                        },
                    }
                },
            }
        }
    } else {
        Ok((Seq::empty(), 0))
    }
}

#[via_fn]
proof fn block_entries_decreases(lines: Seq<LineV>, i: int, base: int) {
    if 0 <= i < lines.len() {
        assert forall|m: nat| #[trigger] weight(lines, i + 1 + m) < weight(lines, i) by {
            lemma_weight_later(lines, i + 1, i + 1 + m);
        }
    }
}

/// Later lines weigh no more.
proof fn lemma_weight_later(lines: Seq<LineV>, i: int, j: int)
    requires
        0 <= i <= j,
    ensures
        weight(lines, j) <= weight(lines, i),
    decreases j - i,
{
    if i < j {
        lemma_weight_later(lines, i + 1, j);
    }
}

/// Equal stretches weigh the same, and a stretch weighs no more than the lines
/// that it starts.
proof fn lemma_weight_same(a: Seq<LineV>, i: int, b: Seq<LineV>, j: int, n: nat)
    requires
        0 <= i,
        0 <= j,
        i + n == a.len(),
        j + n <= b.len(),
        forall|k: int| 0 <= k < n ==> a[i + k].content == #[trigger] b[j + k].content,
    ensures
        weight(a, i) <= weight(b, j),
        j + n == b.len() ==> weight(a, i) == weight(b, j),
    decreases n,
{
    if n > 0 {
        assert(a[i + 0].content == b[j + 0].content);
        assert forall|k: int| 0 <= k < n - 1 implies a[i + 1 + k].content == #[trigger] b[j + 1
            + k].content by {
            assert(b[j + (1 + k)].content == a[i + (1 + k)].content);
        }
        lemma_weight_same(a, i + 1, b, j + 1, (n - 1) as nat);
    }
}

proof fn lemma_run_len(lines: Seq<LineV>, i: int, indent: int)
    requires
        0 <= i <= lines.len(),
    ensures
        i + run_len(lines, i, indent) <= lines.len(),
    decreases lines.len() - i,
{
    if i < lines.len() && lines[i].indent >= indent {
        lemma_run_len(lines, i + 1, indent);
    }
}

/// A list item weighs less than the lines it is taken from.
proof fn lemma_item_weight(lines: Seq<LineV>, i: int, base: int)
    requires
        0 <= i < lines.len(),
        is_item(lines[i].content),
    ensures
        weight(item_lines(lines, i, base), 0) < weight(lines, i),
        weight(lines, i + 1 + run_len(lines, i + 1, base + 2)) < weight(lines, i),
{
    let n = run_len(lines, i + 1, base + 2);
    lemma_run_len(lines, i + 1, base + 2);
    lemma_weight_later(lines, i + 1, i + 1 + n);
    let after = trimmed_start(lines[i].content.skip(1));
    lemma_trimmed_start(lines[i].content.skip(1));
    let sub = item_lines(lines, i, base);
    if after.len() > 0 {
        lemma_weight_same(sub, 1, lines, i + 1, n);
    } else {
        lemma_weight_same(sub, 0, lines, i + 1, n);
    }
}

/// The document that a text denotes.
pub open spec fn document(text: Seq<char>) -> Result<NodeV, Seq<char>> {
    match logical_lines(lines_of(text), 0) {
        Err(e) => Err(e),
        Ok(lines) => if lines.len() == 0 {
            Ok(map_node(Seq::empty()))
        } else {
            match block(lines, 0, lines[0].indent) {
                Err(e) => Err(e),
                Ok((n, m)) => if m == lines.len() {
                    Ok(n)
                } else {
                    Err(
                        line_error(
                            m as int + 1,
                            ": indentação inesperada (esperava fim do documento)"@,
                        ),
                    )
                },
            }
        },
    }
}

// ---- reading lines ---------------------------------------------------------

fn line_message(n: usize, what: &str) -> (r: String)
    ensures
        r@ == line_error(n as int, what@),
{
    let mut out: Vec<char> = Vec::new();
    push_lit(&mut out, "linha ");
    push_dec(&mut out, n as u128);
    push_lit(&mut out, what);
    proof {
        assert(out@ =~= line_error(n as int, what@));
    }
    string_of(out.as_slice())
}

/// Drops a comment. A sign inside quotes or right behind a word starts none.
fn strip_comment(s: &[char]) -> (r: &[char])
    ensures
        r@ == s@.take(comment_start(s@, 0)),
        r@.len() <= s@.len(),
{
    let mut st: Scan = Scan::start(false, Ghost(s@));
    let mut i: usize = 0;
    while i < s.len()
        invariant
            i <= s.len(),
            st.at(s@, i as int),
            !st.esc,
            comment_start(s@, 0) == comment_start(s@, i as int),
        decreases s.len() - i,
    {
        if s[i] == '#' && !st.quotes.single && !st.quotes.double && (i == 0 || s[i - 1] == ' '
            || s[i - 1] == '\t') {
            proof {
                assert(s@.subrange(0, i as int) =~= s@.take(i as int));
            }
            return slice_subrange(s, 0, i);
        }
        st.step(s[i], Ghost(s@), Ghost(i as int));
        i += 1;
    }
    proof {
        assert(s@.take(i as int) =~= s@);
    }
    s
}

fn has_tab_indent(s: &[char]) -> (r: bool)
    ensures
        r == tab_indented(s@),
{
    let mut i: usize = 0;
    proof {
        assert(s@.skip(0) =~= s@);
    }
    while i < s.len() && s[i] == ' '
        invariant
            i <= s.len(),
            tab_indented(s@) == tab_indented(s@.skip(i as int)),
        decreases s.len() - i,
    {
        proof {
            assert(s@.skip(i as int).skip(1) =~= s@.skip(i + 1));
        }
        i += 1;
    }
    i < s.len() && s[i] == '\t'
}

/// Leaves room for every indentation that a reader can come to.
spec fn fits(lines: Seq<Line>) -> bool {
    forall|k: int|
        0 <= k < lines.len() ==> (#[trigger] lines[k]).indent + 2 * lines[k].content@.len()
            <= 0x10_0000_0000_0000_0000
}

fn read_line(raw: &[char], n: usize) -> (r: Result<Option<Line>, String>)
    ensures
        match r {
            Ok(None) => logical_line(raw@, n as int) == Ok::<Option<LineV>, Seq<char>>(None),
            Ok(Some(l)) => logical_line(raw@, n as int) == Ok::<Option<LineV>, Seq<char>>(
                Some(l@),
            ) && fits(seq![l]),
            Err(e) => logical_line(raw@, n as int) == Err::<Option<LineV>, Seq<char>>(e@),
        },
{
    if has_tab_indent(raw) {
        return Err(line_message(n, ": tab na indentação (use espaços)"));
    }
    let code = trim_end(strip_comment(raw));
    let content = trim_start(code);
    if content.len() == 0 {
        return Ok(None);
    }
    if is_lit(content, "---") || is_lit(content, "...") || starts_with(content, "--- ")
        || starts_with(content, "... ") {
        return Err(line_message(n, ": multi-documento não suportado"));
    }
    if content[0] == '&' || content[0] == '*' || starts_with(content, "<<") {
        return Err(line_message(n, ": âncoras/merge YAML não suportados"));
    }
    if content[0] == '|' || content[0] == '>' {
        return Err(line_message(n, ": escalares de bloco (|/>) não suportados"));
    }
    let lead = slice_subrange(code, 0, code.len() - content.len());
    proof {
        assert(lead@ =~= code@.take(code@.len() - content@.len()));
    }
    let indent: u128 = width_of(lead);
    Ok(Some(Line { indent, content: copy_chars(content) }))
}

/// Puts lines before an outcome.
spec fn after_lines(front: Seq<LineV>, r: Result<Seq<LineV>, Seq<char>>) -> Result<
    Seq<LineV>,
    Seq<char>,
> {
    match r {
        Ok(v) => Ok(front + v),
        Err(e) => Err(e),
    }
}

proof fn lemma_lines_push(v: Seq<Line>, l: Line)
    ensures
        lines_view(v.push(l)) == lines_view(v).push(l@),
{
    assert(lines_view(v.push(l)) =~= lines_view(v).push(l@));
}

/// The logical lines of a text, without comments and blank lines.
fn preprocess(text: &[char]) -> (r: Result<Vec<Line>, String>)
    ensures
        match r {
            Ok(v) => logical_lines(lines_of(text@), 0) == Ok::<Seq<LineV>, Seq<char>>(
                lines_view(v@),
            ) && fits(v@),
            Err(e) => logical_lines(lines_of(text@), 0) == Err::<Seq<LineV>, Seq<char>>(e@),
        },
{
    let raw = split_lines(text);
    let ghost all = lines_of(text@);
    let mut out: Vec<Line> = Vec::new();
    let mut n: usize = 0;
    proof {
        match logical_lines(all, 0) {
            Ok(v) => {
                assert(lines_view(out@) + v =~= v);
            },
            Err(_) => {},
        }
    }
    while n < raw.len()
        invariant
            n <= raw.len(),
            all == slices_view(raw@),
            all == lines_of(text@),
            fits(out@),
            logical_lines(all, 0) == after_lines(lines_view(out@), logical_lines(all, n as int)),
        decreases raw.len() - n,
    {
        proof {
            assert(all[n as int] == raw@[n as int]@);
        }
        let ghost before = out@;
        match read_line(raw[n], n + 1) {
            Err(e) => {
                return Err(e);
            },
            Ok(None) => {},
            Ok(Some(l)) => {
                proof {
                    lemma_lines_push(out@, l);
                    assert(seq![l][0] == l);
                    match logical_lines(all, n + 1) {
                        Ok(v) => {
                            assert(lines_view(before).push(l@) + v =~= lines_view(before) + (
                            seq![l@] + v));
                        },
                        Err(_) => {},
                    }
                }
                out.push(l);
            },
        }
        n += 1;
    }
    proof {
        assert(lines_view(out@) + Seq::empty() =~= lines_view(out@));
    }
    Ok(out)
}

// ---- reading values --------------------------------------------------------

/// The text without blanks around it and without one pair of quotes.
fn unquote(s: &[char]) -> (r: &[char])
    ensures
        r@ == unquoted(s@),
{
    let t = trim(s);
    let n: usize = t.len();
    if n >= 2 && ((t[0] == '"' && t[n - 1] == '"') || (t[0] == '\'' && t[n - 1] == '\'')) {
        slice_subrange(t, 1, n - 1)
    } else {
        t
    }
}

/// Takes a tag off the start of a text.
fn take_tag(s: &[char]) -> (r: (Option<String>, &[char]))
    ensures
        tag_view(r.0) == split_tag(s@).0,
        r.1@ == split_tag(s@).1,
        r.1@.len() <= s@.len(),
{
    let t = trim_start(s);
    proof {
        lemma_split_tag(s@);
    }
    if t.len() == 0 || t[0] != '!' {
        return (None, s);
    }
    let mut end: usize = 0;
    while end < t.len() && !is_whitespace(t[end])
        invariant
            end <= t.len(),
            next_space(t@, 0) == next_space(t@, end as int),
        decreases t.len() - end,
    {
        end += 1;
    }
    proof {
        assert(t@.subrange(0, end as int) =~= t@.take(end as int));
        assert(t@.subrange(end as int, t@.len() as int) =~= t@.skip(end as int));
    }
    (
        Some(string_of(slice_subrange(t, 0, end))),
        trim_start(slice_subrange(t, end, t.len())),
    )
}

/// Splits `key: rest` at the first colon that ends a key.
fn split_key(s: &[char]) -> (r: Option<(String, &[char])>)
    ensures
        match r {
            Some((k, v)) => key_and_rest(s@) == Some((k@, v@)) && v@.len() < s@.len(),
            None => key_and_rest(s@) is None,
        },
{
    let mut st: Scan = Scan::start(false, Ghost(s@));
    let mut i: usize = 0;
    while i < s.len()
        invariant
            i <= s.len(),
            st.at(s@, i as int),
            !st.esc,
            key_end(s@, 0) == key_end(s@, i as int),
        decreases s.len() - i,
    {
        if s[i] == ':' && !st.quotes.single && !st.quotes.double && (i + 1 == s.len() || s[i + 1]
            == ' ') {
            proof {
                assert(s@.subrange(0, i as int) =~= s@.take(i as int));
                assert(s@.subrange(i + 1, s@.len() as int) =~= s@.skip(i + 1));
            }
            let key = string_of(unquote(trim(slice_subrange(s, 0, i))));
            return Some((key, trim_start(slice_subrange(s, i + 1, s.len()))));
        }
        st.step(s[i], Ghost(s@), Ghost(i as int));
        i += 1;
    }
    None
}

/// Splits the inside of a flow collection at its commas.
fn split_flow<'a>(inner: &'a [char]) -> (r: Vec<&'a [char]>)
    ensures
        slices_view(r@) == flow_parts(inner@),
{
    let (ps, _) = split_pieces(false, inner, ',');
    proof {
        assert(slices_view(ps@)[0] == ps@[0]@);
    }
    if ps.len() == 1 && trim(ps[0]).len() == 0 {
        let none: Vec<&'a [char]> = Vec::new();
        proof {
            assert(slices_view(none@) =~= Seq::empty());
        }
        return none;
    }
    ps
}

/// No part is longer than all of them together.
pub proof fn lemma_part_len(ps: Seq<Seq<char>>, i: int)
    requires
        0 <= i < ps.len(),
    ensures
        ps[i].len() <= total_len(ps),
    decreases ps.len(),
{
    if i > 0 {
        lemma_part_len(ps.skip(1), i - 1);
        assert(ps.skip(1)[i - 1] == ps[i]);
    }
}

spec fn after_nodes(front: Seq<NodeV>, r: Result<Seq<NodeV>, Seq<char>>) -> Result<
    Seq<NodeV>,
    Seq<char>,
> {
    match r {
        Ok(v) => Ok(front + v),
        Err(e) => Err(e),
    }
}

spec fn after_entries(
    front: Seq<(Seq<char>, NodeV)>,
    r: Result<Seq<(Seq<char>, NodeV)>, Seq<char>>,
) -> Result<Seq<(Seq<char>, NodeV)>, Seq<char>> {
    match r {
        Ok(v) => Ok(front + v),
        Err(e) => Err(e),
    }
}

fn surrounded(before: &str, s: &[char], after: &str) -> (r: String)
    ensures
        r@ == before@ + s@ + after@,
{
    let mut out: Vec<char> = Vec::new();
    push_lit(&mut out, before);
    push_chars(&mut out, s);
    push_lit(&mut out, after);
    proof {
        assert(out@ =~= before@ + s@ + after@);
    }
    string_of(out.as_slice())
}

fn is_unsupported(s: &[char]) -> (r: bool)
    ensures
        r == unsupported(s@),
{
    if s.len() > 0 && (s[0] == '&' || s[0] == '*' || s[0] == '|' || s[0] == '>') {
        return true;
    }
    if !starts_with(s, "<<") {
        return false;
    }
    match split_key(s) {
        None => false,
        Some((k, _)) => same_str(k.as_str(), "<<"),
    }
}

fn refuse(s: &[char]) -> (r: String)
    ensures
        r@ == unsupported_error(s@),
{
    surrounded("valor YAML não suportado (âncora/alias/bloco): '", s, "'")
}

fn parse_flow_list(inner: &[char]) -> (r: Result<Node, String>)
    ensures
        outcome(r) == match flow_items(flow_parts(inner@)) {
            Ok(v) => Ok::<NodeV, Seq<char>>(list_node(v)),
            Err(e) => Err(e),
        },
    decreases inner@.len(), 1int,
{
    let parts = split_flow(inner);
    let ghost ps = slices_view(parts@);
    let mut items: Vec<Node> = Vec::new();
    let mut i: usize = 0;
    proof {
        lemma_flow_parts_total(inner@);
        lemma_nodes_push(Seq::empty(), arbitrary());
        assert(ps.skip(0) =~= ps);
        match flow_items(ps) {
            Ok(v) => {
                assert(nodes_view(items@) + v =~= v);
            },
            Err(_) => {},
        }
    }
    while i < parts.len()
        invariant
            i <= parts.len(),
            ps == slices_view(parts@),
            total_len(ps) <= inner@.len(),
            flow_items(ps) == after_nodes(nodes_view(items@), flow_items(ps.skip(i as int))),
            ps == flow_parts(inner@),
        decreases parts.len() - i,
    {
        proof {
            lemma_part_len(ps, i as int);
            assert(ps[i as int] == parts@[i as int]@);
            assert(ps.skip(i as int)[0] == ps[i as int]);
            assert(ps.skip(i as int).skip(1) =~= ps.skip(i + 1));
        }
        let (tag, body) = take_tag(parts[i]);
        match parse_scalar_or_flow(trim(body)) {
            Err(e) => {
                return Err(e);
            },
            Ok(n) => {
                let n = n.with_tag(tag);
                proof {
                    lemma_nodes_push(items@, n);
                    match flow_items(ps.skip(i + 1)) {
                        Ok(v) => {
                            assert(nodes_view(items@).push(n@) + v =~= nodes_view(items@) + (
                            seq![n@] + v));
                        },
                        Err(_) => {},
                    }
                }
                items.push(n);
            },
        }
        i += 1;
    }
    proof {
        assert(nodes_view(items@) + Seq::empty() =~= nodes_view(items@));
    }
    Ok(Node { tag: None, kind: Kind::List(items) })
}

fn parse_flow_map(inner: &[char]) -> (r: Result<Node, String>)
    ensures
        outcome(r) == match flow_entries(flow_parts(inner@)) {
            Ok(v) => Ok::<NodeV, Seq<char>>(map_node(v)),
            Err(e) => Err(e),
        },
    decreases inner@.len(), 1int,
{
    let parts = split_flow(inner);
    let ghost ps = slices_view(parts@);
    let mut entries: Vec<(String, Node)> = Vec::new();
    let mut i: usize = 0;
    proof {
        lemma_flow_parts_total(inner@);
        assert(entries_view(entries@) =~= Seq::empty());
        assert(ps.skip(0) =~= ps);
        match flow_entries(ps) {
            Ok(v) => {
                assert(entries_view(entries@) + v =~= v);
            },
            Err(_) => {},
        }
    }
    while i < parts.len()
        invariant
            i <= parts.len(),
            ps == slices_view(parts@),
            total_len(ps) <= inner@.len(),
            flow_entries(ps) == after_entries(
                entries_view(entries@),
                flow_entries(ps.skip(i as int)),
            ),
            ps == flow_parts(inner@),
        decreases parts.len() - i,
    {
        proof {
            lemma_part_len(ps, i as int);
            assert(ps[i as int] == parts@[i as int]@);
            assert(ps.skip(i as int)[0] == ps[i as int]);
            assert(ps.skip(i as int).skip(1) =~= ps.skip(i + 1));
        }
        let part = trim(parts[i]);
        if part.len() > 0 {
            if is_unsupported(part) {
                return Err(refuse(part));
            }
            match split_key(part) {
                None => {
                    return Err(surrounded("flow map inválido: '", parts[i], "'"));
                },
                Some((k, v)) => match parse_scalar_or_flow(trim(v)) {
                    Err(e) => {
                        return Err(e);
                    },
                    Ok(n) => {
                        proof {
                            lemma_entries_push(entries@, k, n);
                            match flow_entries(ps.skip(i + 1)) {
                                Ok(w) => {
                                    assert(entries_view(entries@).push((k@, n@)) + w
                                        =~= entries_view(entries@) + (seq![(k@, n@)] + w));
                                },
                                Err(_) => {},
                            }
                        }
                        entries.push((k, n));
                    },
                },
            }
        }
        i += 1;
    }
    proof {
        assert(entries_view(entries@) + Seq::empty() =~= entries_view(entries@));
    }
    Ok(Node { tag: None, kind: Kind::Table(entries) })
}

/// A plain scalar or a one-line flow collection.
fn parse_scalar_or_flow(s: &[char]) -> (r: Result<Node, String>)
    ensures
        outcome(r) == flow_value(s@),
    decreases s@.len(), 0int,
{
    let n: usize = s.len();
    if is_unsupported(s) {
        return Err(refuse(s));
    }
    if n >= 2 && s[0] == '[' && s[n - 1] == ']' {
        return parse_flow_list(slice_subrange(s, 1, n - 1));
    }
    if n >= 2 && s[0] == '{' && s[n - 1] == '}' {
        return parse_flow_map(slice_subrange(s, 1, n - 1));
    }
    Ok(Node::scalar(string_of(unquote(s))))
}

// ---- reading blocks --------------------------------------------------------

fn is_seq_marker(content: &Vec<char>) -> (r: bool)
    ensures
        r == is_item(content@),
{
    content.len() > 0 && content[0] == '-' && (content.len() == 1 || content[1] == ' ')
}

/// A block outcome with the index of the next line.
spec fn block_outcome(r: Result<(Node, usize), String>, i: int) -> Result<
    (NodeV, nat),
    Seq<char>,
> {
    match r {
        Ok((n, j)) => Ok((n@, (j - i) as nat)),
        Err(e) => Err(e@),
    }
}

/// Reads the block at line `i`, and says where the next line stands.
fn parse_block(lines: &Vec<Line>, i: usize, base: u128) -> (r: Result<(Node, usize), String>)
    requires
        i < lines@.len(),
        fits(lines@),
    ensures
        block_outcome(r, i as int) == block(lines_view(lines@), i as int, base as int),
        r is Ok ==> i <= (r->Ok_0).1 <= lines@.len(),
    decreases weight(lines_view(lines@), i as int), 3int,
{
    proof {
        assert(lines_view(lines@)[i as int] == lines@[i as int]@);
    }
    if is_seq_marker(&lines[i].content) {
        parse_seq(lines, i, base)
    } else {
        parse_map(lines, i, base)
    }
}

fn parse_seq(lines: &Vec<Line>, start: usize, base: u128) -> (r: Result<(Node, usize), String>)
    requires
        start < lines@.len(),
        fits(lines@),
    ensures
        block_outcome(r, start as int) == match block_items(
            lines_view(lines@),
            start as int,
            base as int,
        ) {
            Ok((v, n)) => Ok::<(NodeV, nat), Seq<char>>((list_node(v), n)),
            Err(e) => Err(e),
        },
        r is Ok ==> start <= (r->Ok_0).1 <= lines@.len(),
    decreases weight(lines_view(lines@), start as int), 2int,
{
    let ghost all = lines_view(lines@);
    let mut items: Vec<Node> = Vec::new();
    let mut i: usize = start;
    proof {
        lemma_nodes_push(Seq::empty(), arbitrary());
        match block_items(all, start as int, base as int) {
            Ok((v, n)) => {
                assert(nodes_view(items@) + v =~= v);
            },
            Err(_) => {},
        }
    }
    while i < lines.len() && lines[i].indent == base && is_seq_marker(&lines[i].content)
        invariant
            start <= i <= lines.len(),
            all == lines_view(lines@),
            fits(lines@),
            weight(all, i as int) <= weight(all, start as int),
            match (
                block_items(all, start as int, base as int),
                block_items(all, i as int, base as int),
            ) {
                (Ok((v, n)), Ok((w, m))) => v == nodes_view(items@) + w && n == i - start + m,
                (Err(e), Err(f)) => e == f,
                _ => false,
            },
        decreases lines.len() - i,
    {
        let ghost at = i as int;
        proof {
            assert(all[at] == lines@[at]@);
            lemma_item_weight(all, at, base as int);
        }
        let content = &lines[i].content;
        let rest = slice_subrange(content.as_slice(), 1, content.len());
        let after = trim_start(rest);
        proof {
            assert(rest@ =~= content@.skip(1));
        }
        let item_indent: u128 = base + 2;
        let mut sub: Vec<Line> = Vec::new();
        if after.len() > 0 {
            sub.push(Line { indent: item_indent, content: copy_chars(after) });
        }
        i += 1;
        let ghost head = lines_view(sub@);
        proof {
            assert(all.subrange(at + 1, i as int) =~= Seq::empty());
            assert(head + all.subrange(at + 1, i as int) =~= head);
        }
        while i < lines.len() && lines[i].indent >= item_indent
            invariant
                at + 1 <= i <= lines.len(),
                all == lines_view(lines@),
                fits(lines@),
                fits(sub@),
                item_indent == base + 2,
                run_len(all, at + 1, base + 2) == i - (at + 1) + run_len(all, i as int, base + 2),
                lines_view(sub@) == head + all.subrange(at + 1, i as int),
            decreases lines.len() - i,
        {
            let l = Line { indent: lines[i].indent, content: copy_chars(lines[i].content.as_slice()) };
            proof {
                assert(all[i as int] == lines@[i as int]@);
                lemma_lines_push(sub@, l);
            }
            sub.push(l);
            i += 1;
            proof {
                assert(lines_view(sub@) =~= head + all.subrange(at + 1, i as int));
            }
        }
        proof {
            if i < lines.len() {
                assert(all[i as int] == lines@[i as int]@);
            }
            assert(lines_view(sub@) =~= item_lines(all, at, base as int));
        }
        match parse_item(sub, item_indent) {
            Err(e) => {
                return Err(e);
            },
            Ok(n) => {
                proof {
                    lemma_nodes_push(items@, n);
                    match block_items(all, i as int, base as int) {
                        Ok((w, m)) => {
                            assert(nodes_view(items@).push(n@) + w =~= nodes_view(items@) + (
                            seq![n@] + w));
                        },
                        Err(_) => {},
                    }
                }
                items.push(n);
            },
        }
    }
    proof {
        if i < lines.len() {
            assert(all[i as int] == lines@[i as int]@);
        }
        assert(nodes_view(items@) + Seq::empty() =~= nodes_view(items@));
    }
    Ok((Node { tag: None, kind: Kind::List(items) }, i))
}

/// Reads the lines of one list item: a tag, then a scalar, a flow collection or
/// a block.
fn parse_item(sub: Vec<Line>, item_indent: u128) -> (r: Result<Node, String>)
    requires
        fits(sub@),
    ensures
        outcome(r) == block_item(lines_view(sub@), item_indent as int),
    decreases weight(lines_view(sub@), 0), 4int,
{
    let ghost all = lines_view(sub@);
    if sub.len() == 0 {
        let empty = String::new();
        return Ok(Node::scalar(empty));
    }
    proof {
        assert(all[0] == sub@[0]@);
        let first = split_tag(all[0].content).1;
        lemma_split_tag(all[0].content);
        lemma_weight_same(retagged(all, first), 1, all, 1, (all.len() - 1) as nat);
        lemma_weight_same(all.skip(1), 0, all, 1, (all.len() - 1) as nat);
    }
    let (tag, first) = take_tag(sub[0].content.as_slice());
    let value: Result<Node, String> = if trim(first).len() > 0 {
        if sub.len() == 1 {
            parse_scalar_or_flow(trim(first))
        } else {
            let mut relined: Vec<Line> = Vec::new();
            relined.push(Line { indent: sub[0].indent, content: copy_chars(first) });
            copy_lines(&sub, &mut relined);
            proof {
                assert(lines_view(relined@) =~= retagged(all, first@));
            }
            match parse_block(&relined, 0, item_indent) {
                Ok((n, _)) => Ok(n),
                Err(e) => Err(e),
            }
        }
    } else if sub.len() == 1 {
        Ok(Node::scalar(String::new()))
    } else {
        let mut body: Vec<Line> = Vec::new();
        copy_lines(&sub, &mut body);
        proof {
            assert(all[1] == sub@[1]@);
            assert(lines_view(body@) =~= all.skip(1));
        }
        let base: u128 = body[0].indent;
        match parse_block(&body, 0, base) {
            Ok((n, _)) => Ok(n),
            Err(e) => Err(e),
        }
    };
    match value {
        Ok(n) => Ok(n.with_tag(tag)),
        Err(e) => Err(e),
    }
}

/// Appends every line but the first.
fn copy_lines(from: &Vec<Line>, to: &mut Vec<Line>)
    requires
        from@.len() > 0,
        fits(from@),
        fits(old(to)@),
    ensures
        lines_view(final(to)@) == lines_view(old(to)@) + lines_view(from@).skip(1),
        fits(final(to)@),
{
    let ghost start = lines_view(to@);
    let mut k: usize = 1;
    proof {
        assert(start + lines_view(from@).subrange(1, 1) =~= start);
    }
    while k < from.len()
        invariant
            1 <= k <= from.len(),
            fits(from@),
            fits(to@),
            lines_view(to@) == start + lines_view(from@).subrange(1, k as int),
        decreases from.len() - k,
    {
        let l = Line { indent: from[k].indent, content: copy_chars(from[k].content.as_slice()) };
        proof {
            lemma_lines_push(to@, l);
        }
        to.push(l);
        k += 1;
        proof {
            assert(lines_view(to@) =~= start + lines_view(from@).subrange(1, k as int));
        }
    }
    proof {
        assert(lines_view(from@).subrange(1, k as int) =~= lines_view(from@).skip(1));
    }
}

fn parse_map(lines: &Vec<Line>, start: usize, base: u128) -> (r: Result<(Node, usize), String>)
    requires
        start < lines@.len(),
        fits(lines@),
    ensures
        block_outcome(r, start as int) == match block_entries(
            lines_view(lines@),
            start as int,
            base as int,
        ) {
            Ok((v, n)) => Ok::<(NodeV, nat), Seq<char>>((map_node(v), n)),
            Err(e) => Err(e),
        },
        r is Ok ==> start <= (r->Ok_0).1 <= lines@.len(),
    decreases weight(lines_view(lines@), start as int), 2int,
{
    let ghost all = lines_view(lines@);
    let mut entries: Vec<(String, Node)> = Vec::new();
    let mut i: usize = start;
    proof {
        assert(entries_view(entries@) =~= Seq::empty());
        match block_entries(all, start as int, base as int) {
            Ok((v, n)) => {
                assert(entries_view(entries@) + v =~= v);
            },
            Err(_) => {},
        }
    }
    while i < lines.len() && lines[i].indent == base && !is_seq_marker(&lines[i].content)
        invariant
            start <= i <= lines.len(),
            all == lines_view(lines@),
            fits(lines@),
            weight(all, i as int) <= weight(all, start as int),
            match (
                block_entries(all, start as int, base as int),
                block_entries(all, i as int, base as int),
            ) {
                (Ok((v, n)), Ok((w, m))) => v == entries_view(entries@) + w && n == i - start + m,
                (Err(e), Err(f)) => e == f,
                _ => false,
            },
        decreases lines.len() - i,
    {
        let ghost at = i as int;
        proof {
            assert(all[at] == lines@[at]@);
            lemma_weight_later(all, at + 1, at + 1);
        }
        if is_unsupported(lines[i].content.as_slice()) {
            return Err(refuse(lines[i].content.as_slice()));
        }
        let (key, after) = match split_key(lines[i].content.as_slice()) {
            None => {
                return Err(line_message(i + 1, ": esperava `chave: valor`"));
            },
            Some(kv) => kv,
        };
        i += 1;
        let (tag, body) = take_tag(after);
        let ghost expected = entry_value(all, at, base as int, body@);
        let rest = trim(body);
        let value = if rest.len() > 0 {
            match parse_scalar_or_flow(rest) {
                Err(e) => {
                    return Err(e);
                },
                Ok(n) => n,
            }
        } else if i < lines.len() && lines[i].indent > base {
            proof {
                assert(all[i as int] == lines@[i as int]@);
            }
            match parse_block(lines, i, lines[i].indent) {
                Err(e) => {
                    return Err(e);
                },
                Ok((n, j)) => {
                    i = j;
                    n
                },
            }
        } else {
            proof {
                if i < lines.len() {
                    assert(all[i as int] == lines@[i as int]@);
                }
            }
            Node::scalar(String::new())
        };
        proof {
            assert(expected == Ok::<(NodeV, nat), Seq<char>>((value@, (i - at - 1) as nat)));
        }
        let value = value.with_tag(tag);
        proof {
            lemma_weight_later(all, at + 1, i as int);
            lemma_entries_push(entries@, key, value);
            match block_entries(all, i as int, base as int) {
                Ok((w, m)) => {
                    assert(entries_view(entries@).push((key@, value@)) + w =~= entries_view(
                        entries@,
                    ) + (seq![(key@, value@)] + w));
                },
                Err(_) => {},
            }
        }
        entries.push((key, value));
    }
    proof {
        if i < lines.len() {
            assert(all[i as int] == lines@[i as int]@);
        }
        assert(entries_view(entries@) + Seq::empty() =~= entries_view(entries@));
    }
    Ok((Node { tag: None, kind: Kind::Table(entries) }, i))
}

/// Reads a document into its root node.
pub fn parse(text: &str) -> (r: Result<Node, String>)
    ensures
        outcome(r) == document(text@),
{
    let chars = chars_of(text);
    let lines = match preprocess(chars.as_slice()) {
        Err(e) => {
            return Err(e);
        },
        Ok(v) => v,
    };
    if lines.len() == 0 {
        let entries: Vec<(String, Node)> = Vec::new();
        proof {
            assert(entries_view(entries@) =~= Seq::empty());
        }
        return Ok(Node { tag: None, kind: Kind::Table(entries) });
    }
    proof {
        assert(lines_view(lines@)[0] == lines@[0]@);
    }
    match parse_block(&lines, 0, lines[0].indent) {
        Err(e) => Err(e),
        Ok((n, i)) => if i != lines.len() {
            Err(line_message(i + 1, ": indentação inesperada (esperava fim do documento)"))
        } else {
            Ok(n)
        },
    }
}

} // verus!
