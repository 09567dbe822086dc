//! A small TOML reader for declarative tweaks. It yields the same tree as
//! [`crate::yaml`], so the interpreter needs no other front end.
//!
//! - `[Items.MyItem]` opens a table whose name is taken literally: a dot does
//!   not nest. Quotes are optional.
//! - `key = value` adds a field. A value is a string, a bare word, an array
//!   `[a, b]` or an inline table `{x = 1}`.
//! - An inline table with a single key that starts with `!` is a tagged value.
//! - Arrays and inline tables may span lines. `#` starts a comment.
//!
//! Arrays of tables, multi-line strings in triple quotes, dates and times, and
//! dotted keys are errors, never read as something else. So is a table header
//! that reuses the name of a plain value.
use vstd::prelude::*;
use vstd::slice::slice_subrange;

use crate::node::{entries_view, key_index, lemma_entries_push, lemma_nodes_push, list_node,
    map_node, nodes_view, outcome, scalar_node, Kind, KindV, Node, NodeV};
use crate::scan::{find_separator, lemma_next_separator, lemma_pieces_total, next_separator,
    pieces, quotes_at, split_pieces, total_len};
use crate::text::{chars_of, copy_chars, is_lit, lemma_trimmed_end, lemma_trimmed_len, lines_of,
    lemma_next_index, next_index, push_chars, push_lit, slices_view, split_lines, string_of, trim,
    trim_end, trimmed, trimmed_end, vecs_view};
use crate::yaml::{enclosed, inside, lemma_part_len};

verus! {

// ---- statements ------------------------------------------------------------

/// What a scan of a line finds: where its code ends, the balance of brackets
/// outside quotes, and whether a quote stays open.
pub struct CodeV {
    pub end: int,
    pub depth: int,
    pub open: bool,
}

/// Scans a line from `i` on, inside the quote `q`, at balance `depth`. Inside
/// double quotes a backslash protects the character behind it.
pub open spec fn scan_code(s: Seq<char>, i: int, q: Option<char>, depth: int) -> CodeV
    decreases s.len() - i,
{
    if i >= s.len() {
        CodeV { end: s.len() as int, depth, open: q is Some }
    } else if q == Some('"') {
        if s[i] == '\\' {
            scan_code(
                s,
                if i + 1 < s.len() {
                    i + 2
                } else {
                    i + 1
                },
                q,
                depth,
            )
        } else if s[i] == '"' {
            scan_code(s, i + 1, None, depth)
        } else {
            scan_code(s, i + 1, q, depth)
        }
    } else if q is Some {
        scan_code(
            s,
            i + 1,
            if s[i] == '\'' {
                None
            } else {
                q
            },
            depth,
        )
    } else if s[i] == '#' {
        CodeV { end: i, depth, open: false }
    } else if s[i] == '"' || s[i] == '\'' {
        scan_code(s, i + 1, Some(s[i]), depth)
    } else if s[i] == '[' || s[i] == '{' {
        scan_code(s, i + 1, q, depth + 1)
    } else if s[i] == ']' || s[i] == '}' {
        scan_code(s, i + 1, q, depth - 1)
    } else {
        scan_code(s, i + 1, q, depth)
    }
}

pub open spec fn in_ticks(before: Seq<char>, s: Seq<char>) -> Seq<char> {
    before + s + "`"@
}

/// The code of a line and its balance of brackets.
pub open spec fn code_of(s: Seq<char>) -> Result<(Seq<char>, int), Seq<char>> {
    let c = scan_code(s, 0, None, 0);
    if c.open {
        Err(in_ticks("aspas não fechadas: `"@, s))
    } else {
        Ok((s.take(c.end), c.depth))
    }
}

pub open spec fn before_statements(
    st: Seq<char>,
    r: Result<Seq<Seq<char>>, Seq<char>>,
) -> Result<Seq<Seq<char>>, Seq<char>> {
    match r {
        Ok(v) => Ok(seq![st] + v),
        Err(e) => Err(e),
    }
}

/// The statements in the lines from number `n` on, where `buf` holds what was
/// read of an unfinished one and `depth` its open brackets.
pub open spec fn statements_from(
    lines: Seq<Seq<char>>,
    n: int,
    buf: Seq<char>,
    depth: int,
) -> Result<Seq<Seq<char>>, Seq<char>>
    decreases lines.len() - n,
{
    if n >= lines.len() {
        if trimmed(buf).len() > 0 {
            Err("statement TOML incompleto (colchete/chave não fechado)"@)
        } else {
            Ok(Seq::empty())
        }
    } else {
        match code_of(lines[n]) {
            Err(e) => Err(e),
            Ok((code, delta)) => {
                let t = trimmed(code);
                if depth == 0 && t.len() == 0 {
                    statements_from(lines, n + 1, buf, depth)
                } else if depth == 0 && t[0] == '[' && delta == 0 {
                    before_statements(t, statements_from(lines, n + 1, buf, depth))
                } else {
                    let more = if depth == 0 {
                        buf + trimmed_end(code)
                    } else {
                        buf.push(' ') + t
                    };
                    if depth + delta <= 0 && more.len() > 0 {
                        before_statements(more, statements_from(lines, n + 1, Seq::empty(), 0))
                    } else {
                        statements_from(lines, n + 1, more, depth + delta)
                    }
                }
            },
        }
    }
}

// ---- values ----------------------------------------------------------------

/// Resolves the escapes `\n`, `\t`, `\r`, `\"` and `\\`; others stay as written.
pub open spec fn unescaped(s: Seq<char>) -> Seq<char>
    decreases s.len(),
{
    if s.len() == 0 {
        Seq::empty()
    } else if s[0] != '\\' || s.len() == 1 {
        seq![s[0]] + unescaped(s.skip(1))
    } else if s[1] == 'n' {
        seq!['\n'] + unescaped(s.skip(2))
    } else if s[1] == 't' {
        seq!['\t'] + unescaped(s.skip(2))
    } else if s[1] == 'r' {
        seq!['\r'] + unescaped(s.skip(2))
    } else if s[1] == '"' || s[1] == '\\' {
        seq![s[1]] + unescaped(s.skip(2))
    } else {
        seq!['\\', s[1]] + unescaped(s.skip(2))
    }
}

/// A basic string with its escapes resolved, a literal string as it stands, or
/// the bare word.
pub open spec fn unquoted(s: Seq<char>) -> Seq<char> {
    let t = trimmed(s);
    if enclosed(t, '"', '"') {
        unescaped(inside(t))
    } else if enclosed(t, '\'', '\'') {
        inside(t)
    } else {
        t
    }
}

/// Does a text start with three quotes of one kind?
pub open spec fn triple_quoted(t: Seq<char>) -> bool {
    t.len() >= 3 && (t[0] == '"' || t[0] == '\'') && t[1] == t[0] && t[2] == t[0]
}

pub open spec fn is_digit(c: char) -> bool {
    '0' <= c <= '9'
}

/// Do two digits stand at `i`?
pub open spec fn two_digits(t: Seq<char>, i: int) -> bool {
    i + 2 <= t.len() && is_digit(t[i]) && is_digit(t[i + 1])
}

/// A date, alone or before a time: `1979-05-27`.
pub open spec fn is_date(t: Seq<char>) -> bool {
    &&& two_digits(t, 0) && two_digits(t, 2) && two_digits(t, 5) && two_digits(t, 8)
    &&& t[4] == '-' && t[7] == '-'
    &&& t.len() == 10 || t[10] == 'T' || t[10] == 't' || t[10] == ' '
}

/// A time: `07:32:00`, with or without a fraction.
pub open spec fn is_time(t: Seq<char>) -> bool {
    &&& two_digits(t, 0) && two_digits(t, 3) && two_digits(t, 6)
    &&& t[2] == ':' && t[5] == ':'
    &&& t.len() == 8 || t[8] == '.'
}

/// The name that a key denotes. One that takes several parts, or several lines,
/// is refused.
pub open spec fn key_name(s: Seq<char>) -> Result<Seq<char>, Seq<char>> {
    let t = trimmed(s);
    if triple_quoted(t) {
        Err(in_ticks("string multi-linha não suportada: `"@, t))
    } else if next_separator(true, t, '.', 0) < t.len() {
        Err(in_ticks("chave com pontos não suportada (use aspas): `"@, t))
    } else {
        Ok(unquoted(t))
    }
}

/// `key = value`, split at the first equals sign outside quotes and brackets:
/// the name, and the text of the value.
pub open spec fn key_value(s: Seq<char>) -> Result<(Seq<char>, Seq<char>), Seq<char>> {
    let k = next_separator(true, s, '=', 0);
    if k >= s.len() {
        Err(in_ticks("esperava `chave = valor` em `"@, s))
    } else {
        match key_name(s.take(k)) {
            Err(e) => Err(e),
            Ok(name) => Ok((name, s.skip(k + 1))),
        }
    }
}

/// The parts without blanks around them, and without empty ones.
pub open spec fn nonblank(ps: Seq<Seq<char>>) -> Seq<Seq<char>>
    decreases ps.len(),
{
    if ps.len() == 0 {
        Seq::empty()
    } else if trimmed(ps.last()).len() == 0 {
        nonblank(ps.drop_last())
    } else {
        nonblank(ps.drop_last()).push(trimmed(ps.last()))
    }
}

/// The parts between the commas.
pub open spec fn comma_parts(s: Seq<char>) -> Result<Seq<Seq<char>>, Seq<char>> {
    if !quotes_at(true, s, s.len() as int).none() {
        Err(in_ticks("aspas não fechadas em `"@, s))
    } else {
        Ok(nonblank(pieces(true, s, ',', 0)))
    }
}

pub open spec fn tag_error(tag: Seq<char>) -> Seq<char> {
    "tag `"@ + tag
        + "` aceita escalar ou record inline (mapa), não array; p/ vários use `[ { \""@ + tag
        + "\" = item }, ... ]`"@
}

/// An inline table with a single key that starts with `!` is a tagged value.
pub open spec fn table_value(entries: Seq<(Seq<char>, NodeV)>) -> Result<NodeV, Seq<char>> {
    if entries.len() == 1 && entries[0].0.len() > 0 && entries[0].0[0] == '!' {
        let (tag, node) = entries[0];
        match node.kind {
            KindV::List(_) => Err(tag_error(tag)),
            kind => Ok(NodeV { tag: Some(tag), kind }),
        }
    } else {
        Ok(map_node(entries))
    }
}

/// The node that a value denotes.
pub open spec fn value(s: Seq<char>) -> Result<NodeV, Seq<char>>
    decreases s.len(), 0int,
    via value_decreases
{
    let t = trimmed(s);
    if t.len() == 0 {
        Err("valor vazio"@)
    } else if triple_quoted(t) {
        Err(in_ticks("string multi-linha não suportada: `"@, t))
    } else if t[0] == '"' || t[0] == '\'' {
        Ok(scalar_node(unquoted(t)))
    } else if t[0] == '[' {
        if !enclosed(t, '[', ']') {
            Err(in_ticks("array malformado: `"@, t))
        } else {
            match comma_parts(inside(t)) {
                Err(e) => Err(e),
                Ok(ps) => match values(ps) {
                    Err(e) => Err(e),
                    Ok(v) => Ok(list_node(v)),
                },
            }
        }
    } else if t[0] == '{' {
        if !enclosed(t, '{', '}') {
            Err(in_ticks("inline table malformada: `"@, t))
        } else {
            match comma_parts(inside(t)) {
                Err(e) => Err(e),
                Ok(ps) => match fields(ps) {
                    Err(e) => Err(e),
                    Ok(v) => table_value(v),
                },
            }
        }
    } else if is_date(t) || is_time(t) {
        Err(in_ticks("data/hora não suportada (use aspas): `"@, t))
    } else {
        Ok(scalar_node(t))
    }
}

#[via_fn]
proof fn value_decreases(s: Seq<char>) {
    lemma_trimmed_len(s);
    let t = trimmed(s);
    if t.len() >= 2 {
        lemma_comma_parts(inside(t));
    }
}

pub open spec fn values(ps: Seq<Seq<char>>) -> Result<Seq<NodeV>, Seq<char>>
    decreases total_len(ps), ps.len() + 1,
{
    if ps.len() == 0 {
        Ok(Seq::empty())
    } else {
        match value(ps[0]) {
            Err(e) => Err(e),
            Ok(n) => match values(ps.skip(1)) {
                Err(e) => Err(e),
                Ok(rest) => Ok(seq![n] + rest),
            },
        }
    }
}

pub open spec fn fields(ps: Seq<Seq<char>>) -> Result<Seq<(Seq<char>, NodeV)>, Seq<char>>
    decreases total_len(ps), ps.len() + 1,
    via fields_decreases
{
    if ps.len() == 0 {
        Ok(Seq::empty())
    } else {
        match key_value(ps[0]) {
            Err(e) => Err(e),
            Ok((k, v)) => match value(trimmed(v)) {
                Err(e) => Err(e),
                Ok(n) => match fields(ps.skip(1)) {
                    Err(e) => Err(e),
                    Ok(rest) => Ok(seq![(k, n)] + rest),
                },
            },
        }
    }
}

#[via_fn]
proof fn fields_decreases(ps: Seq<Seq<char>>) {
    if ps.len() > 0 {
        lemma_next_separator(true, ps[0], '=', 0);
        if let Ok((k, v)) = key_value(ps[0]) {
            lemma_trimmed_len(v);
        }
    }
}

proof fn lemma_total_push(ps: Seq<Seq<char>>, p: Seq<char>)
    ensures
        total_len(ps.push(p)) == total_len(ps) + p.len(),
    decreases ps.len(),
{
    if ps.len() == 0 {
        assert(ps.push(p).skip(1) =~= Seq::empty());
        assert(total_len(ps.push(p).skip(1)) == 0);
    } else {
        lemma_total_push(ps.skip(1), p);
        assert(ps.push(p).skip(1) =~= ps.skip(1).push(p));
    }
}

proof fn lemma_nonblank_total(ps: Seq<Seq<char>>)
    ensures
        total_len(nonblank(ps)) <= total_len(ps),
    decreases ps.len(),
{
    if ps.len() > 0 {
        lemma_nonblank_total(ps.drop_last());
        lemma_total_push(ps.drop_last(), ps.last());
        assert(ps.drop_last().push(ps.last()) =~= ps);
        lemma_total_push(nonblank(ps.drop_last()), trimmed(ps.last()));
        lemma_trimmed_len(ps.last());
    }
}

proof fn lemma_comma_parts(s: Seq<char>)
    ensures
        comma_parts(s) is Ok ==> total_len(comma_parts(s)->Ok_0) <= s.len(),
{
    lemma_pieces_total(true, s, ',', 0);
    lemma_nonblank_total(pieces(true, s, ',', 0));
}

// ---- documents -------------------------------------------------------------

/// The document as read so far: its entries, and the table that fields go to.
pub struct DocV {
    pub root: Seq<(Seq<char>, NodeV)>,
    pub cur: Option<int>,
}

/// The name in a table header.
pub open spec fn header_name(t: Seq<char>) -> Result<Seq<char>, Seq<char>> {
    let rest = t.skip(1);
    if rest.len() > 0 && rest[0] == '[' {
        Err("array-of-tables `[[...]]` não suportado"@)
    } else if rest.len() > 0 && rest.last() == ']' {
        if triple_quoted(trimmed(rest.drop_last())) {
            Err(in_ticks("string multi-linha não suportada: `"@, t))
        } else {
            Ok(unquoted(trimmed(rest.drop_last())))
        }
    } else {
        Err(in_ticks("header de tabela malformado: `"@, t))
    }
}

/// Opens the table of that name, which a first header creates.
pub open spec fn open_table(doc: DocV, name: Seq<char>) -> DocV {
    let i = key_index(doc.root, name, 0);
    if i < doc.root.len() {
        DocV { root: doc.root, cur: Some(i) }
    } else {
        DocV {
            root: doc.root.push((name, map_node(Seq::empty()))),
            cur: Some(doc.root.len() as int),
        }
    }
}

/// Adds a field to the open table, or to the document where none is open.
pub open spec fn add_field(doc: DocV, key: Seq<char>, val: NodeV) -> Result<DocV, Seq<char>> {
    match doc.cur {
        None => Ok(DocV { root: doc.root.push((key, val)), cur: None }),
        Some(i) => match doc.root[i].1.kind {
            KindV::Table(m) => Ok(
                DocV {
                    root: doc.root.update(
                        i,
                        (
                            doc.root[i].0,
                            NodeV {
                                tag: doc.root[i].1.tag,
                                kind: KindV::Table(m.push((key, val))),
                            },
                        ),
                    ),
                    cur: doc.cur,
                },
            ),
            _ => Err("tabela é sempre Map"@),
        },
    }
}

pub open spec fn statement(doc: DocV, st: Seq<char>) -> Result<DocV, Seq<char>> {
    let t = trimmed(st);
    if t.len() > 0 && t[0] == '[' {
        match header_name(t) {
            Err(e) => Err(e),
            Ok(name) => Ok(open_table(doc, name)),
        }
    } else {
        match key_value(t) {
            Err(e) => Err(e),
            Ok((k, v)) => match value(trimmed(v)) {
                Err(e) => Err(e),
                Ok(val) => add_field(doc, k, val),
            },
        }
    }
}

/// Reads the statements one after another, up to the first error.
pub open spec fn run_statements(doc: DocV, sts: Seq<Seq<char>>) -> Result<DocV, Seq<char>>
    decreases sts.len(),
{
    if sts.len() == 0 {
        Ok(doc)
    } else {
        match statement(doc, sts[0]) {
            Err(e) => Err(e),
            Ok(next) => run_statements(next, sts.skip(1)),
        }
    }
}

/// The document that a text denotes.
pub open spec fn document(text: Seq<char>) -> Result<NodeV, Seq<char>> {
    match statements_from(lines_of(text), 0, Seq::empty(), 0) {
        Err(e) => Err(e),
        Ok(sts) => match run_statements(DocV { root: Seq::empty(), cur: None }, sts) {
            Err(e) => Err(e),
            Ok(doc) => Ok(map_node(doc.root)),
        },
    }
}

// ---- reading statements ----------------------------------------------------

fn ticked(before: &str, s: &[char]) -> (r: String)
    ensures
        r@ == in_ticks(before@, s@),
{
    let mut out: Vec<char> = Vec::new();
    push_lit(&mut out, before);
    push_chars(&mut out, s);
    push_lit(&mut out, "`");
    proof {
        assert(out@ =~= in_ticks(before@, s@));
    }
    string_of(out.as_slice())
}

/// The code of a line without its comment, and its balance of brackets.
fn scan_line<'a>(s: &'a [char]) -> (r: Result<(&'a [char], i128), String>)
    ensures
        match r {
            Ok((code, delta)) => code_of(s@) == Ok::<(Seq<char>, int), Seq<char>>(
                (code@, delta as int),
            ) && -s@.len() <= delta <= s@.len() && code@.len() <= s@.len(),
            Err(e) => code_of(s@) == Err::<(Seq<char>, int), Seq<char>>(e@),
        },
{
    let mut q: Option<char> = None;
    let mut depth: i128 = 0;
    let mut i: usize = 0;
    while i < s.len() && !(q.is_none() && s[i] == '#')
        invariant
            i <= s.len() <= usize::MAX,
            -i <= depth <= i,
            scan_code(s@, 0, None, 0) == scan_code(s@, i as int, q, depth as int),
        decreases s.len() - i,
    {
        let c: char = s[i];
        match q {
            Some(open) => {
                if open == '"' {
                    if c == '\\' {
                        if s.len() - i > 1 {
                            i += 1;
                        }
                    } else if c == '"' {
                        q = None;
                    }
                } else if c == '\'' {
                    q = None;
                }
            },
            None => {
                if c == '"' || c == '\'' {
                    q = Some(c);
                } else if c == '[' || c == '{' {
                    depth += 1;
                } else if c == ']' || c == '}' {
                    depth -= 1;
                }
            },
        }
        i += 1;
    }
    if q.is_some() {
        return Err(ticked("aspas não fechadas: `", s));
    }
    proof {
        assert(s@.subrange(0, i as int) =~= s@.take(i as int));
    }
    Ok((slice_subrange(s, 0, i), depth))
}

spec fn after_statements(
    front: Seq<Seq<char>>,
    r: Result<Seq<Seq<char>>, Seq<char>>,
) -> Result<Seq<Seq<char>>, Seq<char>> {
    match r {
        Ok(v) => Ok(front + v),
        Err(e) => Err(e),
    }
}

proof fn lemma_after_push(
    front: Seq<Seq<char>>,
    st: Seq<char>,
    r: Result<Seq<Seq<char>>, Seq<char>>,
)
    ensures
        after_statements(front, before_statements(st, r)) == after_statements(front.push(st), r),
{
    match r {
        Ok(v) => {
            assert(front + (seq![st] + v) =~= front.push(st) + v);
        },
        Err(_) => {},
    }
}

/// The lines hold no more characters than the text.
proof fn lemma_lines_total(s: Seq<char>)
    ensures
        total_len(lines_of(s)) <= s.len(),
    decreases s.len(),
{
    if s.len() > 0 {
        let k = next_index(s, '\n', 0);
        lemma_next_index(s, '\n', 0);
        let ls = lines_of(s);
        if k == s.len() {
            assert(ls.skip(1) =~= Seq::empty());
            assert(total_len(ls.skip(1)) == 0);
        } else {
            lemma_lines_total(s.skip(k + 1));
            assert(ls.skip(1) =~= lines_of(s.skip(k + 1)));
        }
    }
}

/// The logical statements of a text: table headers and fields, which may span
/// lines while brackets are open.
fn statements(text: &[char]) -> (r: Result<Vec<Vec<char>>, String>)
    ensures
        match r {
            Ok(v) => statements_from(lines_of(text@), 0, Seq::empty(), 0) == Ok::<
                Seq<Seq<char>>,
                Seq<char>,
            >(vecs_view(v@)),
            Err(e) => statements_from(lines_of(text@), 0, Seq::empty(), 0) == Err::<
                Seq<Seq<char>>,
                Seq<char>,
            >(e@),
        },
{
    let lines = split_lines(text);
    let ghost all = lines_of(text@);
    let mut out: Vec<Vec<char>> = Vec::new();
    let mut buf: Vec<char> = Vec::new();
    let mut depth: i128 = 0;
    let mut n: usize = 0;
    proof {
        lemma_lines_total(text@);
        assert(text@.len() == text.len());
        assert(all.skip(0) =~= all);
        match statements_from(all, 0, Seq::empty(), 0) {
            Ok(v) => {
                assert(vecs_view(out@) + v =~= v);
            },
            Err(_) => {},
        }
    }
    while n < lines.len()
        invariant
            n <= lines.len(),
            all == lines_of(text@),
            all == slices_view(lines@),
            0 <= depth,
            depth + total_len(all.skip(n as int)) <= text@.len() <= usize::MAX,
            statements_from(all, 0, Seq::empty(), 0) == after_statements(
                vecs_view(out@),
                statements_from(all, n as int, buf@, depth as int),
            ),
        decreases lines.len() - n,
    {
        let ghost rest = all.skip(n as int);
        proof {
            assert(all[n as int] == lines@[n as int]@);
            assert(rest.skip(1) =~= all.skip(n + 1));
        }
        let (code, delta) = match scan_line(lines[n]) {
            Err(e) => {
                return Err(e);
            },
            Ok(c) => c,
        };
        n += 1;
        let t = trim(code);
        let ghost before = out@;
        if depth == 0 && t.len() == 0 {
            continue;
        }
        if depth == 0 && t[0] == '[' && delta == 0 {
            let st = copy_chars(t);
            out.push(st);
            proof {
                assert(vecs_view(out@) =~= vecs_view(before).push(t@));
                lemma_after_push(
                    vecs_view(before),
                    t@,
                    statements_from(all, n as int, buf@, depth as int),
                );
            }
            continue;
        }
        let ghost old_buf = buf@;
        if depth == 0 {
            push_chars(&mut buf, trim_end(code));
            proof {
                lemma_trim_end_nonempty(code@);
            }
        } else {
            buf.push(' ');
            push_chars(&mut buf, t);
        }
        depth += delta;
        if depth <= 0 && buf.len() > 0 {
            let st = copy_chars(buf.as_slice());
            let ghost whole = buf@;
            out.push(st);
            buf.clear();
            depth = 0;
            proof {
                assert(buf@ =~= Seq::empty());
                assert(vecs_view(out@) =~= vecs_view(before).push(whole));
                lemma_after_push(
                    vecs_view(before),
                    whole,
                    statements_from(all, n as int, Seq::empty(), 0),
                );
            }
        }
    }
    if trim(buf.as_slice()).len() > 0 {
        let e = chars_of("statement TOML incompleto (colchete/chave não fechado)");
        return Err(string_of(e.as_slice()));
    }
    proof {
        assert(vecs_view(out@) + Seq::empty() =~= vecs_view(out@));
    }
    Ok(out)
}

/// A line with something on it keeps something when its end is trimmed.
proof fn lemma_trim_end_nonempty(s: Seq<char>)
    requires
        trimmed(s).len() > 0,
    ensures
        trimmed_end(s).len() > 0,
{
    crate::text::lemma_trimmed_start(s);
    let t = crate::text::trimmed_start(s);
    lemma_trimmed_end(t);
    lemma_end_of_suffix(s, s.len() - t.len());
}

proof fn lemma_end_of_suffix(s: Seq<char>, k: int)
    requires
        0 <= k <= s.len(),
        trimmed_end(s.skip(k)).len() > 0,
    ensures
        trimmed_end(s).len() > 0,
    decreases s.len(),
{
    if s.len() > 0 && crate::text::is_space(s.last()) {
        if k < s.len() {
            assert(s.skip(k).last() == s.last());
            assert(s.skip(k).drop_last() =~= s.drop_last().skip(k));
            lemma_end_of_suffix(s.drop_last(), k);
        } else {
            assert(s.skip(k) =~= Seq::empty());
        }
    } else if s.len() == 0 {
        assert(s.skip(k) =~= Seq::empty());
    }
}

// ---- reading values --------------------------------------------------------

fn unescape(s: &[char]) -> (r: Vec<char>)
    ensures
        r@ == unescaped(s@),
{
    let mut out: Vec<char> = Vec::new();
    let mut i: usize = 0;
    proof {
        assert(s@.skip(0) =~= s@);
        assert(out@ + unescaped(s@) =~= unescaped(s@));
    }
    while i < s.len()
        invariant
            i <= s.len(),
            out@ + unescaped(s@.skip(i as int)) == unescaped(s@),
        decreases s.len() - i,
    {
        let ghost rest = s@.skip(i as int);
        let ghost before = out@;
        if s[i] != '\\' || s.len() - i == 1 {
            out.push(s[i]);
            i += 1;
            proof {
                assert(rest.skip(1) =~= s@.skip(i as int));
                assert(out@ + unescaped(s@.skip(i as int)) =~= before + (seq![rest[0]] + unescaped(
                    rest.skip(1),
                )));
            }
        } else {
            let c: char = s[i + 1];
            if c == 'n' {
                out.push('\n');
            } else if c == 't' {
                out.push('\t');
            } else if c == 'r' {
                out.push('\r');
            } else if c == '"' || c == '\\' {
                out.push(c);
            } else {
                out.push('\\');
                out.push(c);
            }
            i += 2;
            proof {
                assert(rest.skip(2) =~= s@.skip(i as int));
                assert(rest[1] == c);
                assert(unescaped(rest) == out@.skip(before.len() as int) + unescaped(rest.skip(2)))
                    by {
                    if c == 'n' || c == 't' || c == 'r' || c == '"' || c == '\\' {
                        assert(out@.skip(before.len() as int) =~= seq![out@.last()]);
                    } else {
                        assert(out@.skip(before.len() as int) =~= seq!['\\', c]);
                    }
                }
                assert(out@ + unescaped(s@.skip(i as int)) =~= before + unescaped(rest));
            }
        }
    }
    proof {
        assert(s@.skip(i as int) =~= Seq::empty());
        assert(out@ + Seq::empty() =~= out@);
    }
    out
}

fn unquote(s: &[char]) -> (r: Vec<char>)
    ensures
        r@ == unquoted(s@),
{
    let t = trim(s);
    let n: usize = t.len();
    if n >= 2 && t[0] == '"' && t[n - 1] == '"' {
        return unescape(slice_subrange(t, 1, n - 1));
    }
    if n >= 2 && t[0] == '\'' && t[n - 1] == '\'' {
        return copy_chars(slice_subrange(t, 1, n - 1));
    }
    copy_chars(t)
}

fn starts_triple(t: &[char]) -> (r: bool)
    ensures
        r == triple_quoted(t@),
{
    t.len() >= 3 && (t[0] == '"' || t[0] == '\'') && t[1] == t[0] && t[2] == t[0]
}

fn has_two_digits(t: &[char], i: usize) -> (r: bool)
    requires
        i <= 10,
    ensures
        r == two_digits(t@, i as int),
{
    t.len() >= i + 2 && '0' <= t[i] && t[i] <= '9' && '0' <= t[i + 1] && t[i + 1] <= '9'
}

fn looks_like_time(t: &[char]) -> (r: bool)
    ensures
        r == (is_date(t@) || is_time(t@)),
{
    let n: usize = t.len();
    if has_two_digits(t, 0) && has_two_digits(t, 2) && has_two_digits(t, 5) && has_two_digits(t, 8)
        && t[4] == '-' && t[7] == '-' && (n == 10 || t[10] == 'T' || t[10] == 't' || t[10] == ' ') {
        return true;
    }
    has_two_digits(t, 0) && has_two_digits(t, 3) && has_two_digits(t, 6) && t[2] == ':' && t[5]
        == ':' && (n == 8 || t[8] == '.')
}

fn read_key(s: &[char]) -> (r: Result<Vec<char>, String>)
    ensures
        match r {
            Ok(v) => key_name(s@) == Ok::<Seq<char>, Seq<char>>(v@),
            Err(e) => key_name(s@) == Err::<Seq<char>, Seq<char>>(e@),
        },
{
    let t = trim(s);
    if starts_triple(t) {
        return Err(ticked("string multi-linha não suportada: `", t));
    }
    if find_separator(true, t, '.') < t.len() {
        return Err(ticked("chave com pontos não suportada (use aspas): `", t));
    }
    Ok(unquote(t))
}

fn split_kv<'a>(s: &'a [char]) -> (r: Result<(Vec<char>, &'a [char]), String>)
    ensures
        match r {
            Ok((k, v)) => key_value(s@) == Ok::<(Seq<char>, Seq<char>), Seq<char>>((k@, v@))
                && v@.len() < s@.len(),
            Err(e) => key_value(s@) == Err::<(Seq<char>, Seq<char>), Seq<char>>(e@),
        },
{
    let k: usize = find_separator(true, s, '=');
    if k >= s.len() {
        return Err(ticked("esperava `chave = valor` em `", s));
    }
    proof {
        assert(s@.subrange(0, k as int) =~= s@.take(k as int));
        assert(s@.subrange(k + 1, s@.len() as int) =~= s@.skip(k + 1));
    }
    match read_key(slice_subrange(s, 0, k)) {
        Err(e) => Err(e),
        Ok(name) => Ok((name, slice_subrange(s, k + 1, s.len()))),
    }
}

fn split_commas<'a>(s: &'a [char]) -> (r: Result<Vec<&'a [char]>, String>)
    ensures
        match r {
            Ok(v) => comma_parts(s@) == Ok::<Seq<Seq<char>>, Seq<char>>(slices_view(v@)),
            Err(e) => comma_parts(s@) == Err::<Seq<Seq<char>>, Seq<char>>(e@),
        },
{
    let (ps, closed) = split_pieces(true, s, ',');
    if !closed {
        return Err(ticked("aspas não fechadas em `", s));
    }
    let ghost all = slices_view(ps@);
    let mut out: Vec<&'a [char]> = Vec::new();
    let mut i: usize = 0;
    proof {
        assert(slices_view(out@) =~= Seq::empty());
    }
    while i < ps.len()
        invariant
            i <= ps.len(),
            all == slices_view(ps@),
            slices_view(out@) == nonblank(all.take(i as int)),
        decreases ps.len() - i,
    {
        let ghost before = out@;
        let p = trim(ps[i]);
        proof {
            assert(all[i as int] == ps@[i as int]@);
            assert(all.take(i + 1).drop_last() =~= all.take(i as int));
        }
        if p.len() > 0 {
            out.push(p);
            proof {
                assert(slices_view(out@) =~= slices_view(before).push(p@));
            }
        }
        i += 1;
    }
    proof {
        assert(all.take(i as int) =~= all);
    }
    Ok(out)
}

spec fn after_nodes(front: Seq<NodeV>, r: Result<Seq<NodeV>, Seq<char>>) -> Result<
    Seq<NodeV>,
    Seq<char>,
> {
    match r {
        Ok(v) => Ok(front + v),
        Err(e) => Err(e),
    }
}

spec fn after_fields(
    front: Seq<(Seq<char>, NodeV)>,
    r: Result<Seq<(Seq<char>, NodeV)>, Seq<char>>,
) -> Result<Seq<(Seq<char>, NodeV)>, Seq<char>> {
    match r {
        Ok(v) => Ok(front + v),
        Err(e) => Err(e),
    }
}

fn parse_array(inner: &[char]) -> (r: Result<Node, String>)
    ensures
        outcome(r) == match comma_parts(inner@) {
            Err(e) => Err::<NodeV, Seq<char>>(e),
            Ok(ps) => match values(ps) {
                Err(e) => Err(e),
                Ok(v) => Ok(list_node(v)),
            },
        },
    decreases inner@.len(), 1int,
{
    proof {
        lemma_comma_parts(inner@);
    }
    let parts = match split_commas(inner) {
        Err(e) => {
            return Err(e);
        },
        Ok(v) => v,
    };
    let ghost ps = slices_view(parts@);
    let mut items: Vec<Node> = Vec::new();
    let mut i: usize = 0;
    proof {
        assert(nodes_view(items@) =~= Seq::empty());
        assert(ps.skip(0) =~= ps);
        match values(ps) {
            Ok(v) => {
                assert(nodes_view(items@) + v =~= v);
            },
            Err(_) => {},
        }
    }
    while i < parts.len()
        invariant
            i <= parts.len(),
            ps == slices_view(parts@),
            total_len(ps) <= inner@.len(),
            comma_parts(inner@) == Ok::<Seq<Seq<char>>, Seq<char>>(ps),
            values(ps) == after_nodes(nodes_view(items@), values(ps.skip(i as int))),
        decreases parts.len() - i,
    {
        proof {
            lemma_part_len(ps, i as int);
            assert(ps[i as int] == parts@[i as int]@);
            assert(ps.skip(i as int)[0] == ps[i as int]);
            assert(ps.skip(i as int).skip(1) =~= ps.skip(i + 1));
        }
        match parse_value(parts[i]) {
            Err(e) => {
                return Err(e);
            },
            Ok(n) => {
                proof {
                    lemma_nodes_push(items@, n);
                    match values(ps.skip(i + 1)) {
                        Ok(v) => {
                            assert(nodes_view(items@).push(n@) + v =~= nodes_view(items@) + (
                            seq![n@] + v));
                        },
                        Err(_) => {},
                    }
                }
                items.push(n);
            },
        }
        i += 1;
    }
    proof {
        assert(nodes_view(items@) + Seq::empty() =~= nodes_view(items@));
    }
    Ok(Node { tag: None, kind: Kind::List(items) })
}

fn tag_message(tag: &String) -> (r: String)
    ensures
        r@ == tag_error(tag@),
{
    let t = chars_of(tag.as_str());
    let mut out: Vec<char> = Vec::new();
    push_lit(&mut out, "tag `");
    push_chars(&mut out, t.as_slice());
    push_lit(
        &mut out,
        "` aceita escalar ou record inline (mapa), não array; p/ vários use `[ { \"",
    );
    push_chars(&mut out, t.as_slice());
    push_lit(&mut out, "\" = item }, ... ]`");
    proof {
        assert(out@ =~= tag_error(tag@));
    }
    string_of(out.as_slice())
}

fn parse_table(inner: &[char]) -> (r: Result<Node, String>)
    ensures
        outcome(r) == match comma_parts(inner@) {
            Err(e) => Err::<NodeV, Seq<char>>(e),
            Ok(ps) => match fields(ps) {
                Err(e) => Err(e),
                Ok(v) => table_value(v),
            },
        },
    decreases inner@.len(), 1int,
{
    proof {
        lemma_comma_parts(inner@);
    }
    let parts = match split_commas(inner) {
        Err(e) => {
            return Err(e);
        },
        Ok(v) => v,
    };
    let ghost ps = slices_view(parts@);
    let mut entries: Vec<(String, Node)> = Vec::new();
    let mut i: usize = 0;
    proof {
        assert(entries_view(entries@) =~= Seq::empty());
        assert(ps.skip(0) =~= ps);
        match fields(ps) {
            Ok(v) => {
                assert(entries_view(entries@) + v =~= v);
            },
            Err(_) => {},
        }
    }
    while i < parts.len()
        invariant
            i <= parts.len(),
            ps == slices_view(parts@),
            total_len(ps) <= inner@.len(),
            comma_parts(inner@) == Ok::<Seq<Seq<char>>, Seq<char>>(ps),
            fields(ps) == after_fields(entries_view(entries@), fields(ps.skip(i as int))),
        decreases parts.len() - i,
    {
        proof {
            lemma_part_len(ps, i as int);
            assert(ps[i as int] == parts@[i as int]@);
            assert(ps.skip(i as int)[0] == ps[i as int]);
            assert(ps.skip(i as int).skip(1) =~= ps.skip(i + 1));
        }
        let (k, v) = match split_kv(parts[i]) {
            Err(e) => {
                return Err(e);
            },
            Ok(kv) => kv,
        };
        match parse_value(trim(v)) {
            Err(e) => {
                return Err(e);
            },
            Ok(n) => {
                let key = string_of(k.as_slice());
                proof {
                    lemma_entries_push(entries@, key, n);
                    match fields(ps.skip(i + 1)) {
                        Ok(w) => {
                            assert(entries_view(entries@).push((key@, n@)) + w =~= entries_view(
                                entries@,
                            ) + (seq![(key@, n@)] + w));
                        },
                        Err(_) => {},
                    }
                }
                entries.push((key, n));
            },
        }
        i += 1;
    }
    proof {
        assert(entries_view(entries@) + Seq::empty() =~= entries_view(entries@));
    }
    if entries.len() == 1 {
        let name = chars_of(entries[0].0.as_str());
        if name.len() > 0 && name[0] == '!' {
            proof {
                assert(entries_view(entries@)[0] == (entries@[0].0@, entries@[0].1@));
            }
            let last = entries.pop();
            if let Some((tag, node)) = last {
                return match node.kind {
                    Kind::List(_) => Err(tag_message(&tag)),
                    kind => Ok(Node { tag: Some(tag), kind }),
                };
            }
        }
    }
    Ok(Node { tag: None, kind: Kind::Table(entries) })
}

/// Reads a value into a node.
fn parse_value(s: &[char]) -> (r: Result<Node, String>)
    ensures
        outcome(r) == value(s@),
    decreases s@.len(), 0int,
{
    let t = trim(s);
    let n: usize = t.len();
    if n == 0 {
        let e = chars_of("valor vazio");
        return Err(string_of(e.as_slice()));
    }
    if starts_triple(t) {
        return Err(ticked("string multi-linha não suportada: `", t));
    }
    if t[0] == '"' || t[0] == '\'' {
        return Ok(Node::scalar(string_of(unquote(t).as_slice())));
    }
    if t[0] == '[' {
        if n < 2 || t[n - 1] != ']' {
            return Err(ticked("array malformado: `", t));
        }
        return parse_array(slice_subrange(t, 1, n - 1));
    }
    if t[0] == '{' {
        if n < 2 || t[n - 1] != '}' {
            return Err(ticked("inline table malformada: `", t));
        }
        return parse_table(slice_subrange(t, 1, n - 1));
    }
    if looks_like_time(t) {
        return Err(ticked("data/hora não suportada (use aspas): `", t));
    }
    Ok(Node::scalar(string_of(t)))
}

// ---- reading documents -----------------------------------------------------

fn read_header(t: &[char]) -> (r: Result<Vec<char>, String>)
    requires
        t@.len() > 0,
    ensures
        match r {
            Ok(v) => header_name(t@) == Ok::<Seq<char>, Seq<char>>(v@),
            Err(e) => header_name(t@) == Err::<Seq<char>, Seq<char>>(e@),
        },
{
    let n: usize = t.len();
    proof {
        assert(t@.skip(1).len() == n - 1);
    }
    if n > 1 && t[1] == '[' {
        let e = chars_of("array-of-tables `[[...]]` não suportado");
        return Err(string_of(e.as_slice()));
    }
    if n > 1 && t[n - 1] == ']' {
        let name = slice_subrange(t, 1, n - 1);
        proof {
            assert(name@ =~= t@.skip(1).drop_last());
        }
        let inner = trim(name);
        if starts_triple(inner) {
            return Err(ticked("string multi-linha não suportada: `", t));
        }
        return Ok(unquote(inner));
    }
    Err(ticked("header de tabela malformado: `", t))
}

fn position(root: &Vec<(String, Node)>, name: &[char]) -> (r: usize)
    ensures
        r == key_index(entries_view(root@), name@, 0),
        r <= root@.len(),
{
    let ghost all = entries_view(root@);
    let mut i: usize = 0;
    while i < root.len()
        invariant
            i <= root.len(),
            all == entries_view(root@),
            key_index(all, name@, 0) == key_index(all, name@, i as int),
        decreases root.len() - i,
    {
        if is_lit(name, root[i].0.as_str()) {
            return i;
        }
        i += 1;
    }
    i
}

spec fn doc_view(root: Seq<(String, Node)>, cur: Option<usize>) -> DocV {
    DocV {
        root: entries_view(root),
        cur: match cur {
            Some(i) => Some(i as int),
            None => None,
        },
    }
}

/// Adds a field to the open table, or to the document where none is open.
fn push_field(root: &mut Vec<(String, Node)>, cur: Option<usize>, key: String, val: Node) -> (r:
    Result<(), String>)
    requires
        cur is Some ==> cur->0 < old(root)@.len(),
    ensures
        match r {
            Ok(_) => add_field(doc_view(old(root)@, cur), key@, val@) == Ok::<DocV, Seq<char>>(
                doc_view(final(root)@, cur),
            ) && final(root)@.len() >= old(root)@.len(),
            Err(e) => add_field(doc_view(old(root)@, cur), key@, val@) == Err::<DocV, Seq<char>>(
                e@,
            ),
        },
{
    match cur {
        None => {
            proof {
                lemma_entries_push(root@, key, val);
            }
            root.push((key, val));
            Ok(())
        },
        Some(i) => {
            let ghost before = root@;
            let entry = &mut root[i];
            match &mut entry.1.kind {
                Kind::Table(m) => {
                    let ghost old_m = m@;
                    m.push((key, val));
                    proof {
                        lemma_entries_push(old_m, key, val);
                    }
                },
                _ => {
                    let e = chars_of("tabela é sempre Map");
                    return Err(string_of(e.as_slice()));
                },
            }
            proof {
                assert(entries_view(root@) =~= entries_view(before).update(
                    i as int,
                    (root@[i as int].0@, root@[i as int].1@),
                ));
            }
            Ok(())
        },
    }
}

/// Reads a document into its root node, which is always a map.
pub fn parse(text: &str) -> (r: Result<Node, String>)
    ensures
        outcome(r) == document(text@),
{
    let chars = chars_of(text);
    let sts = match statements(chars.as_slice()) {
        Err(e) => {
            return Err(e);
        },
        Ok(v) => v,
    };
    let ghost all = vecs_view(sts@);
    let ghost start = DocV { root: Seq::empty(), cur: None };
    let mut root: Vec<(String, Node)> = Vec::new();
    let mut cur: Option<usize> = None;
    let mut i: usize = 0;
    proof {
        assert(entries_view(root@) =~= Seq::empty());
        assert(all.skip(0) =~= all);
    }
    while i < sts.len()
        invariant
            i <= sts.len(),
            all == vecs_view(sts@),
            statements_from(lines_of(text@), 0, Seq::empty(), 0) == Ok::<
                Seq<Seq<char>>,
                Seq<char>,
            >(all),
            start == (DocV { root: Seq::empty(), cur: None }),
            cur is Some ==> cur->0 < root@.len(),
            run_statements(start, all) == run_statements(
                doc_view(root@, cur),
                all.skip(i as int),
            ),
        decreases sts.len() - i,
    {
        proof {
            assert(all[i as int] == sts@[i as int]@);
            assert(all.skip(i as int)[0] == all[i as int]);
            assert(all.skip(i as int).skip(1) =~= all.skip(i + 1));
        }
        let ghost before = doc_view(root@, cur);
        let t = trim(sts[i].as_slice());
        if t.len() > 0 && t[0] == '[' {
            let name = match read_header(t) {
                Err(e) => {
                    return Err(e);
                },
                Ok(v) => v,
            };
            let idx: usize = position(&root, name.as_slice());
            if idx == root.len() {
                let fresh = Node { tag: None, kind: Kind::Table(Vec::new()) };
                let key = string_of(name.as_slice());
                proof {
                    assert(fresh@ == map_node(Seq::empty())) by {
                        assert(entries_view(Seq::<(String, Node)>::empty()) =~= Seq::empty());
                    }
                    lemma_entries_push(root@, key, fresh);
                }
                root.push((key, fresh));
            }
            cur = Some(idx);
            proof {
                assert(doc_view(root@, cur) == open_table(before, name@));
            }
        } else {
            let (k, v) = match split_kv(t) {
                Err(e) => {
                    return Err(e);
                },
                Ok(kv) => kv,
            };
            let key = string_of(k.as_slice());
            let val = match parse_value(trim(v)) {
                Err(e) => {
                    return Err(e);
                },
                Ok(n) => n,
            };
            match push_field(&mut root, cur, key, val) {
                Err(e) => {
                    return Err(e);
                },
                Ok(_) => {},
            }
        }
        i += 1;
    }
    proof {
        assert(all.skip(i as int) =~= Seq::empty());
    }
    Ok(Node { tag: None, kind: Kind::Table(root) })
}

} // verus!
