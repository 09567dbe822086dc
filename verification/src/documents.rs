//! What the two formats of tweak documents have in common: records with fields,
//! written in either, are read as the same tree.
use vstd::prelude::*;

use crate::modconfig::{each_one_line, lines_read_back, one_line, unlines, without_cr};
use crate::node::{key_index, map_node, scalar_node, NodeV};
use crate::scan::{depth_at, next_separator, quotes_at};
use crate::text::{byte_width, drop_cr, is_space, lines_of, trimmed, trimmed_end, trimmed_start};
use crate::toml::{
    add_field, before_statements, code_of, header_name, is_date, is_time, key_value,
    run_statements, scan_code, statement, statements_from, triple_quoted, DocV,
};
use crate::yaml::{
    block, block_entries, comment_start, entry_value, flow_value, is_item, key_and_rest, key_end,
    logical_line, logical_lines, split_tag, tab_indented, unsupported, LineV,
};

verus! {

// ---- records ---------------------------------------------------------------

/// A character that means nothing but itself in either format.
pub open spec fn plain_char(c: char) -> bool {
    &&& !is_space(c)
    &&& c != '\'' && c != '"' && c != '#' && c != ':' && c != '=' && c != ','
    &&& c != '[' && c != ']' && c != '{' && c != '}'
    &&& c != '!' && c != '&' && c != '*' && c != '|' && c != '>' && c != '<' && c != '-'
}

/// A text of such characters, and not an empty one.
pub open spec fn plain(s: Seq<char>) -> bool {
    s.len() > 0 && forall|i: int| 0 <= i < s.len() ==> plain_char(#[trigger] s[i])
}

/// A record: its name, and its fields in order.
pub struct RecordV {
    pub name: Seq<char>,
    pub fields: Seq<(Seq<char>, Seq<char>)>,
}

/// Is the record one that both formats can hold: plain texts, and at least one
/// field?
pub open spec fn plain_record(r: RecordV) -> bool {
    &&& plain(r.name)
    &&& r.fields.len() > 0
    &&& plain_fields(r.fields)
}

pub open spec fn plain_fields(fs: Seq<(Seq<char>, Seq<char>)>) -> bool {
    forall|i: int| 0 <= i < fs.len() ==> plain((#[trigger] fs[i]).0) && plain(fs[i].1)
}

/// Does no key hold a dot? A dotted key takes quotes in one of the formats.
pub open spec fn undotted_fields(fs: Seq<(Seq<char>, Seq<char>)>) -> bool {
    forall|i: int| 0 <= i < fs.len() ==> undotted((#[trigger] fs[i]).0)
}

pub open spec fn undotted(s: Seq<char>) -> bool {
    forall|i: int| 0 <= i < s.len() ==> #[trigger] s[i] != '.'
}

pub open spec fn undotted_records(rs: Seq<RecordV>) -> bool {
    forall|i: int| 0 <= i < rs.len() ==> undotted_fields((#[trigger] rs[i]).fields)
}

/// Are the records plain, and is no name used twice?
pub open spec fn plain_records(rs: Seq<RecordV>) -> bool {
    &&& forall|i: int| 0 <= i < rs.len() ==> plain_record(#[trigger] rs[i])
    &&& forall|i: int, j: int|
        0 <= i < j < rs.len() ==> (#[trigger] rs[i]).name != (#[trigger] rs[j]).name
}

pub open spec fn field_entries(fs: Seq<(Seq<char>, Seq<char>)>) -> Seq<(Seq<char>, NodeV)> {
    fs.map_values(|f: (Seq<char>, Seq<char>)| (f.0, scalar_node(f.1)))
}

pub open spec fn record_entries(rs: Seq<RecordV>) -> Seq<(Seq<char>, NodeV)> {
    rs.map_values(|r: RecordV| (r.name, map_node(field_entries(r.fields))))
}

/// The tree of the records: a map of maps, in their order.
pub open spec fn tree_of(rs: Seq<RecordV>) -> NodeV {
    map_node(record_entries(rs))
}

// ---- plain texts -----------------------------------------------------------

proof fn lemma_no_trim(s: Seq<char>)
    requires
        s.len() > 0,
        !is_space(s[0]),
        !is_space(s.last()),
    ensures
        trimmed_start(s) == s,
        trimmed_end(s) == s,
        trimmed(s) == s,
{
}

proof fn lemma_plain_ends(s: Seq<char>)
    requires
        plain(s),
    ensures
        plain_char(s[0]),
        plain_char(s.last()),
        trimmed_start(s) == s,
        trimmed_end(s) == s,
        trimmed(s) == s,
{
    assert(plain_char(s[0]));
    assert(plain_char(s[s.len() - 1]));
    lemma_no_trim(s);
}

/// No quote is open where there are none.
proof fn lemma_no_quotes(s: Seq<char>, i: int)
    requires
        0 <= i <= s.len(),
        forall|k: int| 0 <= k < s.len() ==> s[k] != '\'' && s[k] != '"',
    ensures
        quotes_at(false, s, i).none(),
    decreases i,
{
    if i > 0 {
        lemma_no_quotes(s, i - 1);
    }
}

proof fn lemma_no_comment(s: Seq<char>, i: int)
    requires
        0 <= i <= s.len(),
        forall|k: int| 0 <= k < s.len() ==> s[k] != '#',
    ensures
        comment_start(s, i) == s.len(),
    decreases s.len() - i,
{
    if i < s.len() {
        lemma_no_comment(s, i + 1);
    }
}

proof fn lemma_key_end(s: Seq<char>, i: int, at: int)
    requires
        0 <= i <= at < s.len(),
        forall|k: int| 0 <= k < s.len() ==> s[k] != '\'' && s[k] != '"',
        forall|k: int| i <= k < at ==> s[k] != ':',
        s[at] == ':',
        at + 1 == s.len() || s[at + 1] == ' ',
    ensures
        key_end(s, i) == at,
    decreases at - i,
{
    lemma_no_quotes(s, i);
    if i < at {
        lemma_key_end(s, i + 1, at);
    }
}

// ---- as indented lines -----------------------------------------------------

pub open spec fn yaml_head(name: Seq<char>) -> Seq<char> {
    name.push(':')
}

pub open spec fn yaml_field(f: (Seq<char>, Seq<char>)) -> Seq<char> {
    f.0 + seq![':', ' '] + f.1
}

pub open spec fn yaml_fields(fs: Seq<(Seq<char>, Seq<char>)>) -> Seq<Seq<char>> {
    fs.map_values(|f: (Seq<char>, Seq<char>)| seq![' ', ' '] + yaml_field(f))
}

/// The lines of the records: each name with a colon, its fields indented below.
pub open spec fn yaml_lines(rs: Seq<RecordV>) -> Seq<Seq<char>>
    decreases rs.len(),
{
    if rs.len() == 0 {
        Seq::empty()
    } else {
        seq![yaml_head(rs[0].name)] + yaml_fields(rs[0].fields) + yaml_lines(rs.skip(1))
    }
}

/// The same lines once their indentation is counted.
spec fn field_lines(fs: Seq<(Seq<char>, Seq<char>)>) -> Seq<LineV> {
    fs.map_values(|f: (Seq<char>, Seq<char>)| LineV { indent: 2, content: yaml_field(f) })
}

spec fn counted_lines(rs: Seq<RecordV>) -> Seq<LineV>
    decreases rs.len(),
{
    if rs.len() == 0 {
        Seq::empty()
    } else {
        seq![LineV { indent: 0, content: yaml_head(rs[0].name) }] + field_lines(rs[0].fields)
            + counted_lines(rs.skip(1))
    }
}

/// A line before which a document ends starts with its marker and a blank.
proof fn lemma_marker(s: Seq<char>)
    ensures
        crate::text::has_prefix(s, "--- "@) ==> s[0] == '-',
        crate::text::has_prefix(s, "... "@) ==> s.len() >= 4 && s[2] == '.' && s[3] == ' ',
{
    reveal_strlit("--- ");
    reveal_strlit("... ");
    if crate::text::has_prefix(s, "--- "@) {
        assert(s.take(4)[0] == '-');
    }
    if crate::text::has_prefix(s, "... "@) {
        assert(s.take(4)[2] == '.');
        assert(s.take(4)[3] == ' ');
    }
}

proof fn lemma_head_line(name: Seq<char>, n: int)
    requires
        plain(name),
    ensures
        logical_line(yaml_head(name), n) == Ok::<Option<LineV>, Seq<char>>(
            Some(LineV { indent: 0, content: yaml_head(name) }),
        ),
        one_line(yaml_head(name)),
        drop_cr(yaml_head(name)) == yaml_head(name),
{
    let s = yaml_head(name);
    lemma_plain_ends(name);
    assert forall|k: int| 0 <= k < s.len() implies s[k] != '#' && s[k] != '\n' && !is_space(
        s[k],
    ) by {
        if k < name.len() {
            assert(plain_char(name[k]));
        }
    }
    lemma_no_comment(s, 0);
    assert(s.take(s.len() as int) =~= s);
    assert(s[0] == name[0]);
    lemma_no_trim(s);
    reveal_strlit("---");
    reveal_strlit("...");
    reveal_strlit("<<");
    assert("---"@[2] == '-' && "---"@.len() == 3);
    assert("..."@[2] == '.' && "..."@.len() == 3);
    lemma_marker(s);
    assert("<<"@[0] == '<');
    assert(s[s.len() - 1] == ':');
    if crate::text::has_prefix(s, "<<"@) {
        assert(s.take(2)[0] == '<');
    }
    assert(s.take(0) =~= Seq::empty());
    assert(byte_width(s.take(0)) == 0);
    if s.contains('\n') {
        let k = choose|k: int| 0 <= k < s.len() && s[k] == '\n';
        assert(is_space(s[k]));
    }
}

proof fn lemma_field_content(f: (Seq<char>, Seq<char>))
    requires
        plain(f.0),
        plain(f.1),
    ensures
        forall|k: int|
            0 <= k < yaml_field(f).len() ==> {
                let c = #[trigger] yaml_field(f)[k];
                c != '\'' && c != '"' && c != '#' && c != '\n' && c != '\t'
            },
        forall|k: int| 0 <= k < f.0.len() ==> #[trigger] yaml_field(f)[k] != ':',
        yaml_field(f)[f.0.len() as int] == ':',
        yaml_field(f)[f.0.len() as int + 1] == ' ',
        plain_char(yaml_field(f)[0]),
        plain_char(yaml_field(f).last()),
        trimmed_start(yaml_field(f)) == yaml_field(f),
        trimmed_end(yaml_field(f)) == yaml_field(f),
{
    let s = yaml_field(f);
    lemma_plain_ends(f.0);
    lemma_plain_ends(f.1);
    assert forall|k: int| 0 <= k < s.len() implies {
        let c = #[trigger] s[k];
        c != '\'' && c != '"' && c != '#' && c != '\n' && c != '\t'
    } by {
        if k < f.0.len() {
            assert(plain_char(f.0[k]));
        } else if k >= f.0.len() + 2 {
            assert(plain_char(f.1[k - f.0.len() - 2]));
        }
    }
    assert forall|k: int| 0 <= k < f.0.len() implies #[trigger] s[k] != ':' by {
        assert(plain_char(f.0[k]));
    }
    assert(s.last() == f.1.last());
    lemma_no_trim(s);
}

proof fn lemma_field_line(f: (Seq<char>, Seq<char>), n: int)
    requires
        plain(f.0),
        plain(f.1),
    ensures
        logical_line(seq![' ', ' '] + yaml_field(f), n) == Ok::<Option<LineV>, Seq<char>>(
            Some(LineV { indent: 2, content: yaml_field(f) }),
        ),
        one_line(seq![' ', ' '] + yaml_field(f)),
        drop_cr(seq![' ', ' '] + yaml_field(f)) == seq![' ', ' '] + yaml_field(f),
{
    let c = yaml_field(f);
    let s = seq![' ', ' '] + c;
    lemma_field_content(f);
    assert forall|k: int| 0 <= k < s.len() implies s[k] != '#' && s[k] != '\n' by {
        if k >= 2 {
            assert(s[k] == c[k - 2]);
        }
    }
    lemma_no_comment(s, 0);
    assert(s.take(s.len() as int) =~= s);
    assert(s.last() == c.last());
    assert(trimmed_end(s) == s);
    assert(s.skip(1).skip(1) =~= c);
    assert(s.skip(1)[0] == ' ');
    reveal_with_fuel(trimmed_start, 4);
    assert(trimmed_start(s) == c);
    reveal_with_fuel(tab_indented, 4);
    assert(c[0] != '\t' && c[0] != ' ');
    assert(s.skip(1).skip(1)[0] == c[0]);
    assert(!tab_indented(s));
    reveal_strlit("---");
    reveal_strlit("...");
    reveal_strlit("<<");
    assert("---"@[1] == '-' && "---"@.len() == 3);
    assert("..."@.len() == 3 && "..."@[1] == '.' && "..."@[2] == '.');
    assert("<<"@[0] == '<');
    if crate::text::has_prefix(c, "<<"@) {
        assert(c.take(2)[0] == '<');
    }
    assert(c.len() >= 4);
    lemma_marker(c);
    if crate::text::has_prefix(c, "... "@) {
        if 3 < f.0.len() {
            assert(plain_char(f.0[3]));
        } else if 3 >= f.0.len() + 2 {
            assert(plain_char(f.1[3 - f.0.len() - 2]));
        }
    }
    let lead = s.take(2);
    assert(lead =~= seq![' ', ' ']);
    reveal_with_fuel(byte_width, 3);
    assert(byte_width(lead) == 2);
    if s.contains('\n') {
        let k = choose|k: int| 0 <= k < s.len() && s[k] == '\n';
        assert(s[k] != '\n');
    }
}

proof fn lemma_logical(raw: Seq<Seq<char>>, lv: Seq<LineV>, n: int)
    requires
        raw.len() == lv.len(),
        0 <= n <= raw.len(),
        forall|i: int|
            0 <= i < raw.len() ==> logical_line(#[trigger] raw[i], i + 1) == Ok::<
                Option<LineV>,
                Seq<char>,
            >(Some(lv[i])),
    ensures
        logical_lines(raw, n) == Ok::<Seq<LineV>, Seq<char>>(lv.skip(n)),
    decreases raw.len() - n,
{
    if n < raw.len() {
        lemma_logical(raw, lv, n + 1);
        assert(logical_line(raw[n], n + 1) == Ok::<Option<LineV>, Seq<char>>(Some(lv[n])));
        assert(seq![lv[n]] + lv.skip(n + 1) =~= lv.skip(n));
    } else {
        assert(lv.skip(n) =~= Seq::empty());
    }
}

/// Every line that is written is read as it was meant.
proof fn lemma_yaml_lines(rs: Seq<RecordV>)
    requires
        plain_records(rs),
    ensures
        yaml_lines(rs).len() == counted_lines(rs).len(),
        each_one_line(yaml_lines(rs)),
        without_cr(yaml_lines(rs)) == yaml_lines(rs),
        forall|i: int, n: int|
            0 <= i < yaml_lines(rs).len() ==> #[trigger] logical_line(yaml_lines(rs)[i], n) == Ok::<
                Option<LineV>,
                Seq<char>,
            >(Some(counted_lines(rs)[i])),
    decreases rs.len(),
{
    let raw = yaml_lines(rs);
    let lv = counted_lines(rs);
    if rs.len() > 0 {
        let r = rs[0];
        let rest = rs.skip(1);
        assert(plain_record(r));
        lemma_rest(rs);
        lemma_yaml_lines(rest);
        let k = 1 + r.fields.len();
        assert forall|i: int, n: int| 0 <= i < raw.len() implies #[trigger] logical_line(raw[i], n)
            == Ok::<Option<LineV>, Seq<char>>(Some(lv[i])) by {
            if i == 0 {
                lemma_head_line(r.name, n);
            } else if i < k {
                let f = r.fields[i - 1];
                assert(plain(f.0) && plain(f.1));
                lemma_field_line(f, n);
            } else {
                assert(raw[i] == yaml_lines(rest)[i - k]);
                assert(logical_line(yaml_lines(rest)[i - k], n) == Ok::<Option<LineV>, Seq<char>>(
                    Some(counted_lines(rest)[i - k]),
                ));
            }
        }
        assert forall|i: int| 0 <= i < raw.len() implies one_line(#[trigger] raw[i]) && drop_cr(
            raw[i],
        ) == raw[i] by {
            if i == 0 {
                lemma_head_line(r.name, 0);
            } else if i < k {
                let f = r.fields[i - 1];
                assert(plain(f.0) && plain(f.1));
                lemma_field_line(f, 0);
            } else {
                assert(raw[i] == yaml_lines(rest)[i - k]);
                assert(one_line(yaml_lines(rest)[i - k]));
                assert(without_cr(yaml_lines(rest))[i - k] == yaml_lines(rest)[i - k]);
            }
        }
    }
    assert(without_cr(raw) =~= raw);
}

proof fn lemma_rest(rs: Seq<RecordV>)
    requires
        plain_records(rs),
        rs.len() > 0,
    ensures
        plain_records(rs.skip(1)),
{
    let rest = rs.skip(1);
    assert forall|i: int| 0 <= i < rest.len() implies plain_record(#[trigger] rest[i]) by {
        assert(plain_record(rs[i + 1]));
    }
    assert forall|i: int, j: int| 0 <= i < j < rest.len() implies (#[trigger] rest[i]).name != (
    #[trigger] rest[j]).name by {
        assert(rs[i + 1].name != rs[j + 1].name);
    }
}

/// The key and the value of a field.
proof fn lemma_field_parts(f: (Seq<char>, Seq<char>))
    requires
        plain(f.0),
        plain(f.1),
    ensures
        key_and_rest(yaml_field(f)) == Some((f.0, f.1)),
        split_tag(f.1) == (None::<Seq<char>>, f.1),
        flow_value(f.1) == Ok::<NodeV, Seq<char>>(scalar_node(f.1)),
        !is_item(yaml_field(f)),
        !unsupported(yaml_field(f)),
{
    let s = yaml_field(f);
    lemma_field_content(f);
    lemma_plain_ends(f.0);
    lemma_plain_ends(f.1);
    lemma_key_end(s, 0, f.0.len() as int);
    assert(s.take(f.0.len() as int) =~= f.0);
    let after = s.skip(f.0.len() as int + 1);
    assert(after =~= seq![' '] + f.1);
    assert(after.skip(1) =~= f.1);
    assert(trimmed_start(after) == trimmed_start(after.skip(1)));
    lemma_unquoted(f.0);
    lemma_unquoted(f.1);
    lemma_supported(s);
    lemma_supported(f.1);
}

proof fn lemma_supported(s: Seq<char>)
    requires
        s.len() > 0,
        plain_char(s[0]),
    ensures
        !unsupported(s),
{
    reveal_strlit("<<");
    if crate::text::has_prefix(s, "<<"@) {
        assert(s.take(2)[0] == '<');
    }
}

proof fn lemma_unquoted(s: Seq<char>)
    requires
        plain(s),
    ensures
        crate::yaml::unquoted(s) == s,
        crate::toml::unquoted(s) == s,
{
    lemma_plain_ends(s);
}

proof fn lemma_fields_block(p: Seq<LineV>, fs: Seq<(Seq<char>, Seq<char>)>, q: Seq<LineV>)
    requires
        plain_fields(fs),
        q.len() > 0 ==> q[0].indent < 2,
    ensures
        block_entries(p + field_lines(fs) + q, p.len() as int, 2) == Ok::<
            (Seq<(Seq<char>, NodeV)>, nat),
            Seq<char>,
        >((field_entries(fs), fs.len())),
    decreases fs.len(),
{
    let all = p + field_lines(fs) + q;
    let i = p.len() as int;
    if fs.len() == 0 {
        assert(field_entries(fs) =~= Seq::empty());
        if q.len() > 0 {
            assert(all[i] == q[0]);
        }
    } else {
        let f = fs[0];
        assert(plain(f.0) && plain(f.1));
        let rest = fs.skip(1);
        let p2 = p.push(LineV { indent: 2, content: yaml_field(f) });
        assert forall|k: int| 0 <= k < rest.len() implies plain((#[trigger] rest[k]).0) && plain(
            rest[k].1,
        ) by {
            assert(plain(fs[k + 1].0));
        }
        lemma_fields_block(p2, rest, q);
        assert(p2 + field_lines(rest) + q =~= all);
        assert(all[i] == (LineV { indent: 2, content: yaml_field(f) }));
        lemma_field_parts(f);
        lemma_plain_ends(f.1);
        assert(entry_value(all, i, 2, f.1) == Ok::<(NodeV, nat), Seq<char>>(
            (scalar_node(f.1), 0nat),
        ));
        assert(block_entries(all, i + 1 + 0nat, 2) == Ok::<
            (Seq<(Seq<char>, NodeV)>, nat),
            Seq<char>,
        >((field_entries(rest), rest.len())));
        assert(seq![(f.0, scalar_node(f.1))] + field_entries(rest) =~= field_entries(fs));
    }
}

proof fn lemma_records_block(p: Seq<LineV>, rs: Seq<RecordV>)
    requires
        plain_records(rs),
    ensures
        block_entries(p + counted_lines(rs), p.len() as int, 0) == Ok::<
            (Seq<(Seq<char>, NodeV)>, nat),
            Seq<char>,
        >((record_entries(rs), counted_lines(rs).len())),
    decreases rs.len(),
{
    let all = p + counted_lines(rs);
    let i = p.len() as int;
    if rs.len() == 0 {
        assert(record_entries(rs) =~= Seq::empty());
    } else {
        let r = rs[0];
        let rest = rs.skip(1);
        assert(plain_record(r));
        lemma_rest(rs);
        let head = LineV { indent: 0, content: yaml_head(r.name) };
        let tail = counted_lines(rest);
        if rest.len() > 0 {
            assert(tail[0].indent == 0);
        }
        let p1 = p.push(head);
        lemma_fields_block(p1, r.fields, tail);
        assert(p1 + field_lines(r.fields) + tail =~= all);
        let p2 = p1 + field_lines(r.fields);
        lemma_records_block(p2, rest);
        assert(p2 + tail =~= all);
        assert(all[i] == head);
        let s = head.content;
        lemma_plain_ends(r.name);
        assert(!is_item(s) && !unsupported(s)) by {
            assert(s[0] == r.name[0]);
            lemma_supported(s);
        }
        assert forall|k: int| 0 <= k < s.len() implies s[k] != '\'' && s[k] != '"' by {
            if k < r.name.len() {
                assert(plain_char(r.name[k]));
            }
        }
        assert forall|k: int| 0 <= k < r.name.len() implies s[k] != ':' by {
            assert(plain_char(r.name[k]));
        }
        lemma_key_end(s, 0, r.name.len() as int);
        assert(s.take(r.name.len() as int) =~= r.name);
        lemma_unquoted(r.name);
        let none = s.skip(r.name.len() as int + 1);
        assert(none =~= Seq::empty());
        assert(trimmed_start(none) =~= Seq::empty());
        assert(key_and_rest(s) == Some((r.name, Seq::<char>::empty())));
        assert(split_tag(Seq::<char>::empty()) == (None::<Seq<char>>, Seq::<char>::empty()));
        assert(trimmed(Seq::<char>::empty()).len() == 0);
        assert(all[i + 1] == field_lines(r.fields)[0]);
        let f0 = r.fields[0];
        assert(plain(f0.0) && plain(f0.1));
        lemma_field_parts(f0);
        assert(block(all, i + 1, 2) == Ok::<(NodeV, nat), Seq<char>>(
            (map_node(field_entries(r.fields)), r.fields.len()),
        ));
        assert(entry_value(all, i, 0, Seq::empty()) == Ok::<(NodeV, nat), Seq<char>>(
            (map_node(field_entries(r.fields)), r.fields.len()),
        ));
        let m = r.fields.len();
        assert(p2.len() == i + 1 + m);
        assert(block_entries(all, i + 1 + m, 0) == Ok::<
            (Seq<(Seq<char>, NodeV)>, nat),
            Seq<char>,
        >((record_entries(rest), tail.len())));
        assert(seq![(r.name, map_node(field_entries(r.fields)))] + record_entries(rest)
            =~= record_entries(rs));
    }
}

/// Records that are written as indented lines are read back, in their order.
pub proof fn yaml_records_read_back(rs: Seq<RecordV>)
    requires
        plain_records(rs),
    ensures
        crate::yaml::document(unlines(yaml_lines(rs))) == Ok::<NodeV, Seq<char>>(tree_of(rs)),
{
    let raw = yaml_lines(rs);
    let lv = counted_lines(rs);
    lemma_yaml_lines(rs);
    lines_read_back(raw);
    lemma_logical(raw, lv, 0);
    assert(lv.skip(0) =~= lv);
    lemma_records_block(Seq::empty(), rs);
    assert(Seq::<LineV>::empty() + lv =~= lv);
    if rs.len() == 0 {
        assert(record_entries(rs) =~= Seq::empty());
    } else {
        let r = rs[0];
        assert(plain_record(r));
        lemma_plain_ends(r.name);
        assert(lv[0] == (LineV { indent: 0, content: yaml_head(r.name) }));
        assert(yaml_head(r.name)[0] == r.name[0]);
    }
}

// ---- as tables -------------------------------------------------------------

pub open spec fn toml_head(name: Seq<char>) -> Seq<char> {
    seq!['['] + name + seq![']']
}

pub open spec fn toml_field(f: (Seq<char>, Seq<char>)) -> Seq<char> {
    f.0 + seq![' ', '=', ' '] + f.1
}

pub open spec fn toml_fields(fs: Seq<(Seq<char>, Seq<char>)>) -> Seq<Seq<char>> {
    fs.map_values(|f: (Seq<char>, Seq<char>)| toml_field(f))
}

/// The lines of the records: each name in brackets, its fields below.
pub open spec fn toml_lines(rs: Seq<RecordV>) -> Seq<Seq<char>>
    decreases rs.len(),
{
    if rs.len() == 0 {
        Seq::empty()
    } else {
        seq![toml_head(rs[0].name)] + toml_fields(rs[0].fields) + toml_lines(rs.skip(1))
    }
}

/// Characters that open and close nothing are passed over.
proof fn lemma_scan_calm(s: Seq<char>, i: int, j: int, depth: int)
    requires
        0 <= i <= j <= s.len(),
        forall|k: int|
            i <= k < j ==> {
                let c = #[trigger] s[k];
                c != '\'' && c != '"' && c != '#' && c != '[' && c != ']' && c != '{' && c != '}'
            },
    ensures
        scan_code(s, i, None, depth) == scan_code(s, j, None, depth),
    decreases j - i,
{
    if i < j {
        lemma_scan_calm(s, i + 1, j, depth);
    }
}

/// Is the line a statement of its own, which the reader takes as it stands?
spec fn whole_statement(l: Seq<char>) -> bool {
    &&& code_of(l) == Ok::<(Seq<char>, int), Seq<char>>((l, 0int))
    &&& trimmed(l) == l
    &&& trimmed_end(l) == l
    &&& l.len() > 0
    &&& one_line(l)
    &&& drop_cr(l) == l
}

proof fn lemma_head_statement(name: Seq<char>)
    requires
        plain(name),
    ensures
        whole_statement(toml_head(name)),
        toml_head(name)[0] == '[',
        header_name(toml_head(name)) == Ok::<Seq<char>, Seq<char>>(name),
{
    let s = toml_head(name);
    lemma_plain_ends(name);
    assert forall|k: int| 1 <= k < s.len() - 1 implies plain_char(#[trigger] s[k]) by {
        assert(plain_char(name[k - 1]));
    }
    lemma_scan_calm(s, 1, s.len() - 1, 1);
    assert(s[s.len() - 1] == ']');
    reveal_with_fuel(scan_code, 3);
    assert(scan_code(s, 0, None, 0) == scan_code(s, 1, None, 1));
    assert(scan_code(s, s.len() - 1, None, 1) == scan_code(s, s.len() as int, None, 0));
    assert(s.take(s.len() as int) =~= s);
    lemma_no_trim(s);
    if s.contains('\n') {
        let k = choose|k: int| 0 <= k < s.len() && s[k] == '\n';
        assert(1 <= k < s.len() - 1);
        assert(plain_char(s[k]));
    }
    assert(s.skip(1).drop_last() =~= name);
    assert(s.skip(1)[0] == name[0]);
    lemma_unquoted(name);
}

proof fn lemma_separator(s: Seq<char>, i: int, at: int)
    requires
        0 <= i <= at < s.len(),
        s[at] == '=',
        forall|k: int|
            0 <= k < at ==> {
                let c = #[trigger] s[k];
                c != '\'' && c != '"' && c != '[' && c != ']' && c != '{' && c != '}' && c != '='
            },
    ensures
        next_separator(true, s, '=', i) == at,
    decreases at - i,
{
    lemma_calm_before(s, i, at);
    if i < at {
        assert(s[i] != '=');
        lemma_separator(s, i + 1, at);
    }
}

proof fn lemma_calm_before(s: Seq<char>, i: int, at: int)
    requires
        0 <= i <= at < s.len(),
        forall|k: int|
            0 <= k < at ==> {
                let c = #[trigger] s[k];
                c != '\'' && c != '"' && c != '[' && c != ']' && c != '{' && c != '}' && c != '='
            },
    ensures
        quotes_at(true, s, i).none(),
        depth_at(true, s, i) == 0,
    decreases i,
{
    if i > 0 {
        lemma_calm_before(s, i - 1, at);
        assert(s[i - 1] != '[');
    }
}

/// No dot stands in a text that has none.
proof fn lemma_no_dot(s: Seq<char>, i: int)
    requires
        0 <= i <= s.len(),
        undotted(s),
    ensures
        next_separator(true, s, '.', i) == s.len(),
    decreases s.len() - i,
{
    if i < s.len() {
        lemma_no_dot(s, i + 1);
    }
}

proof fn lemma_field_statement(f: (Seq<char>, Seq<char>))
    requires
        plain(f.0),
        plain(f.1),
        undotted(f.0),
    ensures
        whole_statement(toml_field(f)),
        toml_field(f)[0] != '[',
        key_value(toml_field(f)) is Ok,
        (key_value(toml_field(f))->Ok_0).0 == f.0,
        trimmed((key_value(toml_field(f))->Ok_0).1) == f.1,
        crate::toml::value(f.1) == Ok::<NodeV, Seq<char>>(scalar_node(f.1)),
{
    let s = toml_field(f);
    let n = f.0.len() as int;
    lemma_plain_ends(f.0);
    lemma_plain_ends(f.1);
    assert forall|k: int| 0 <= k < s.len() implies {
        let c = #[trigger] s[k];
        &&& c != '\'' && c != '"' && c != '#' && c != '[' && c != ']' && c != '{' && c != '}'
        &&& c != '\n'
        &&& k < n + 1 ==> c != '='
    } by {
        if k < n {
            assert(plain_char(f.0[k]));
        } else if k >= n + 3 {
            assert(plain_char(f.1[k - n - 3]));
        }
    }
    lemma_scan_calm(s, 0, s.len() as int, 0);
    assert(s.take(s.len() as int) =~= s);
    assert(s[0] == f.0[0]);
    assert(s.last() == f.1.last());
    lemma_no_trim(s);
    if s.contains('\n') {
        let k = choose|k: int| 0 <= k < s.len() && s[k] == '\n';
        assert(s[k] != '\n');
    }
    lemma_separator(s, 0, n + 1);
    let a = s.take(n + 1);
    let b = s.skip(n + 2);
    assert(a =~= f.0.push(' '));
    assert(a.drop_last() =~= f.0);
    assert(trimmed_start(a) == a) by {
        assert(a[0] == f.0[0]);
    }
    assert(trimmed_end(a) == trimmed_end(f.0));
    assert(b =~= seq![' '] + f.1);
    assert(b.skip(1) =~= f.1);
    assert(trimmed_start(b) == trimmed_start(f.1));
    assert(trimmed(a) == f.0);
    lemma_no_dot(f.0, 0);
    lemma_unquoted(f.0);
    if f.1.len() > 4 {
        assert(plain_char(f.1[4]));
    }
    if f.1.len() > 2 {
        assert(plain_char(f.1[2]));
    }
}

proof fn lemma_toml_lines(rs: Seq<RecordV>)
    requires
        plain_records(rs),
        undotted_records(rs),
    ensures
        forall|i: int| 0 <= i < toml_lines(rs).len() ==> whole_statement(#[trigger] toml_lines(rs)[i]),
    decreases rs.len(),
{
    let raw = toml_lines(rs);
    if rs.len() > 0 {
        let r = rs[0];
        let rest = rs.skip(1);
        assert(plain_record(r));
        lemma_rest(rs);
        lemma_rest_undotted(rs);
        lemma_toml_lines(rest);
        let k = 1 + r.fields.len();
        assert forall|i: int| 0 <= i < raw.len() implies whole_statement(#[trigger] raw[i]) by {
            if i == 0 {
                lemma_head_statement(r.name);
            } else if i < k {
                let f = r.fields[i - 1];
                assert(plain(f.0) && plain(f.1));
                assert(undotted_fields(rs[0].fields));
                assert(undotted(f.0));
                lemma_field_statement(f);
            } else {
                assert(raw[i] == toml_lines(rest)[i - k]);
            }
        }
    }
}

proof fn lemma_statements(lines: Seq<Seq<char>>, n: int)
    requires
        0 <= n <= lines.len(),
        forall|i: int| 0 <= i < lines.len() ==> whole_statement(#[trigger] lines[i]),
    ensures
        statements_from(lines, n, Seq::empty(), 0) == Ok::<Seq<Seq<char>>, Seq<char>>(
            lines.skip(n),
        ),
    decreases lines.len() - n,
{
    let none = Seq::<char>::empty();
    if n < lines.len() {
        let l = lines[n];
        assert(whole_statement(l));
        lemma_statements(lines, n + 1);
        assert(none + l =~= l);
        assert(before_statements(l, statements_from(lines, n + 1, none, 0)) == Ok::<
            Seq<Seq<char>>,
            Seq<char>,
        >(seq![l] + lines.skip(n + 1)));
        assert(seq![l] + lines.skip(n + 1) =~= lines.skip(n));
    } else {
        assert(lines.skip(n) =~= Seq::empty());
        assert(trimmed(none).len() == 0);
    }
}

/// The fields of the table that was opened last.
proof fn lemma_run_fields(
    root: Seq<(Seq<char>, NodeV)>,
    name: Seq<char>,
    es: Seq<(Seq<char>, NodeV)>,
    fs: Seq<(Seq<char>, Seq<char>)>,
    more: Seq<Seq<char>>,
)
    requires
        plain_fields(fs),
        undotted_fields(fs),
    ensures
        run_statements(
            DocV { root: root.push((name, map_node(es))), cur: Some(root.len() as int) },
            toml_fields(fs) + more,
        ) == run_statements(
            DocV {
                root: root.push((name, map_node(es + field_entries(fs)))),
                cur: Some(root.len() as int),
            },
            more,
        ),
    decreases fs.len(),
{
    let doc = DocV { root: root.push((name, map_node(es))), cur: Some(root.len() as int) };
    let all = toml_fields(fs) + more;
    if fs.len() == 0 {
        assert(all =~= more);
        assert(es + field_entries(fs) =~= es);
    } else {
        let f = fs[0];
        assert(plain(f.0) && plain(f.1));
        let rest = fs.skip(1);
        assert forall|k: int| 0 <= k < rest.len() implies plain((#[trigger] rest[k]).0) && plain(
            rest[k].1,
        ) by {
            assert(plain(fs[k + 1].0));
        }
        assert(undotted(f.0));
        assert forall|k: int| 0 <= k < rest.len() implies undotted((#[trigger] rest[k]).0) by {
            assert(undotted(fs[k + 1].0));
        }
        lemma_field_statement(f);
        let e = (f.0, scalar_node(f.1));
        let next = DocV {
            root: root.push((name, map_node(es.push(e)))),
            cur: Some(root.len() as int),
        };
        assert(all[0] == toml_field(f));
        assert(all.skip(1) =~= toml_fields(rest) + more);
        assert(add_field(doc, f.0, scalar_node(f.1)) == Ok::<DocV, Seq<char>>(next)) by {
            assert(doc.root.update(root.len() as int, (name, map_node(es.push(e))))
                =~= next.root);
        }
        assert(statement(doc, all[0]) == Ok::<DocV, Seq<char>>(next));
        lemma_run_fields(root, name, es.push(e), rest, more);
        assert(es.push(e) + field_entries(rest) =~= es + field_entries(fs));
    }
}

proof fn lemma_no_key(es: Seq<(Seq<char>, NodeV)>, name: Seq<char>, i: int)
    requires
        0 <= i <= es.len(),
        forall|k: int| 0 <= k < es.len() ==> (#[trigger] es[k]).0 != name,
    ensures
        key_index(es, name, i) == es.len(),
    decreases es.len() - i,
{
    if i < es.len() {
        assert(es[i].0 != name);
        lemma_no_key(es, name, i + 1);
    }
}

proof fn lemma_run_records(
    root: Seq<(Seq<char>, NodeV)>,
    cur: Option<int>,
    rs: Seq<RecordV>,
)
    requires
        plain_records(rs),
        undotted_records(rs),
        forall|i: int, j: int|
            0 <= i < root.len() && 0 <= j < rs.len() ==> (#[trigger] root[i]).0 != (
            #[trigger] rs[j]).name,
    ensures
        ({
            let r = run_statements(DocV { root, cur }, toml_lines(rs));
            r is Ok && (r->Ok_0).root == root + record_entries(rs)
        }),
    decreases rs.len(),
{
    if rs.len() == 0 {
        assert(root + record_entries(rs) =~= root);
    } else {
        let r = rs[0];
        let rest = rs.skip(1);
        assert(plain_record(r));
        lemma_rest(rs);
        lemma_rest_undotted(rs);
        assert(undotted_fields(rs[0].fields));
        let all = toml_lines(rs);
        lemma_head_statement(r.name);
        assert(all[0] == toml_head(r.name));
        let more = toml_lines(rest);
        assert(all.skip(1) =~= toml_fields(r.fields) + more);
        lemma_no_key(root, r.name, 0);
        let none = Seq::<(Seq<char>, NodeV)>::empty();
        let opened = DocV {
            root: root.push((r.name, map_node(none))),
            cur: Some(root.len() as int),
        };
        assert(statement(DocV { root, cur }, all[0]) == Ok::<DocV, Seq<char>>(opened));
        lemma_run_fields(root, r.name, none, r.fields, more);
        let node = map_node(field_entries(r.fields));
        assert(none + field_entries(r.fields) =~= field_entries(r.fields));
        let next = root.push((r.name, node));
        assert forall|i: int, j: int| 0 <= i < next.len() && 0 <= j < rest.len() implies (
        #[trigger] next[i]).0 != (#[trigger] rest[j]).name by {
            if i < root.len() {
                assert(root[i].0 != rs[j + 1].name);
            } else {
                assert(rs[0].name != rs[j + 1].name);
            }
        }
        lemma_run_records(next, Some(root.len() as int), rest);
        assert(next + record_entries(rest) =~= root + record_entries(rs));
    }
}

proof fn lemma_rest_undotted(rs: Seq<RecordV>)
    requires
        undotted_records(rs),
        rs.len() > 0,
    ensures
        undotted_records(rs.skip(1)),
{
    let rest = rs.skip(1);
    assert forall|i: int| 0 <= i < rest.len() implies undotted_fields(
        (#[trigger] rest[i]).fields,
    ) by {
        assert(undotted_fields(rs[i + 1].fields));
    }
}

/// Records that are written as tables are read back, in their order.
pub proof fn toml_records_read_back(rs: Seq<RecordV>)
    requires
        plain_records(rs),
        undotted_records(rs),
    ensures
        crate::toml::document(unlines(toml_lines(rs))) == Ok::<NodeV, Seq<char>>(tree_of(rs)),
{
    let raw = toml_lines(rs);
    lemma_toml_lines(rs);
    assert forall|i: int| 0 <= i < raw.len() implies one_line(#[trigger] raw[i]) by {
        assert(whole_statement(raw[i]));
    }
    lines_read_back(raw);
    assert(without_cr(raw) =~= raw) by {
        assert forall|i: int| 0 <= i < raw.len() implies without_cr(raw)[i] == raw[i] by {
            assert(whole_statement(raw[i]));
        }
    }
    lemma_statements(raw, 0);
    assert(raw.skip(0) =~= raw);
    lemma_run_records(Seq::empty(), None, rs);
    assert(Seq::<(Seq<char>, NodeV)>::empty() + record_entries(rs) =~= record_entries(rs));
}

/// Records mean the same in both formats, so that the interpreter does the same
/// with them.
pub proof fn both_formats_agree(rs: Seq<RecordV>, source: Seq<char>)
    requires
        plain_records(rs),
        undotted_records(rs),
    ensures
        crate::yaml::document(unlines(yaml_lines(rs))) == crate::toml::document(
            unlines(toml_lines(rs)),
        ),
        crate::tweakxl::interpreted(
            crate::yaml::document(unlines(yaml_lines(rs)))->Ok_0,
            source,
        ) == crate::tweakxl::interpreted(
            crate::toml::document(unlines(toml_lines(rs)))->Ok_0,
            source,
        ),
{
    yaml_records_read_back(rs);
    toml_records_read_back(rs);
}

/// A line that holds something unsupported makes the whole document an error: it
/// is never read as something else.
pub proof fn unsupported_lines_are_errors(text: Seq<char>, k: int)
    requires
        0 <= k < lines_of(text).len(),
        logical_line(lines_of(text)[k], k + 1) is Err,
    ensures
        crate::yaml::document(text) is Err,
{
    lemma_line_error(lines_of(text), k, 0);
}

proof fn lemma_line_error(raw: Seq<Seq<char>>, k: int, n: int)
    requires
        0 <= n <= k < raw.len(),
        logical_line(raw[k], k + 1) is Err,
    ensures
        logical_lines(raw, n) is Err,
    decreases k - n,
{
    if n < k {
        lemma_line_error(raw, k, n + 1);
    }
}

/// Does a statement of a document in tables hold something that is refused?
pub open spec fn refused(st: Seq<char>) -> bool {
    let t = trimmed(st);
    if t.len() > 0 && t[0] == '[' {
        header_name(t) is Err
    } else {
        match key_value(t) {
            Err(_) => true,
            Ok((_, v)) => crate::toml::value(trimmed(v)) is Err,
        }
    }
}

/// A statement that holds something refused makes the whole document an error.
pub proof fn refused_statements_are_errors(text: Seq<char>, sts: Seq<Seq<char>>, k: int)
    requires
        statements_from(lines_of(text), 0, Seq::empty(), 0) == Ok::<Seq<Seq<char>>, Seq<char>>(sts),
        0 <= k < sts.len(),
        refused(sts[k]),
    ensures
        crate::toml::document(text) is Err,
{
    lemma_refused(DocV { root: Seq::empty(), cur: None }, sts, k);
}

proof fn lemma_refused(doc: DocV, sts: Seq<Seq<char>>, k: int)
    requires
        0 <= k < sts.len(),
        refused(sts[k]),
    ensures
        run_statements(doc, sts) is Err,
    decreases k,
{
    if k > 0 {
        match statement(doc, sts[0]) {
            Err(_) => {},
            Ok(next) => {
                assert(sts.skip(1)[k - 1] == sts[k]);
                lemma_refused(next, sts.skip(1), k - 1);
            },
        }
    }
}

/// Strings in triple quotes, dates and times are refused as values, and dotted
/// keys as keys, wherever they stand.
pub proof fn unsupported_values_are_refused(s: Seq<char>)
    ensures
        triple_quoted(trimmed(s)) ==> crate::toml::value(s) is Err,
        is_date(trimmed(s)) || is_time(trimmed(s)) ==> crate::toml::value(s) is Err,
        next_separator(true, s, '=', 0) < s.len() && ({
            let key = trimmed(s.take(next_separator(true, s, '=', 0)));
            next_separator(true, key, '.', 0) < key.len() || triple_quoted(key)
        }) ==> key_value(s) is Err,
{
}

} // verus!
