//! Expansion of `$instances` templates, before a document is interpreted.
//!
//! A template is a top-level entry or a list item with the key `$instances`: a
//! list of data maps. The body (without `$instances`) is repeated for each of
//! them with its placeholders filled in. At top level the record's name is
//! filled in too.
//!
//! A placeholder is `$(name)` or `${name}`. A scalar that is nothing but a
//! placeholder takes the whole value; inside other text it is replaced by the
//! value's text, or removed where there is none.
use vstd::prelude::*;
use vstd::slice::slice_subrange;

use crate::node::{copy_node, copy_tag, entries_view, lemma_entries_push, lemma_nodes_push,
    nodes_view, outcome, tag_view, Kind, KindV, Node, NodeV};
use crate::text::{chars_of, index_of, lemma_next_index, lemma_next_index_skip, next_index,
    push_chars, push_lit, same_str, string_of};

verus! {

// ---- data ------------------------------------------------------------------

/// What the entries define: a later entry overrides an earlier one.
pub open spec fn entries_map(es: Seq<(Seq<char>, NodeV)>) -> Map<Seq<char>, NodeV>
    decreases es.len(),
{
    if es.len() == 0 {
        Map::empty()
    } else {
        entries_map(es.drop_last()).insert(es.last().0, es.last().1)
    }
}

/// The data of one instance: values by name.
pub struct Data {
    entries: Vec<(String, Node)>,
}

impl View for Data {
    type V = Map<Seq<char>, NodeV>;

    closed spec fn view(&self) -> Map<Seq<char>, NodeV> {
        entries_map(entries_view(self.entries@))
    }
}

impl Data {
    pub fn new() -> (r: Data)
        ensures
            r@ == Map::<Seq<char>, NodeV>::empty(),
    {
        let entries: Vec<(String, Node)> = Vec::new();
        proof {
            assert(entries_view(entries@) =~= Seq::empty());
        }
        Data { entries }
    }

    pub fn insert(&mut self, key: String, value: Node)
        ensures
            final(self)@ == old(self)@.insert(key@, value@),
    {
        proof {
            lemma_entries_push(self.entries@, key, value);
            assert(entries_view(self.entries@).push((key@, value@)).drop_last() =~= entries_view(
                self.entries@,
            ));
        }
        self.entries.push((key, value));
    }

    pub fn get(&self, key: &str) -> (r: Option<&Node>)
        ensures
            match r {
                Some(n) => self@.dom().contains(key@) && self@[key@] == n@,
                None => !self@.dom().contains(key@),
            },
    {
        let ghost all = entries_view(self.entries@);
        let mut n: usize = self.entries.len();
        proof {
            assert(all.take(n as int) =~= all);
        }
        while n > 0
            invariant
                n <= self.entries.len(),
                all == entries_view(self.entries@),
                self@.dom().contains(key@) == entries_map(all.take(n as int)).dom().contains(key@),
                self@.dom().contains(key@) ==> self@[key@] == entries_map(
                    all.take(n as int),
                )[key@],
            decreases n,
        {
            proof {
                assert(all.take(n as int).drop_last() =~= all.take(n - 1));
                assert(all.take(n as int).last() == all[n - 1]);
            }
            if same_str(self.entries[n - 1].0.as_str(), key) {
                return Some(&self.entries[n - 1].1);
            }
            n -= 1;
        }
        None
    }

    pub fn duplicate(&self) -> (r: Data)
        ensures
            r@ == self@,
    {
        let mut out: Vec<(String, Node)> = Vec::new();
        let mut i: usize = 0;
        proof {
            assert(entries_view(out@) =~= entries_view(self.entries@).take(0));
        }
        while i < self.entries.len()
            invariant
                i <= self.entries.len(),
                entries_view(out@) == entries_view(self.entries@).take(i as int),
            decreases self.entries.len() - i,
        {
            let k = self.entries[i].0.clone();
            let c = copy_node(&self.entries[i].1);
            proof {
                lemma_entries_push(out@, k, c);
            }
            out.push((k, c));
            i += 1;
            proof {
                assert(entries_view(out@) =~= entries_view(self.entries@).take(i as int));
            }
        }
        proof {
            assert(entries_view(self.entries@).take(i as int) =~= entries_view(self.entries@));
        }
        Data { entries: out }
    }
}

/// `data` with the entries put in one after another.
pub open spec fn extended(data: Map<Seq<char>, NodeV>, es: Seq<(Seq<char>, NodeV)>) -> Map<
    Seq<char>,
    NodeV,
>
    decreases es.len(),
{
    if es.len() == 0 {
        data
    } else {
        extended(data, es.drop_last()).insert(es.last().0, es.last().1)
    }
}

/// The data of an item of `$instances`, which inherits the outer data.
pub open spec fn prepared(item: NodeV, outer: Map<Seq<char>, NodeV>) -> Option<
    Map<Seq<char>, NodeV>,
> {
    match item.kind {
        KindV::Table(es) => Some(extended(outer, es)),
        _ => None,
    }
}

// ---- placeholders ----------------------------------------------------------

/// The bracket that closes a placeholder, where `s[k]` opens one.
pub open spec fn closing(s: Seq<char>, k: int) -> Option<char> {
    if 0 <= k && k + 1 < s.len() && s[k] == '$' && s[k + 1] == '(' {
        Some(')')
    } else if 0 <= k && k + 1 < s.len() && s[k] == '$' && s[k + 1] == '{' {
        Some('}')
    } else {
        None
    }
}

/// The name, where the text is nothing but one placeholder.
pub open spec fn sole_placeholder(s: Seq<char>) -> Option<Seq<char>> {
    match closing(s, 0) {
        None => None,
        Some(close) => if s.len() >= 4 && next_index(s, close, 2) == s.len() - 1 {
            Some(s.subrange(2, s.len() - 1))
        } else {
            None
        },
    }
}

/// The text that stands for a name: none where the value is no scalar.
pub open spec fn text_for(key: Seq<char>, data: Map<Seq<char>, NodeV>) -> Seq<char> {
    if data.dom().contains(key) && data[key].as_str() is Some {
        data[key].as_str()->0
    } else {
        Seq::empty()
    }
}

/// The text with its placeholders filled in, from left to right.
pub open spec fn formatted(s: Seq<char>, data: Map<Seq<char>, NodeV>) -> Seq<char>
    decreases s.len(),
    via formatted_decreases
{
    let k = next_index(s, '$', 0);
    if k >= s.len() {
        s
    } else {
        match closing(s, k) {
            None => s.take(k + 1) + formatted(s.skip(k + 1), data),
            Some(close) => {
                let end = next_index(s, close, k + 2);
                if end >= s.len() {
                    s
                } else {
                    s.take(k) + text_for(s.subrange(k + 2, end), data) + formatted(
                        s.skip(end + 1),
                        data,
                    )
                }
            },
        }
    }
}

#[via_fn]
proof fn formatted_decreases(s: Seq<char>, data: Map<Seq<char>, NodeV>) {
    lemma_next_index(s, '$', 0);
    let k = next_index(s, '$', 0);
    if k < s.len() {
        match closing(s, k) {
            None => {},
            Some(close) => {
                lemma_next_index(s, close, k + 2);
            },
        }
    }
}

// ---- nodes -----------------------------------------------------------------

/// The entries under other keys.
pub open spec fn without_key(es: Seq<(Seq<char>, NodeV)>, key: Seq<char>) -> Seq<
    (Seq<char>, NodeV),
>
    decreases es.len(),
{
    if es.len() == 0 {
        Seq::empty()
    } else if es.last().0 == key {
        without_key(es.drop_last(), key)
    } else {
        without_key(es.drop_last(), key).push(es.last())
    }
}

pub open spec fn stripped(n: NodeV, key: Seq<char>) -> NodeV {
    match n.kind {
        KindV::Table(es) => NodeV { tag: n.tag, kind: KindV::Table(without_key(es, key)) },
        _ => n,
    }
}

/// The number of nodes in a tree.
pub open spec fn size(n: NodeV) -> nat
    decreases n, 0nat,
{
    match n.kind {
        KindV::Scalar(_) => 1,
        KindV::List(v) => 1 + list_size(v, 0),
        KindV::Table(es) => 1 + table_size(es, 0),
    }
}

pub open spec fn list_size(v: Seq<NodeV>, i: int) -> nat
    decreases v, v.len() - i,
{
    if i < 0 || i >= v.len() {
        0
    } else {
        size(v[i]) + list_size(v, i + 1)
    }
}

pub open spec fn table_size(es: Seq<(Seq<char>, NodeV)>, i: int) -> nat
    decreases es, es.len() - i,
{
    if i < 0 || i >= es.len() {
        0
    } else {
        size(es[i].1) + table_size(es, i + 1)
    }
}

/// A node that is nothing but a placeholder becomes the value, and keeps its
/// own tag where the value has none.
pub open spec fn filled(n: NodeV, s: Seq<char>, data: Map<Seq<char>, NodeV>) -> NodeV {
    match sole_placeholder(s) {
        Some(key) if data.dom().contains(key) => NodeV {
            tag: if data[key].tag is Some {
                data[key].tag
            } else {
                n.tag
            },
            kind: data[key].kind,
        },
        _ => NodeV { tag: n.tag, kind: KindV::Scalar(formatted(s, data)) },
    }
}

/// The list of instances of a template item.
pub open spec fn instances_of(n: NodeV) -> Option<Seq<NodeV>> {
    match n.get("$instances"@) {
        Some(inst) => match inst.kind {
            KindV::List(v) => Some(v),
            _ => None,
        },
        None => None,
    }
}

/// An instance with a plain `$value` is that value.
pub open spec fn instance_value(n: NodeV, tag: Option<Seq<char>>) -> NodeV {
    match n.get("$value"@) {
        Some(val) => match val.kind {
            KindV::Table(_) => n,
            _ => NodeV {
                tag: if val.tag is Some {
                    val.tag
                } else {
                    tag
                },
                kind: val.kind,
            },
        },
        None => n,
    }
}

/// The node with its placeholders filled in and the templates in its lists
/// expanded.
pub open spec fn processed(n: NodeV, data: Map<Seq<char>, NodeV>) -> NodeV
    decreases size(n), 0nat, 0nat,
{
    match n.kind {
        KindV::Scalar(s) => filled(n, s, data),
        KindV::Table(es) => NodeV {
            tag: n.tag,
            kind: KindV::Table(processed_entries(es, 0, data)),
        },
        KindV::List(v) => NodeV { tag: n.tag, kind: KindV::List(processed_items(v, 0, data)) },
    }
}

pub open spec fn processed_entries(
    es: Seq<(Seq<char>, NodeV)>,
    i: int,
    data: Map<Seq<char>, NodeV>,
) -> Seq<(Seq<char>, NodeV)>
    decreases table_size(es, i), 2nat, 0nat,
    via processed_entries_decreases
{
    if i < 0 || i >= es.len() {
        Seq::empty()
    } else {
        seq![(es[i].0, processed(es[i].1, data))] + processed_entries(es, i + 1, data)
    }
}

#[via_fn]
proof fn processed_entries_decreases(
    es: Seq<(Seq<char>, NodeV)>,
    i: int,
    data: Map<Seq<char>, NodeV>,
) {
    if 0 <= i < es.len() {
        lemma_size_positive(es[i].1);
    }
}

pub open spec fn processed_items(v: Seq<NodeV>, i: int, data: Map<Seq<char>, NodeV>) -> Seq<NodeV>
    decreases list_size(v, i), 2nat, 0nat,
    via processed_items_decreases
{
    if i < 0 || i >= v.len() {
        Seq::empty()
    } else {
        let here = match instances_of(v[i]) {
            Some(insts) => instantiated(stripped(v[i], "$instances"@), v[i].tag, insts, 0, data),
            None => seq![processed(v[i], data)],
        };
        here + processed_items(v, i + 1, data)
    }
}

#[via_fn]
proof fn processed_items_decreases(v: Seq<NodeV>, i: int, data: Map<Seq<char>, NodeV>) {
    if 0 <= i < v.len() {
        lemma_size_positive(v[i]);
        lemma_stripped_size(v[i], "$instances"@);
    }
}

/// The body once for each instance from `j` on; an instance that is no map of
/// data is passed over.
pub open spec fn instantiated(
    body: NodeV,
    tag: Option<Seq<char>>,
    insts: Seq<NodeV>,
    j: int,
    data: Map<Seq<char>, NodeV>,
) -> Seq<NodeV>
    decreases size(body), 1nat, insts.len() - j,
{
    if j < 0 || j >= insts.len() {
        Seq::empty()
    } else {
        match prepared(insts[j], data) {
            None => instantiated(body, tag, insts, j + 1, data),
            Some(d) => seq![instance_value(processed(body, d), tag)] + instantiated(
                body,
                tag,
                insts,
                j + 1,
                data,
            ),
        }
    }
}

proof fn lemma_size_positive(n: NodeV)
    ensures
        size(n) >= 1,
{
}

proof fn lemma_table_size_push(es: Seq<(Seq<char>, NodeV)>, e: (Seq<char>, NodeV), i: int)
    requires
        0 <= i <= es.len(),
    ensures
        table_size(es.push(e), i) == table_size(es, i) + size(e.1),
    decreases es.len() - i,
{
    if i < es.len() {
        lemma_table_size_push(es, e, i + 1);
        assert(es.push(e)[i] == es[i]);
    } else {
        assert(es.push(e)[i] == e);
        assert(table_size(es.push(e), i + 1) == 0);
        assert(table_size(es, i) == 0);
    }
}

proof fn lemma_without_key_size(es: Seq<(Seq<char>, NodeV)>, key: Seq<char>)
    ensures
        table_size(without_key(es, key), 0) <= table_size(es, 0),
    decreases es.len(),
{
    if es.len() > 0 {
        lemma_without_key_size(es.drop_last(), key);
        lemma_table_size_push(es.drop_last(), es.last(), 0);
        assert(es.drop_last().push(es.last()) =~= es);
        lemma_table_size_push(without_key(es.drop_last(), key), es.last(), 0);
    }
}

proof fn lemma_stripped_size(n: NodeV, key: Seq<char>)
    ensures
        size(stripped(n, key)) <= size(n),
{
    match n.kind {
        KindV::Table(es) => {
            lemma_without_key_size(es, key);
        },
        _ => {},
    }
}

// ---- documents -------------------------------------------------------------

/// The records that a top-level template yields, from instance `j` on.
pub open spec fn expanded_instances(
    key: Seq<char>,
    body: NodeV,
    insts: Seq<NodeV>,
    j: int,
) -> Result<Seq<(Seq<char>, NodeV)>, Seq<char>>
    decreases insts.len() - j,
{
    if j >= insts.len() {
        Ok(Seq::empty())
    } else {
        match prepared(insts[j], Map::empty()) {
            None => Err("cada item de $instances precisa ser um mapa de dados"@),
            Some(d) => match expanded_instances(key, body, insts, j + 1) {
                Err(e) => Err(e),
                Ok(rest) => Ok(seq![(formatted(key, d), processed(body, d))] + rest),
            },
        }
    }
}

/// The records that one top-level entry yields.
pub open spec fn expanded_entry(key: Seq<char>, n: NodeV) -> Result<
    Seq<(Seq<char>, NodeV)>,
    Seq<char>,
> {
    match n.get("$instances"@) {
        Some(inst) => match inst.kind {
            KindV::List(insts) => expanded_instances(key, stripped(n, "$instances"@), insts, 0),
            _ => Err("'"@ + key + "': $instances precisa ser uma lista"@),
        },
        None => Ok(seq![(key, processed(n, Map::empty()))]),
    }
}

pub open spec fn expanded_entries(es: Seq<(Seq<char>, NodeV)>, i: int) -> Result<
    Seq<(Seq<char>, NodeV)>,
    Seq<char>,
>
    decreases es.len() - i,
{
    if i >= es.len() {
        Ok(Seq::empty())
    } else {
        match expanded_entry(es[i].0, es[i].1) {
            Err(e) => Err(e),
            Ok(first) => match expanded_entries(es, i + 1) {
                Err(e) => Err(e),
                Ok(rest) => Ok(first + rest),
            },
        }
    }
}

/// The document with its templates expanded.
pub open spec fn expanded(root: NodeV) -> Result<NodeV, Seq<char>> {
    match root.kind {
        KindV::Table(es) => match expanded_entries(es, 0) {
            Err(e) => Err(e),
            Ok(v) => Ok(NodeV { tag: root.tag, kind: KindV::Table(v) }),
        },
        _ => Ok(root),
    }
}

// ---- filling in ------------------------------------------------------------

/// The name, where the text is nothing but one placeholder.
pub fn whole_placeholder(s: &str) -> (r: Option<String>)
    ensures
        match r {
            Some(k) => sole_placeholder(s@) == Some(k@),
            None => sole_placeholder(s@) is None,
        },
{
    let v = chars_of(s);
    let n: usize = v.len();
    if n < 4 || v[0] != '$' {
        return None;
    }
    let close: char = if v[1] == '(' {
        ')'
    } else if v[1] == '{' {
        '}'
    } else {
        return None;
    };
    if index_of(v.as_slice(), close, 2) != n - 1 {
        return None;
    }
    Some(string_of(slice_subrange(v.as_slice(), 2, n - 1)))
}

/// Fills the placeholders of a text in.
pub fn format_string(input: &str, data: &Data) -> (r: String)
    ensures
        r@ == formatted(input@, data@),
{
    let v = chars_of(input);
    let s = v.as_slice();
    let mut out: Vec<char> = Vec::new();
    let mut at: usize = 0;
    proof {
        assert(s@.skip(0) =~= s@);
        assert(out@ + formatted(s@, data@) =~= formatted(s@, data@));
    }
    loop
        invariant
            at <= s@.len(),
            s@ == input@,
            out@ + formatted(s@.skip(at as int), data@) == formatted(s@, data@),
        decreases s@.len() - at,
    {
        let ghost rest = s@.skip(at as int);
        let ghost before = out@;
        let pos: usize = index_of(s, '$', at);
        proof {
            lemma_next_index_skip(s@, '$', at as int);
            lemma_next_index(s@, '$', at as int);
        }
        if pos >= s.len() {
            push_chars(&mut out, slice_subrange(s, at, s.len()));
            proof {
                assert(s@.subrange(at as int, s@.len() as int) =~= rest);
            }
            return string_of(out.as_slice());
        }
        let close: char = if s.len() - pos > 1 && s[pos + 1] == '(' {
            ')'
        } else if s.len() - pos > 1 && s[pos + 1] == '{' {
            '}'
        } else {
            push_chars(&mut out, slice_subrange(s, at, pos + 1));
            at = pos + 1;
            proof {
                assert(closing(rest, pos - (at - 1) + (at - 1) - (s@.len() - rest.len())) is None);
                assert(s@.subrange(s@.len() - rest.len(), pos + 1) =~= rest.take(
                    pos + 1 - (s@.len() - rest.len()),
                ));
                assert(rest.skip(pos + 1 - (s@.len() - rest.len())) =~= s@.skip(at as int));
                assert(out@ + formatted(s@.skip(at as int), data@) =~= before + formatted(
                    rest,
                    data@,
                ));
            }
            continue;
        };
        let end: usize = index_of(s, close, pos + 2);
        proof {
            assert(closing(rest, pos - at) == Some(close));
            lemma_next_index_skip(s@, close, pos + 2);
            lemma_next_index_skip(rest, close, pos + 2 - at);
            assert(rest.skip(pos + 2 - at) =~= s@.skip(pos + 2));
            lemma_next_index(s@, close, pos + 2);
        }
        if end >= s.len() {
            push_chars(&mut out, slice_subrange(s, at, s.len()));
            proof {
                assert(s@.subrange(at as int, s@.len() as int) =~= rest);
            }
            return string_of(out.as_slice());
        }
        push_chars(&mut out, slice_subrange(s, at, pos));
        let key = string_of(slice_subrange(s, pos + 2, end));
        proof {
            assert(key@ =~= rest.subrange(pos + 2 - at, end - at));
            assert(s@.subrange(at as int, pos as int) =~= rest.take(pos - at));
        }
        let ghost mid = out@;
        if let Some(n) = data.get(key.as_str()) {
            if let Some(t) = n.as_str() {
                push_lit(&mut out, t);
            }
        }
        proof {
            assert(out@ =~= mid + text_for(key@, data@));
            assert(rest.skip(end - at + 1) =~= s@.skip(end + 1));
            assert(out@ + formatted(s@.skip(end + 1), data@) =~= before + formatted(rest, data@));
        }
        at = end + 1;
    }
}

/// A copy of a map without a key.
fn strip_key(n: &Node, key: &str) -> (r: Node)
    ensures
        r@ == stripped(n@, key@),
{
    match &n.kind {
        Kind::Table(es) => {
            let ghost all = entries_view(es@);
            let mut kept: Vec<(String, Node)> = Vec::new();
            let mut i: usize = 0;
            proof {
                assert(entries_view(kept@) =~= Seq::empty());
            }
            while i < es.len()
                invariant
                    i <= es.len(),
                    all == entries_view(es@),
                    entries_view(kept@) == without_key(all.take(i as int), key@),
                decreases es.len() - i,
            {
                proof {
                    assert(all.take(i + 1).drop_last() =~= all.take(i as int));
                    assert(all.take(i + 1).last() == all[i as int]);
                }
                if !same_str(es[i].0.as_str(), key) {
                    let k = es[i].0.clone();
                    let c = copy_node(&es[i].1);
                    proof {
                        lemma_entries_push(kept@, k, c);
                    }
                    kept.push((k, c));
                }
                i += 1;
            }
            proof {
                assert(all.take(i as int) =~= all);
            }
            Node { tag: copy_tag(&n.tag), kind: Kind::Table(kept) }
        },
        _ => copy_node(n),
    }
}

/// The data of an item of `$instances`, which inherits the outer data.
fn prepare(n: &Node, outer: &Data) -> (r: Option<Data>)
    ensures
        match r {
            Some(d) => prepared(n@, outer@) == Some(d@),
            None => prepared(n@, outer@) is None,
        },
{
    match &n.kind {
        Kind::Table(es) => {
            let ghost all = entries_view(es@);
            let mut d = outer.duplicate();
            let mut i: usize = 0;
            while i < es.len()
                invariant
                    i <= es.len(),
                    all == entries_view(es@),
                    d@ == extended(outer@, all.take(i as int)),
                decreases es.len() - i,
            {
                proof {
                    assert(all.take(i + 1).drop_last() =~= all.take(i as int));
                    assert(all.take(i + 1).last() == all[i as int]);
                }
                d.insert(es[i].0.clone(), copy_node(&es[i].1));
                i += 1;
            }
            proof {
                assert(all.take(i as int) =~= all);
            }
            Some(d)
        },
        _ => None,
    }
}

/// The value of an instance, where it has a plain `$value`.
fn take_value(n: Node, tag: &Option<String>) -> (r: Node)
    ensures
        r@ == instance_value(n@, tag_view(*tag)),
{
    let value: Option<Node> = match n.get("$value") {
        Some(val) => match &val.kind {
            Kind::Table(_) => None,
            _ => {
                let c = copy_node(val);
                Some(
                    if c.tag.is_none() {
                        Node { tag: copy_tag(tag), kind: c.kind }
                    } else {
                        c
                    },
                )
            },
        },
        None => None,
    };
    match value {
        Some(v) => v,
        None => n,
    }
}

fn process_scalar(n: &Node, s: &String, data: &Data) -> (r: Node)
    requires
        n.kind == Kind::Scalar(*s),
    ensures
        r@ == filled(n@, s@, data@),
{
    if let Some(key) = whole_placeholder(s.as_str()) {
        if let Some(v) = data.get(key.as_str()) {
            let c = copy_node(v);
            return if c.tag.is_none() {
                Node { tag: copy_tag(&n.tag), kind: c.kind }
            } else {
                c
            };
        }
    }
    Node { tag: copy_tag(&n.tag), kind: Kind::Scalar(format_string(s.as_str(), data)) }
}

/// Appends the body once for each instance.
fn process_instances(
    body: &Node,
    tag: &Option<String>,
    insts: &Vec<Node>,
    data: &Data,
    out: &mut Vec<Node>,
)
    ensures
        nodes_view(final(out)@) == nodes_view(old(out)@) + instantiated(
            body@,
            tag_view(*tag),
            nodes_view(insts@),
            0,
            data@,
        ),
    decreases size(body@), 1nat,
{
    let ghost start = nodes_view(out@);
    let ghost all = nodes_view(insts@);
    let ghost goal = instantiated(body@, tag_view(*tag), all, 0, data@);
    let mut j: usize = 0;
    while j < insts.len()
        invariant
            j <= insts.len(),
            all == nodes_view(insts@),
            goal == instantiated(body@, tag_view(*tag), all, 0, data@),
            nodes_view(out@) + instantiated(body@, tag_view(*tag), all, j as int, data@) == start
                + goal,
        decreases insts.len() - j,
    {
        proof {
            assert(all[j as int] == insts@[j as int]@);
        }
        if let Some(d) = prepare(&insts[j], data) {
            let n = process(body, &d);
            let n = take_value(n, tag);
            proof {
                lemma_nodes_push(out@, n);
                let rest = instantiated(body@, tag_view(*tag), all, j + 1, data@);
                assert(nodes_view(out@).push(n@) + rest =~= nodes_view(out@) + (seq![n@] + rest));
            }
            out.push(n);
        }
        j += 1;
    }
    proof {
        assert(nodes_view(out@) + Seq::empty() =~= nodes_view(out@));
    }
}

/// Fills placeholders in and expands the templates in lists.
pub fn process(n: &Node, data: &Data) -> (r: Node)
    ensures
        r@ == processed(n@, data@),
    decreases size(n@), 0nat,
{
    match &n.kind {
        Kind::Scalar(s) => process_scalar(n, s, data),
        Kind::Table(es) => {
            let ghost all = entries_view(es@);
            let mut out: Vec<(String, Node)> = Vec::new();
            let mut i: usize = 0;
            proof {
                assert(entries_view(out@) + processed_entries(all, 0, data@)
                    =~= processed_entries(all, 0, data@));
            }
            while i < es.len()
                invariant
                    i <= es.len(),
                    n.kind == Kind::Table(*es),
                    all == entries_view(es@),
                    table_size(all, i as int) < size(n@),
                    entries_view(out@) + processed_entries(all, i as int, data@)
                        == processed_entries(all, 0, data@),
                decreases es.len() - i,
            {
                proof {
                    assert(all[i as int] == (es@[i as int].0@, es@[i as int].1@));
                }
                let c = process(&es[i].1, data);
                let k = es[i].0.clone();
                proof {
                    lemma_entries_push(out@, k, c);
                    let rest = processed_entries(all, i + 1, data@);
                    assert(entries_view(out@).push((k@, c@)) + rest =~= entries_view(out@) + (
                    seq![(k@, c@)] + rest));
                }
                out.push((k, c));
                i += 1;
            }
            proof {
                assert(entries_view(out@) + Seq::empty() =~= entries_view(out@));
            }
            Node { tag: copy_tag(&n.tag), kind: Kind::Table(out) }
        },
        Kind::List(items) => {
            let ghost all = nodes_view(items@);
            let mut out: Vec<Node> = Vec::new();
            let mut i: usize = 0;
            proof {
                assert(nodes_view(out@) + processed_items(all, 0, data@) =~= processed_items(
                    all,
                    0,
                    data@,
                ));
            }
            while i < items.len()
                invariant
                    i <= items.len(),
                    n.kind == Kind::List(*items),
                    all == nodes_view(items@),
                    list_size(all, i as int) < size(n@),
                    nodes_view(out@) + processed_items(all, i as int, data@) == processed_items(
                        all,
                        0,
                        data@,
                    ),
                decreases items.len() - i,
            {
                let it = &items[i];
                let ghost before = nodes_view(out@);
                let ghost rest = processed_items(all, i + 1, data@);
                proof {
                    assert(all[i as int] == it@);
                    lemma_stripped_size(it@, "$instances"@);
                }
                let mut done: bool = false;
                if let Some(inst) = it.get("$instances") {
                    if let Kind::List(insts) = &inst.kind {
                        let body = strip_key(it, "$instances");
                        process_instances(&body, &it.tag, insts, data, &mut out);
                        done = true;
                        proof {
                            assert(nodes_view(out@) + rest =~= before + (nodes_view(out@).skip(
                                before.len() as int,
                            ) + rest));
                            assert(nodes_view(out@).skip(before.len() as int) =~= instantiated(
                                body@,
                                it@.tag,
                                nodes_view(insts@),
                                0,
                                data@,
                            ));
                        }
                    }
                }
                if !done {
                    let c = process(it, data);
                    proof {
                        lemma_nodes_push(out@, c);
                        assert(before.push(c@) + rest =~= before + (seq![c@] + rest));
                    }
                    out.push(c);
                }
                i += 1;
            }
            proof {
                assert(nodes_view(out@) + Seq::empty() =~= nodes_view(out@));
            }
            Node { tag: copy_tag(&n.tag), kind: Kind::List(out) }
        },
    }
}

spec fn after_entries(
    front: Seq<(Seq<char>, NodeV)>,
    r: Result<Seq<(Seq<char>, NodeV)>, Seq<char>>,
) -> Result<Seq<(Seq<char>, NodeV)>, Seq<char>> {
    match r {
        Ok(v) => Ok(front + v),
        Err(e) => Err(e),
    }
}

/// Appends the records of a top-level template.
fn expand_instances(
    key: &String,
    body: &Node,
    insts: &Vec<Node>,
    out: &mut Vec<(String, Node)>,
) -> (r: Result<(), String>)
    ensures
        match r {
            Ok(_) => expanded_instances(key@, body@, nodes_view(insts@), 0) is Ok && entries_view(
                final(out)@,
            ) == entries_view(old(out)@) + expanded_instances(
                key@,
                body@,
                nodes_view(insts@),
                0,
            )->Ok_0,
            Err(e) => expanded_instances(key@, body@, nodes_view(insts@), 0) == Err::<
                Seq<(Seq<char>, NodeV)>,
                Seq<char>,
            >(e@),
        },
{
    let empty = Data::new();
    let ghost start = entries_view(out@);
    let ghost all = nodes_view(insts@);
    let ghost goal = expanded_instances(key@, body@, all, 0);
    let mut j: usize = 0;
    while j < insts.len()
        invariant
            j <= insts.len(),
            all == nodes_view(insts@),
            goal == expanded_instances(key@, body@, all, 0),
            empty@ == Map::<Seq<char>, NodeV>::empty(),
            after_entries(start, goal) == after_entries(
                entries_view(out@),
                expanded_instances(key@, body@, all, j as int),
            ),
        decreases insts.len() - j,
    {
        proof {
            assert(all[j as int] == insts@[j as int]@);
        }
        match prepare(&insts[j], &empty) {
            None => {
                let e = chars_of("cada item de $instances precisa ser um mapa de dados");
                return Err(string_of(e.as_slice()));
            },
            Some(d) => {
                let name = format_string(key.as_str(), &d);
                let n = process(body, &d);
                proof {
                    lemma_entries_push(out@, name, n);
                    match expanded_instances(key@, body@, all, j + 1) {
                        Ok(rest) => {
                            assert(entries_view(out@).push((name@, n@)) + rest =~= entries_view(
                                out@,
                            ) + (seq![(name@, n@)] + rest));
                        },
                        Err(_) => {},
                    }
                }
                out.push((name, n));
            },
        }
        j += 1;
    }
    proof {
        assert(entries_view(out@) + Seq::empty() =~= entries_view(out@));
    }
    Ok(())
}

fn list_message(key: &String) -> (r: String)
    ensures
        r@ == "'"@ + key@ + "': $instances precisa ser uma lista"@,
{
    let mut out: Vec<char> = Vec::new();
    push_lit(&mut out, "'");
    push_lit(&mut out, key.as_str());
    push_lit(&mut out, "': $instances precisa ser uma lista");
    proof {
        assert(out@ =~= "'"@ + key@ + "': $instances precisa ser uma lista"@);
    }
    string_of(out.as_slice())
}

/// Expands the templates of a document.
pub fn expand(root: &Node) -> (r: Result<Node, String>)
    ensures
        outcome(r) == expanded(root@),
{
    let es = match &root.kind {
        Kind::Table(es) => es,
        _ => {
            return Ok(copy_node(root));
        },
    };
    let empty = Data::new();
    let ghost all = entries_view(es@);
    let mut out: Vec<(String, Node)> = Vec::new();
    let mut i: usize = 0;
    proof {
        assert(entries_view(out@) =~= Seq::empty());
        match expanded_entries(all, 0) {
            Ok(v) => {
                assert(entries_view(out@) + v =~= v);
            },
            Err(_) => {},
        }
    }
    while i < es.len()
        invariant
            i <= es.len(),
            root.kind == Kind::Table(*es),
            all == entries_view(es@),
            empty@ == Map::<Seq<char>, NodeV>::empty(),
            expanded_entries(all, 0) == after_entries(
                entries_view(out@),
                expanded_entries(all, i as int),
            ),
        decreases es.len() - i,
    {
        let key = &es[i].0;
        let n = &es[i].1;
        let ghost before = entries_view(out@);
        proof {
            assert(all[i as int] == (key@, n@));
        }
        match n.get("$instances") {
            Some(inst) => match &inst.kind {
                Kind::List(insts) => {
                    let body = strip_key(n, "$instances");
                    match expand_instances(key, &body, insts, &mut out) {
                        Err(e) => {
                            return Err(e);
                        },
                        Ok(_) => {},
                    }
                },
                _ => {
                    return Err(list_message(key));
                },
            },
            None => {
                let c = process(n, &empty);
                let k = key.clone();
                proof {
                    lemma_entries_push(out@, k, c);
                    assert(before.push((k@, c@)) =~= before + seq![(k@, c@)]);
                }
                out.push((k, c));
            },
        }
        proof {
            let first = expanded_entry(key@, n@)->Ok_0;
            assert(entries_view(out@) == before + first);
            match expanded_entries(all, i + 1) {
                Ok(rest) => {
                    assert(before + first + rest =~= before + (first + rest));
                },
                Err(_) => {},
            }
        }
        i += 1;
    }
    proof {
        assert(entries_view(out@) + Seq::empty() =~= entries_view(out@));
    }
    Ok(Node { tag: copy_tag(&root.tag), kind: Kind::Table(out) })
}

// ---- laws ------------------------------------------------------------------

/// Does a complete placeholder stand somewhere in the text?
pub open spec fn has_placeholder(s: Seq<char>) -> bool {
    exists|k: int| placeholder_at(s, k)
}

pub open spec fn placeholder_at(s: Seq<char>, k: int) -> bool {
    match closing(s, k) {
        Some(close) => next_index(s, close, k + 2) < s.len(),
        None => false,
    }
}

/// Is there no template and no placeholder in the tree? Keys are not looked at,
/// except that no list item may have `$instances`.
pub open spec fn plain(n: NodeV) -> bool
    decreases n,
{
    match n.kind {
        KindV::Scalar(s) => !has_placeholder(s),
        KindV::List(v) => forall|i: int|
            0 <= i < v.len() ==> plain(#[trigger] v[i]) && instances_of(v[i]) is None,
        KindV::Table(es) => forall|i: int| 0 <= i < es.len() ==> plain((#[trigger] es[i]).1),
    }
}

/// A text without a placeholder stays as it is.
pub proof fn format_keeps_plain_text(s: Seq<char>, data: Map<Seq<char>, NodeV>)
    requires
        !has_placeholder(s),
    ensures
        formatted(s, data) == s,
    decreases s.len(),
{
    let k = next_index(s, '$', 0);
    lemma_next_index(s, '$', 0);
    if k < s.len() {
        match closing(s, k) {
            None => {
                let t = s.skip(k + 1);
                assert forall|j: int| !placeholder_at(t, j) by {
                    if placeholder_at(t, j) {
                        let close = closing(t, j)->0;
                        assert(closing(s, k + 1 + j) == Some(close));
                        lemma_next_index_skip(t, close, j + 2);
                        lemma_next_index_skip(s, close, k + 1 + j + 2);
                        assert(t.skip(j + 2) =~= s.skip(k + 1 + j + 2));
                        assert(placeholder_at(s, k + 1 + j));
                    }
                }
                format_keeps_plain_text(t, data);
                assert(s.take(k + 1) + t =~= s);
            },
            Some(close) => {
                assert(!placeholder_at(s, k));
            },
        }
    }
}

/// Processing leaves a plain tree as it is, whatever the data.
pub proof fn process_keeps_plain(n: NodeV, data: Map<Seq<char>, NodeV>)
    requires
        plain(n),
    ensures
        processed(n, data) == n,
    decreases n, 0nat, 0nat,
{
    match n.kind {
        KindV::Scalar(s) => {
            format_keeps_plain_text(s, data);
            if sole_placeholder(s) is Some {
                assert(placeholder_at(s, 0));
            }
        },
        KindV::List(v) => {
            process_keeps_plain_items(v, 0, data);
            assert(v.skip(0) =~= v);
        },
        KindV::Table(es) => {
            process_keeps_plain_entries(es, 0, data);
            assert(es.skip(0) =~= es);
        },
    }
}

proof fn process_keeps_plain_items(v: Seq<NodeV>, i: int, data: Map<Seq<char>, NodeV>)
    requires
        0 <= i <= v.len(),
        forall|j: int| 0 <= j < v.len() ==> plain(#[trigger] v[j]) && instances_of(v[j]) is None,
    ensures
        processed_items(v, i, data) == v.skip(i),
    decreases v, v.len() - i, 0nat,
{
    if i < v.len() {
        assert(plain(v[i]));
        process_keeps_plain(v[i], data);
        process_keeps_plain_items(v, i + 1, data);
        assert(seq![v[i]] + v.skip(i + 1) =~= v.skip(i));
    } else {
        assert(v.skip(i) =~= Seq::empty());
    }
}

proof fn process_keeps_plain_entries(
    es: Seq<(Seq<char>, NodeV)>,
    i: int,
    data: Map<Seq<char>, NodeV>,
)
    requires
        0 <= i <= es.len(),
        forall|j: int| 0 <= j < es.len() ==> plain((#[trigger] es[j]).1),
    ensures
        processed_entries(es, i, data) == es.skip(i),
    decreases es, es.len() - i, 0nat,
{
    if i < es.len() {
        assert(plain(es[i].1));
        process_keeps_plain(es[i].1, data);
        process_keeps_plain_entries(es, i + 1, data);
        assert(seq![es[i]] + es.skip(i + 1) =~= es.skip(i));
    } else {
        assert(es.skip(i) =~= Seq::empty());
    }
}

/// Is the document free of templates and placeholders?
pub open spec fn plain_document(root: NodeV) -> bool {
    match root.kind {
        KindV::Table(es) => forall|i: int|
            0 <= i < es.len() ==> plain((#[trigger] es[i]).1) && es[i].1.get("$instances"@) is None,
        _ => true,
    }
}

/// Expansion leaves a document without templates and placeholders unchanged, so
/// it may be run on it any number of times.
pub proof fn expand_keeps_plain_documents(root: NodeV)
    requires
        plain_document(root),
    ensures
        expanded(root) == Ok::<NodeV, Seq<char>>(root),
{
    match root.kind {
        KindV::Table(es) => {
            expand_keeps_plain_entries(es, 0);
            assert(es.skip(0) =~= es);
        },
        _ => {},
    }
}

proof fn expand_keeps_plain_entries(es: Seq<(Seq<char>, NodeV)>, i: int)
    requires
        0 <= i <= es.len(),
        forall|j: int|
            0 <= j < es.len() ==> plain((#[trigger] es[j]).1) && es[j].1.get("$instances"@) is None,
    ensures
        expanded_entries(es, i) == Ok::<Seq<(Seq<char>, NodeV)>, Seq<char>>(es.skip(i)),
    decreases es.len() - i,
{
    if i < es.len() {
        assert(plain(es[i].1));
        process_keeps_plain(es[i].1, Map::empty());
        expand_keeps_plain_entries(es, i + 1);
        assert(seq![es[i]] + es.skip(i + 1) =~= es.skip(i));
    } else {
        assert(es.skip(i) =~= Seq::empty());
    }
}

/// A top-level template yields one record for each instance, in their order,
/// each with its name and body filled in from that instance alone.
pub proof fn one_record_per_instance(key: Seq<char>, body: NodeV, insts: Seq<NodeV>, k: int)
    requires
        expanded_instances(key, body, insts, 0) is Ok,
        0 <= k < insts.len(),
    ensures
        expanded_instances(key, body, insts, 0)->Ok_0.len() == insts.len(),
        prepared(insts[k], Map::empty()) is Some,
        expanded_instances(key, body, insts, 0)->Ok_0[k] == (
            formatted(key, prepared(insts[k], Map::empty())->0),
            processed(body, prepared(insts[k], Map::empty())->0),
        ),
{
    lemma_instances_from(key, body, insts, 0, k);
}

proof fn lemma_instances_from(key: Seq<char>, body: NodeV, insts: Seq<NodeV>, j: int, k: int)
    requires
        expanded_instances(key, body, insts, j) is Ok,
        0 <= j <= insts.len(),
    ensures
        expanded_instances(key, body, insts, j)->Ok_0.len() == insts.len() - j,
        j <= k < insts.len() ==> prepared(insts[k], Map::empty()) is Some && expanded_instances(
            key,
            body,
            insts,
            j,
        )->Ok_0[k - j] == (
            formatted(key, prepared(insts[k], Map::empty())->0),
            processed(body, prepared(insts[k], Map::empty())->0),
        ),
    decreases insts.len() - j,
{
    if j < insts.len() {
        lemma_instances_from(key, body, insts, j + 1, k);
    }
}

} // verus!
