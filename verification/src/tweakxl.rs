//! The interpreter of declarative tweaks: a document becomes an ordered list of
//! operations. It covers assignments (scalar, list, structure), `$base` and
//! `$type` records, the array tags (`!append` and its kin), inline records and
//! arrays taken over from other records.
use vstd::prelude::*;
use vstd::utf8::encode_utf8;

use crate::hashes::{fnv1a32, fnv32_from};
use crate::node::{copy_node, copy_tag, entries_view, key_index, lemma_nodes_push, lookup,
    nodes_view, Kind, KindV, Node, NodeV};
use crate::template::{list_size, size, table_size};
use crate::text::{chars_of, copy_chars, dec, digit_of, hex_digit_upper, hex_upper, is_lit, joined, push_chars, push_dec,
    push_hex_upper, push_lit, same, same_str, starts_with_char, string_of, vecs_view};

verus! {

// ---- operations ------------------------------------------------------------

/// A high-level operation taken from a document.
pub enum Op {
    /// `$base`: clone `base` into `record`.
    Clone { record: String, base: String },
    /// `$type`: create `record` of the class `class`.
    Create { record: String, class: String },
    /// Edit a flat.
    Edit { flat: String, op: EditOp },
}

/// How a flat is edited. The array variants mirror the tags.
pub enum EditOp {
    /// A scalar, or a whole list `[a, b, c]`.
    Assign(String),
    /// `!append`: an element at the end.
    Append(String),
    /// `!append-once`: at the end, unless it is there.
    AppendOnce(String),
    /// `!prepend`: an element at the start.
    Prepend(String),
    /// `!prepend-once`: at the start, unless it is there.
    PrependOnce(String),
    /// `!remove`: every equal element goes.
    Remove(String),
    /// `!append-from` or `!merge`: the elements of another flat, at the end.
    AppendFrom(String),
    /// `!prepend-from`: the elements of another flat, at the start.
    PrependFrom(String),
}

pub enum OpV {
    Clone { record: Seq<char>, base: Seq<char> },
    Create { record: Seq<char>, class: Seq<char> },
    Edit { flat: Seq<char>, op: EditOpV },
}

pub enum EditOpV {
    Assign(Seq<char>),
    Append(Seq<char>),
    AppendOnce(Seq<char>),
    Prepend(Seq<char>),
    PrependOnce(Seq<char>),
    Remove(Seq<char>),
    AppendFrom(Seq<char>),
    PrependFrom(Seq<char>),
}

impl View for EditOp {
    type V = EditOpV;

    open spec fn view(&self) -> EditOpV {
        match self {
            EditOp::Assign(s) => EditOpV::Assign(s@),
            EditOp::Append(s) => EditOpV::Append(s@),
            EditOp::AppendOnce(s) => EditOpV::AppendOnce(s@),
            EditOp::Prepend(s) => EditOpV::Prepend(s@),
            EditOp::PrependOnce(s) => EditOpV::PrependOnce(s@),
            EditOp::Remove(s) => EditOpV::Remove(s@),
            EditOp::AppendFrom(s) => EditOpV::AppendFrom(s@),
            EditOp::PrependFrom(s) => EditOpV::PrependFrom(s@),
        }
    }
}

impl View for Op {
    type V = OpV;

    open spec fn view(&self) -> OpV {
        match self {
            Op::Clone { record, base } => OpV::Clone { record: record@, base: base@ },
            Op::Create { record, class } => OpV::Create { record: record@, class: class@ },
            Op::Edit { flat, op } => OpV::Edit { flat: flat@, op: op@ },
        }
    }
}

pub open spec fn ops_view(v: Seq<Op>) -> Seq<OpV> {
    v.map_values(|o: Op| o@)
}

/// The operations so far, and the inline names that were numbered so far.
pub struct StateV {
    pub ops: Seq<OpV>,
    pub numbered: Seq<Seq<char>>,
}

impl StateV {
    pub open spec fn emit(self, op: OpV) -> StateV {
        StateV { ops: self.ops.push(op), numbered: self.numbered }
    }

    pub open spec fn assign(self, flat: Seq<char>, value: Seq<char>) -> StateV {
        self.emit(OpV::Edit { flat, op: EditOpV::Assign(value) })
    }
}

// ---- names -----------------------------------------------------------------

pub open spec fn dotted(path: Seq<char>, key: Seq<char>) -> Seq<char> {
    path + "."@ + key
}

/// How often a text occurs in a list.
pub open spec fn occurrences(log: Seq<Seq<char>>, s: Seq<char>) -> nat
    decreases log.len(),
{
    if log.len() == 0 {
        0
    } else if log.last() == s {
        1 + occurrences(log.drop_last(), s)
    } else {
        occurrences(log.drop_last(), s)
    }
}

/// What the name of an inline record is hashed from, without the running
/// number of a list item.
pub open spec fn inline_seed(
    source: Seq<char>,
    parent: Seq<char>,
    kind: Seq<char>,
    index: Option<nat>,
) -> Seq<char> {
    let base = source + "|"@ + parent + "|"@ + kind;
    match index {
        None => base,
        Some(i) => base + "|"@ + dec(i) + "|"@,
    }
}

pub open spec fn inline_name(parent: Seq<char>, seed: Seq<char>) -> Seq<char> {
    parent + "$"@ + hex_upper(fnv32_from(encode_utf8(seed), 0x811c_9dc5) as nat, 8)
}

/// What the name of an inline record is hashed from: a list item gets a running
/// number.
pub open spec fn inline_key(
    source: Seq<char>,
    parent: Seq<char>,
    kind: Seq<char>,
    index: Option<nat>,
    st: StateV,
) -> Seq<char> {
    let seed = inline_seed(source, parent, kind, index);
    match index {
        None => seed,
        Some(_) => seed + dec(occurrences(st.numbered, seed) + 1),
    }
}

/// The name of an inline record, and the state with a list item numbered.
pub open spec fn named_inline(
    source: Seq<char>,
    parent: Seq<char>,
    kind: Seq<char>,
    index: Option<nat>,
    st: StateV,
) -> (Seq<char>, StateV) {
    let seed = inline_seed(source, parent, kind, index);
    (
        inline_name(parent, inline_key(source, parent, kind, index, st)),
        match index {
            None => st,
            Some(_) => StateV { ops: st.ops, numbered: st.numbered.push(seed) },
        },
    )
}

// ---- structures ------------------------------------------------------------

/// Are these names the keys of the map, each at least once and no others?
pub open spec fn keys_are(es: Seq<(Seq<char>, NodeV)>, names: Seq<Seq<char>>) -> bool {
    &&& forall|i: int| 0 <= i < es.len() ==> names.contains((#[trigger] es[i]).0)
    &&& forall|j: int| 0 <= j < names.len() ==> lookup(es, #[trigger] names[j]) is Some
}

/// Is the value of the key a scalar?
pub open spec fn scalar_at(es: Seq<(Seq<char>, NodeV)>, name: Seq<char>) -> bool {
    match lookup(es, name) {
        Some(n) => n.as_str() is Some,
        None => false,
    }
}

/// The values of the named keys in that order, with commas between them.
pub open spec fn positional(es: Seq<(Seq<char>, NodeV)>, names: Seq<Seq<char>>) -> Option<
    Seq<char>,
> {
    if forall|j: int| 0 <= j < names.len() ==> scalar_at(es, #[trigger] names[j]) {
        Some(joined(names.map_values(|k: Seq<char>| (lookup(es, k)->0).as_str()->0), ","@))
    } else {
        None
    }
}

/// The map of a known structure (vector, quaternion, angles, colour) in its
/// positional form.
pub open spec fn structure(es: Seq<(Seq<char>, NodeV)>) -> Option<Seq<char>> {
    if keys_are(es, seq!["x"@, "y"@]) {
        positional(es, seq!["x"@, "y"@])
    } else if keys_are(es, seq!["x"@, "y"@, "z"@]) {
        positional(es, seq!["x"@, "y"@, "z"@])
    } else if keys_are(es, seq!["i"@, "j"@, "k"@, "r"@]) {
        positional(es, seq!["i"@, "j"@, "k"@, "r"@])
    } else if keys_are(es, seq!["pitch"@, "yaw"@, "roll"@]) {
        positional(es, seq!["pitch"@, "yaw"@, "roll"@])
    } else if keys_are(es, seq!["red"@, "green"@, "blue"@, "alpha"@]) {
        positional(es, seq!["red"@, "green"@, "blue"@, "alpha"@])
    } else {
        None
    }
}

// ---- meaning ---------------------------------------------------------------

pub open spec fn complaint(path: Seq<char>, what: Seq<char>) -> Seq<char> {
    "'"@ + path + what
}

pub open spec fn complaint_about(
    path: Seq<char>,
    what: Seq<char>,
    name: Seq<char>,
    rest: Seq<char>,
) -> Seq<char> {
    "'"@ + path + what + name + rest
}

pub open spec fn is_record(n: NodeV) -> bool {
    n.get("$base"@) is Some || n.get("$type"@) is Some
}

pub open spec fn reserved(key: Seq<char>) -> bool {
    key.len() > 0 && key[0] == '$'
}

/// The text of a key's value, where it is a scalar.
pub open spec fn text_of(n: NodeV, key: Seq<char>) -> Option<Seq<char>> {
    match n.get(key) {
        Some(v) => v.as_str(),
        None => None,
    }
}

/// The operations of an entry at `path`.
pub open spec fn entry_ops(
    path: Seq<char>,
    n: NodeV,
    top: bool,
    source: Seq<char>,
    st: StateV,
) -> Result<StateV, Seq<char>>
    decreases size(n), 5nat,
{
    match n.kind {
        KindV::Scalar(s) => Ok(st.assign(path, s)),
        KindV::List(items) => array_ops(path, items, source, st),
        KindV::Table(es) => map_ops(path, n, es, top, source, st),
    }
}

/// The operations of a map at `path`, which `n` is with the entries `es`.
pub open spec fn map_ops(
    path: Seq<char>,
    n: NodeV,
    es: Seq<(Seq<char>, NodeV)>,
    top: bool,
    source: Seq<char>,
    st: StateV,
) -> Result<StateV, Seq<char>>
    decreases 1 + table_size(es, 0), 4nat,
{
    if is_record(n) && top {
        record_ops(path, n, es, source, st)
    } else if is_record(n) {
        match inline_ops(path, n, es, None, source, st) {
            Err(e) => Err(e),
            Ok((name, next)) => Ok(next.assign(path, name)),
        }
    } else if !top && structure(es) is Some {
        Ok(st.assign(path, structure(es)->0))
    } else if !top && n.get("$value"@) is Some && n.get("$instances"@) is None {
        match text_of(n, "$value"@) {
            Some(s) => Ok(st.assign(path, s)),
            None => Err(complaint(path, "': $value precisa ser escalar"@)),
        }
    } else {
        nested_ops(path, es, 0, source, st)
    }
}

/// The operations of the children from `i` on, each at `path.key`.
pub open spec fn nested_ops(
    path: Seq<char>,
    es: Seq<(Seq<char>, NodeV)>,
    i: int,
    source: Seq<char>,
    st: StateV,
) -> Result<StateV, Seq<char>>
    decreases table_size(es, i), 6nat,
    via nested_ops_decreases
{
    if i < 0 || i >= es.len() {
        Ok(st)
    } else if es[i].0 == "$game"@ || es[i].0 == "$dlc"@ {
        nested_ops(path, es, i + 1, source, st)
    } else if reserved(es[i].0) {
        Err(complaint_about(path, "': chave '"@, es[i].0, "' não suportada offline"@))
    } else {
        match entry_ops(dotted(path, es[i].0), es[i].1, false, source, st) {
            Err(e) => Err(e),
            Ok(next) => nested_ops(path, es, i + 1, source, next),
        }
    }
}

#[via_fn]
proof fn nested_ops_decreases(
    path: Seq<char>,
    es: Seq<(Seq<char>, NodeV)>,
    i: int,
    source: Seq<char>,
    st: StateV,
) {
    if 0 <= i < es.len() {
        assert(size(es[i].1) >= 1);
    }
}

/// The operations that make a record: `$base` clones, `$type` creates. One that
/// is still a template is refused.
pub open spec fn made(name: Seq<char>, n: NodeV, st: StateV) -> Result<StateV, Seq<char>> {
    if n.get("$instances"@) is Some {
        Err(complaint(name, "': template $instances não expandido"@))
    } else if n.get("$base"@) is Some && text_of(n, "$base"@) is None {
        Err(complaint(name, "': $base precisa ser um nome de record"@))
    } else if n.get("$type"@) is Some && text_of(n, "$type"@) is None {
        Err(complaint(name, "': $type precisa ser um nome de classe"@))
    } else {
        let cloned = match text_of(n, "$base"@) {
            Some(base) => st.emit(OpV::Clone { record: name, base }),
            None => st,
        };
        Ok(
            match text_of(n, "$type"@) {
                Some(class) => cloned.emit(OpV::Create { record: name, class }),
                None => cloned,
            },
        )
    }
}

/// The operations of a record: it is made, then its properties are set.
pub open spec fn record_ops(
    name: Seq<char>,
    n: NodeV,
    es: Seq<(Seq<char>, NodeV)>,
    source: Seq<char>,
    st: StateV,
) -> Result<StateV, Seq<char>>
    decreases 1 + table_size(es, 0), 2nat,
{
    match made(name, n, st) {
        Err(e) => Err(e),
        Ok(next) => property_ops(name, es, 0, source, next),
    }
}

/// The operations of the properties from `i` on; reserved keys are none.
pub open spec fn property_ops(
    name: Seq<char>,
    es: Seq<(Seq<char>, NodeV)>,
    i: int,
    source: Seq<char>,
    st: StateV,
) -> Result<StateV, Seq<char>>
    decreases table_size(es, i), 6nat,
    via property_ops_decreases
{
    if i < 0 || i >= es.len() {
        Ok(st)
    } else if reserved(es[i].0) {
        property_ops(name, es, i + 1, source, st)
    } else {
        match entry_ops(dotted(name, es[i].0), es[i].1, false, source, st) {
            Err(e) => Err(e),
            Ok(next) => property_ops(name, es, i + 1, source, next),
        }
    }
}

#[via_fn]
proof fn property_ops_decreases(
    name: Seq<char>,
    es: Seq<(Seq<char>, NodeV)>,
    i: int,
    source: Seq<char>,
    st: StateV,
) {
    if 0 <= i < es.len() {
        assert(size(es[i].1) >= 1);
    }
}

/// The operations of an inline record, and its name.
pub open spec fn inline_ops(
    parent: Seq<char>,
    n: NodeV,
    es: Seq<(Seq<char>, NodeV)>,
    index: Option<nat>,
    source: Seq<char>,
    st: StateV,
) -> Result<(Seq<char>, StateV), Seq<char>>
    decreases 1 + table_size(es, 0), 3nat,
{
    let kind = if text_of(n, "$type"@) is Some {
        text_of(n, "$type"@)
    } else {
        text_of(n, "$base"@)
    };
    match kind {
        None => Err(complaint(parent, "': record inline precisa de $type ou $base"@)),
        Some(k) => {
            let (name, next) = named_inline(source, parent, k, index, st);
            match record_ops(name, n, es, source, next) {
                Err(e) => Err(e),
                Ok(done) => Ok((name, done)),
            }
        },
    }
}

/// The items from `i` on with inline records replaced by their names.
pub open spec fn resolved_items(
    path: Seq<char>,
    items: Seq<NodeV>,
    i: int,
    source: Seq<char>,
    st: StateV,
) -> Result<(Seq<NodeV>, StateV), Seq<char>>
    decreases list_size(items, i), 6nat,
    via resolved_items_decreases
{
    if i < 0 || i >= items.len() {
        Ok((Seq::empty(), st))
    } else {
        let here = match items[i].kind {
            KindV::Table(es) if is_record(items[i]) => match inline_ops(
                path,
                items[i],
                es,
                Some(i as nat),
                source,
                st,
            ) {
                Err(e) => Err(e),
                Ok((name, next)) => Ok(
                    (NodeV { tag: items[i].tag, kind: KindV::Scalar(name) }, next),
                ),
            },
            _ => Ok((items[i], st)),
        };
        match here {
            Err(e) => Err(e),
            Ok((n, next)) => match resolved_items(path, items, i + 1, source, next) {
                Err(e) => Err(e),
                Ok((rest, done)) => Ok((seq![n] + rest, done)),
            },
        }
    }
}

#[via_fn]
proof fn resolved_items_decreases(
    path: Seq<char>,
    items: Seq<NodeV>,
    i: int,
    source: Seq<char>,
    st: StateV,
) {
    if 0 <= i < items.len() {
        assert(size(items[i]) >= 1);
    }
}

/// The edit that a tag asks for.
pub open spec fn edit_for(tag: Seq<char>, v: Seq<char>) -> Option<EditOpV> {
    if tag == "!append"@ {
        Some(EditOpV::Append(v))
    } else if tag == "!append-once"@ {
        Some(EditOpV::AppendOnce(v))
    } else if tag == "!prepend"@ {
        Some(EditOpV::Prepend(v))
    } else if tag == "!prepend-once"@ {
        Some(EditOpV::PrependOnce(v))
    } else if tag == "!remove"@ || tag == "!remove-all"@ {
        Some(EditOpV::Remove(v))
    } else if tag == "!append-from"@ || tag == "!merge"@ {
        Some(EditOpV::AppendFrom(v))
    } else if tag == "!prepend-from"@ {
        Some(EditOpV::PrependFrom(v))
    } else {
        None
    }
}

/// The edits of a list of tagged items, from `i` on.
pub open spec fn tagged_ops(path: Seq<char>, items: Seq<NodeV>, i: int, st: StateV) -> Result<
    StateV,
    Seq<char>,
>
    decreases items.len() - i,
{
    if i < 0 || i >= items.len() {
        Ok(st)
    } else {
        match items[i].tag {
            None => Err(
                complaint(path, "': item sem tag numa lista de operações (!append etc.)"@),
            ),
            Some(tag) => match items[i].as_str() {
                None => Err(
                    complaint_about(
                        path,
                        "': operação '"@,
                        tag,
                        "' espera valor escalar (ou record inline)"@,
                    ),
                ),
                Some(v) => match edit_for(tag, v) {
                    None => Err(
                        complaint_about(path, "': tag de array desconhecida '"@, tag, "'"@),
                    ),
                    Some(op) => tagged_ops(
                        path,
                        items,
                        i + 1,
                        st.emit(OpV::Edit { flat: path, op }),
                    ),
                },
            },
        }
    }
}

pub open spec fn all_scalar(items: Seq<NodeV>) -> bool {
    forall|i: int| 0 <= i < items.len() ==> (#[trigger] items[i]).as_str() is Some
}

pub open spec fn any_tagged(items: Seq<NodeV>) -> bool {
    exists|i: int| 0 <= i < items.len() && (#[trigger] items[i]).tag is Some
}

/// The text of a whole list.
pub open spec fn list_text(items: Seq<NodeV>) -> Seq<char> {
    "["@ + joined(items.map_values(|n: NodeV| n.as_str()->0), ", "@) + "]"@
}

/// The operations of a list at `path`: one assignment, or one edit for each
/// item where any is tagged.
pub open spec fn array_ops(
    path: Seq<char>,
    items: Seq<NodeV>,
    source: Seq<char>,
    st: StateV,
) -> Result<StateV, Seq<char>>
    decreases 1 + list_size(items, 0), 4nat,
{
    match resolved_items(path, items, 0, source, st) {
        Err(e) => Err(e),
        Ok((resolved, next)) => if any_tagged(resolved) {
            tagged_ops(path, resolved, 0, next)
        } else if all_scalar(resolved) {
            Ok(next.assign(path, list_text(resolved)))
        } else {
            Err(complaint(path, "': elemento de array precisa ser escalar"@))
        },
    }
}

/// The operations of the top-level entries from `i` on.
pub open spec fn document_ops(
    es: Seq<(Seq<char>, NodeV)>,
    i: int,
    source: Seq<char>,
    st: StateV,
) -> Result<StateV, Seq<char>>
    decreases es.len() - i,
{
    if i < 0 || i >= es.len() {
        Ok(st)
    } else {
        match entry_ops(es[i].0, es[i].1, true, source, st) {
            Err(e) => Err(e),
            Ok(next) => document_ops(es, i + 1, source, next),
        }
    }
}

/// The operations that a document stands for.
pub open spec fn interpreted(root: NodeV, source: Seq<char>) -> Result<Seq<OpV>, Seq<char>> {
    match root.kind {
        KindV::Table(es) => match document_ops(
            es,
            0,
            source,
            StateV { ops: Seq::empty(), numbered: Seq::empty() },
        ) {
            Err(e) => Err(e),
            Ok(st) => Ok(st.ops),
        },
        _ => Err("o documento precisa ser um mapa de records/flats"@),
    }
}

// ---- laws ------------------------------------------------------------------

/// Are the operations of `a` the first ones of `b`?
pub open spec fn continues(a: StateV, b: StateV) -> bool {
    a.ops.len() <= b.ops.len() && b.ops.take(a.ops.len() as int) == a.ops
}

proof fn lemma_continues(a: StateV, b: StateV, c: StateV)
    requires
        continues(a, b),
        continues(b, c),
    ensures
        continues(a, c),
{
    assert(c.ops.take(a.ops.len() as int) =~= c.ops.take(b.ops.len() as int).take(
        a.ops.len() as int,
    ));
}

proof fn lemma_emit_continues(a: StateV, op: OpV)
    ensures
        continues(a, a.emit(op)),
{
    assert(a.emit(op).ops.take(a.ops.len() as int) =~= a.ops);
}

proof fn lemma_same_continues(a: StateV, b: StateV)
    requires
        a.ops == b.ops,
    ensures
        continues(a, b),
{
    assert(b.ops.take(a.ops.len() as int) =~= a.ops);
}

proof fn lemma_entry_continues(
    path: Seq<char>,
    n: NodeV,
    top: bool,
    source: Seq<char>,
    st: StateV,
)
    ensures
        entry_ops(path, n, top, source, st) is Ok ==> continues(
            st,
            entry_ops(path, n, top, source, st)->Ok_0,
        ),
    decreases size(n), 5nat,
{
    match n.kind {
        KindV::Scalar(s) => {
            lemma_emit_continues(st, OpV::Edit { flat: path, op: EditOpV::Assign(s) });
        },
        KindV::List(items) => {
            lemma_array_continues(path, items, source, st);
        },
        KindV::Table(es) => {
            lemma_map_continues(path, n, es, top, source, st);
        },
    }
}

proof fn lemma_map_continues(
    path: Seq<char>,
    n: NodeV,
    es: Seq<(Seq<char>, NodeV)>,
    top: bool,
    source: Seq<char>,
    st: StateV,
)
    ensures
        map_ops(path, n, es, top, source, st) is Ok ==> continues(
            st,
            map_ops(path, n, es, top, source, st)->Ok_0,
        ),
    decreases 1 + table_size(es, 0), 4nat,
{
    if is_record(n) && top {
        lemma_record_continues(path, n, es, source, st);
    } else if is_record(n) {
        lemma_inline_continues(path, n, es, None, source, st);
        match inline_ops(path, n, es, None, source, st) {
            Err(_) => {},
            Ok((name, next)) => {
                let op = OpV::Edit { flat: path, op: EditOpV::Assign(name) };
                lemma_emit_continues(next, op);
                lemma_continues(st, next, next.emit(op));
            },
        }
    } else if !top && structure(es) is Some {
        lemma_emit_continues(
            st,
            OpV::Edit { flat: path, op: EditOpV::Assign(structure(es)->0) },
        );
    } else if !top && n.get("$value"@) is Some && n.get("$instances"@) is None {
        if text_of(n, "$value"@) is Some {
            lemma_emit_continues(
                st,
                OpV::Edit { flat: path, op: EditOpV::Assign(text_of(n, "$value"@)->0) },
            );
        }
    } else {
        lemma_nested_continues(path, es, 0, source, st);
    }
}

proof fn lemma_nested_continues(
    path: Seq<char>,
    es: Seq<(Seq<char>, NodeV)>,
    i: int,
    source: Seq<char>,
    st: StateV,
)
    ensures
        nested_ops(path, es, i, source, st) is Ok ==> continues(
            st,
            nested_ops(path, es, i, source, st)->Ok_0,
        ),
    decreases table_size(es, i), 6nat,
{
    if i < 0 || i >= es.len() {
        lemma_same_continues(st, st);
    } else {
        assert(size(es[i].1) >= 1);
        if es[i].0 == "$game"@ || es[i].0 == "$dlc"@ {
            lemma_nested_continues(path, es, i + 1, source, st);
        } else if !reserved(es[i].0) {
            let here = entry_ops(dotted(path, es[i].0), es[i].1, false, source, st);
            lemma_entry_continues(dotted(path, es[i].0), es[i].1, false, source, st);
            if here is Ok {
                let next = here->Ok_0;
                lemma_nested_continues(path, es, i + 1, source, next);
                let all = nested_ops(path, es, i + 1, source, next);
                if all is Ok {
                    lemma_continues(st, next, all->Ok_0);
                }
            }
        }
    }
}

proof fn lemma_made_continues(name: Seq<char>, n: NodeV, st: StateV)
    ensures
        made(name, n, st) is Ok ==> continues(st, made(name, n, st)->Ok_0),
{
    if made(name, n, st) is Ok {
        let cloned = match text_of(n, "$base"@) {
            Some(base) => st.emit(OpV::Clone { record: name, base }),
            None => st,
        };
        match text_of(n, "$base"@) {
            Some(base) => {
                lemma_emit_continues(st, OpV::Clone { record: name, base });
            },
            None => {
                lemma_same_continues(st, st);
            },
        }
        match text_of(n, "$type"@) {
            Some(class) => {
                let op = OpV::Create { record: name, class };
                lemma_emit_continues(cloned, op);
                lemma_continues(st, cloned, cloned.emit(op));
            },
            None => {},
        }
    }
}

proof fn lemma_record_continues(
    name: Seq<char>,
    n: NodeV,
    es: Seq<(Seq<char>, NodeV)>,
    source: Seq<char>,
    st: StateV,
)
    ensures
        record_ops(name, n, es, source, st) is Ok ==> {
            &&& made(name, n, st) is Ok
            &&& continues(made(name, n, st)->Ok_0, record_ops(name, n, es, source, st)->Ok_0)
            &&& continues(st, record_ops(name, n, es, source, st)->Ok_0)
        },
    decreases 1 + table_size(es, 0), 2nat,
{
    lemma_made_continues(name, n, st);
    if made(name, n, st) is Ok {
        let next = made(name, n, st)->Ok_0;
        lemma_property_continues(name, es, 0, source, next);
        let all = property_ops(name, es, 0, source, next);
        if all is Ok {
            lemma_continues(st, next, all->Ok_0);
        }
    }
}

proof fn lemma_property_continues(
    name: Seq<char>,
    es: Seq<(Seq<char>, NodeV)>,
    i: int,
    source: Seq<char>,
    st: StateV,
)
    ensures
        property_ops(name, es, i, source, st) is Ok ==> continues(
            st,
            property_ops(name, es, i, source, st)->Ok_0,
        ),
    decreases table_size(es, i), 6nat,
{
    if i < 0 || i >= es.len() {
        lemma_same_continues(st, st);
    } else {
        assert(size(es[i].1) >= 1);
        if reserved(es[i].0) {
            lemma_property_continues(name, es, i + 1, source, st);
        } else {
            let here = entry_ops(dotted(name, es[i].0), es[i].1, false, source, st);
            lemma_entry_continues(dotted(name, es[i].0), es[i].1, false, source, st);
            if here is Ok {
                let next = here->Ok_0;
                lemma_property_continues(name, es, i + 1, source, next);
                let all = property_ops(name, es, i + 1, source, next);
                if all is Ok {
                    lemma_continues(st, next, all->Ok_0);
                }
            }
        }
    }
}

proof fn lemma_inline_continues(
    parent: Seq<char>,
    n: NodeV,
    es: Seq<(Seq<char>, NodeV)>,
    index: Option<nat>,
    source: Seq<char>,
    st: StateV,
)
    ensures
        inline_ops(parent, n, es, index, source, st) is Ok ==> continues(
            st,
            (inline_ops(parent, n, es, index, source, st)->Ok_0).1,
        ),
    decreases 1 + table_size(es, 0), 3nat,
{
    let kind = if text_of(n, "$type"@) is Some {
        text_of(n, "$type"@)
    } else {
        text_of(n, "$base"@)
    };
    if kind is Some {
        let (name, next) = named_inline(source, parent, kind->0, index, st);
        lemma_same_continues(st, next);
        lemma_record_continues(name, n, es, source, next);
        let all = record_ops(name, n, es, source, next);
        if all is Ok {
            lemma_continues(st, next, all->Ok_0);
        }
    }
}

proof fn lemma_resolved_continues(
    path: Seq<char>,
    items: Seq<NodeV>,
    i: int,
    source: Seq<char>,
    st: StateV,
)
    ensures
        resolved_items(path, items, i, source, st) is Ok ==> continues(
            st,
            (resolved_items(path, items, i, source, st)->Ok_0).1,
        ),
    decreases list_size(items, i), 6nat,
{
    if i < 0 || i >= items.len() {
        lemma_same_continues(st, st);
    } else {
        assert(size(items[i]) >= 1);
        lemma_same_continues(st, st);
        let next = match items[i].kind {
            KindV::Table(es) if is_record(items[i]) => {
                lemma_inline_continues(path, items[i], es, Some(i as nat), source, st);
                match inline_ops(path, items[i], es, Some(i as nat), source, st) {
                    Ok((_, s)) => s,
                    Err(_) => st,
                }
            },
            _ => st,
        };
        lemma_resolved_continues(path, items, i + 1, source, next);
        let rest = resolved_items(path, items, i + 1, source, next);
        if rest is Ok {
            lemma_continues(st, next, (rest->Ok_0).1);
        }
    }
}

proof fn lemma_tagged_continues(path: Seq<char>, items: Seq<NodeV>, i: int, st: StateV)
    ensures
        tagged_ops(path, items, i, st) is Ok ==> continues(
            st,
            tagged_ops(path, items, i, st)->Ok_0,
        ),
    decreases items.len() - i,
{
    lemma_same_continues(st, st);
    if 0 <= i < items.len() && items[i].tag is Some && items[i].as_str() is Some && edit_for(
        items[i].tag->0,
        items[i].as_str()->0,
    ) is Some {
        let op = OpV::Edit { flat: path, op: edit_for(items[i].tag->0, items[i].as_str()->0)->0 };
        lemma_emit_continues(st, op);
        lemma_tagged_continues(path, items, i + 1, st.emit(op));
        let all = tagged_ops(path, items, i + 1, st.emit(op));
        if all is Ok {
            lemma_continues(st, st.emit(op), all->Ok_0);
        }
    }
}

proof fn lemma_array_continues(path: Seq<char>, items: Seq<NodeV>, source: Seq<char>, st: StateV)
    ensures
        array_ops(path, items, source, st) is Ok ==> continues(
            st,
            array_ops(path, items, source, st)->Ok_0,
        ),
    decreases 1 + list_size(items, 0), 4nat,
{
    lemma_resolved_continues(path, items, 0, source, st);
    match resolved_items(path, items, 0, source, st) {
        Err(_) => {},
        Ok((resolved, next)) => {
            if any_tagged(resolved) {
                lemma_tagged_continues(path, resolved, 0, next);
                let all = tagged_ops(path, resolved, 0, next);
                if all is Ok {
                    lemma_continues(st, next, all->Ok_0);
                }
            } else if all_scalar(resolved) {
                let op = OpV::Edit { flat: path, op: EditOpV::Assign(list_text(resolved)) };
                lemma_emit_continues(next, op);
                lemma_continues(st, next, next.emit(op));
            }
        },
    }
}

/// A record is made before anything of it is set, and nothing that was asked for
/// before is taken back.
pub proof fn records_are_made_first(
    name: Seq<char>,
    n: NodeV,
    es: Seq<(Seq<char>, NodeV)>,
    source: Seq<char>,
    st: StateV,
)
    requires
        record_ops(name, n, es, source, st) is Ok,
    ensures
        made(name, n, st) is Ok,
        continues(st, made(name, n, st)->Ok_0),
        continues(made(name, n, st)->Ok_0, record_ops(name, n, es, source, st)->Ok_0),
{
    lemma_made_continues(name, n, st);
    lemma_record_continues(name, n, es, source, st);
}

/// The operations follow the order of the document: those of its first entries
/// are the first operations, whatever comes behind.
pub proof fn operations_follow_the_document(
    es: Seq<(Seq<char>, NodeV)>,
    k: int,
    i: int,
    source: Seq<char>,
    st: StateV,
)
    requires
        0 <= i <= k <= es.len(),
        document_ops(es, i, source, st) is Ok,
    ensures
        document_ops(es.take(k), i, source, st) is Ok,
        continues(
            document_ops(es.take(k), i, source, st)->Ok_0,
            document_ops(es, i, source, st)->Ok_0,
        ),
        continues(st, document_ops(es, i, source, st)->Ok_0),
    decreases es.len() - i,
{
    lemma_same_continues(st, st);
    if i < es.len() {
        lemma_entry_continues(es[i].0, es[i].1, true, source, st);
        let next = entry_ops(es[i].0, es[i].1, true, source, st)->Ok_0;
        let whole = document_ops(es, i, source, st)->Ok_0;
        if i < k {
            assert(es.take(k)[i] == es[i]);
            operations_follow_the_document(es, k, i + 1, source, next);
            lemma_continues(st, next, whole);
        } else {
            operations_follow_the_document(es, es.len() as int, i + 1, source, next);
            lemma_continues(st, next, whole);
        }
    }
}

/// A template that was not expanded is an error of the whole document, never
/// read as something else.
pub proof fn unexpanded_templates_are_errors(
    es: Seq<(Seq<char>, NodeV)>,
    k: int,
    i: int,
    source: Seq<char>,
    st: StateV,
)
    requires
        0 <= i <= k < es.len(),
        es[k].1.get("$instances"@) is Some,
    ensures
        document_ops(es, i, source, st) is Err,
    decreases k - i,
{
    if i < k {
        match entry_ops(es[i].0, es[i].1, true, source, st) {
            Err(_) => {},
            Ok(next) => {
                unexpanded_templates_are_errors(es, k, i + 1, source, next);
            },
        }
    } else {
        let n = es[k].1;
        match n.kind {
            KindV::Table(fields) => {
                if !is_record(n) {
                    let at = key_index(fields, "$instances"@, 0);
                    lemma_key_found(fields, "$instances"@, 0);
                    reveal_strlit("$instances");
                    reveal_strlit("$game");
                    reveal_strlit("$dlc");
                    assert("$instances"@.len() != "$game"@.len());
                    assert("$instances"@.len() != "$dlc"@.len());
                    assert("$instances"@[0] == '$');
                    lemma_reserved_key(es[k].0, fields, at, 0, source, st);
                }
            },
            _ => {},
        }
    }
}

proof fn lemma_key_found(es: Seq<(Seq<char>, NodeV)>, key: Seq<char>, i: int)
    requires
        0 <= i <= es.len(),
    ensures
        i <= key_index(es, key, i) <= es.len(),
        key_index(es, key, i) < es.len() ==> es[key_index(es, key, i)].0 == key,
    decreases es.len() - i,
{
    if i < es.len() && es[i].0 != key {
        lemma_key_found(es, key, i + 1);
    }
}

proof fn lemma_reserved_key(
    path: Seq<char>,
    es: Seq<(Seq<char>, NodeV)>,
    at: int,
    i: int,
    source: Seq<char>,
    st: StateV,
)
    requires
        0 <= i <= at < es.len(),
        reserved(es[at].0),
        es[at].0 != "$game"@,
        es[at].0 != "$dlc"@,
    ensures
        nested_ops(path, es, i, source, st) is Err,
    decreases at - i,
{
    if i < at {
        if es[i].0 == "$game"@ || es[i].0 == "$dlc"@ {
            lemma_reserved_key(path, es, at, i + 1, source, st);
        } else if !reserved(es[i].0) {
            match entry_ops(dotted(path, es[i].0), es[i].1, false, source, st) {
                Err(_) => {},
                Ok(next) => {
                    lemma_reserved_key(path, es, at, i + 1, source, next);
                },
            }
        }
    }
}

/// The hash in the name of an inline record.
pub open spec fn name_hash(key: Seq<char>) -> u32 {
    fnv32_from(encode_utf8(key), 0x811c_9dc5)
}

/// Inline records under one parent have the same name only where what they are
/// named from has the same hash.
pub proof fn inline_names_differ(parent: Seq<char>, a: Seq<char>, b: Seq<char>)
    ensures
        inline_name(parent, a) == inline_name(parent, b) <==> name_hash(a) == name_hash(b),
{
    let x = hex_upper(name_hash(a) as nat, 8);
    let y = hex_upper(name_hash(b) as nat, 8);
    if inline_name(parent, a) == inline_name(parent, b) {
        let head = parent + "$"@;
        assert(x =~= inline_name(parent, a).skip(head.len() as int));
        assert(y =~= inline_name(parent, b).skip(head.len() as int));
        assert(sixteen_to(8) == 0x1_0000_0000) by {
            reveal_with_fuel(sixteen_to, 9);
        }
        lemma_hex_differs(name_hash(a) as nat, name_hash(b) as nat, 8);
    }
}

spec fn sixteen_to(n: nat) -> nat
    decreases n,
{
    if n == 0 {
        1
    } else {
        16 * sixteen_to((n - 1) as nat)
    }
}

proof fn lemma_hex_differs(a: nat, b: nat, width: nat)
    requires
        hex_upper(a, width) == hex_upper(b, width),
        a < sixteen_to(width),
        b < sixteen_to(width),
    ensures
        a == b,
    decreases width,
{
    if width > 0 {
        let p = hex_upper(a / 16, (width - 1) as nat);
        let q = hex_upper(b / 16, (width - 1) as nat);
        assert(p =~= hex_upper(a, width).drop_last());
        assert(q =~= hex_upper(b, width).drop_last());
        assert(hex_upper(a, width).last() == hex_digit_upper(a % 16));
        assert(hex_upper(b, width).last() == hex_digit_upper(b % 16));
        lemma_hex_differs(a / 16, b / 16, (width - 1) as nat);
    }
}

/// No two items of lists under one parent are named from the same text, in one
/// run of the interpreter: another place in the list makes another text, and so
/// does a second item at the same place.
pub proof fn every_item_has_its_own_key(
    source: Seq<char>,
    parent: Seq<char>,
    kind: Seq<char>,
    i: nat,
    j: nat,
    first: StateV,
    later: StateV,
)
    requires
        ({
            let after = named_inline(source, parent, kind, Some(i), first).1;
            after.numbered.len() <= later.numbered.len() && later.numbered.take(
                after.numbered.len() as int,
            ) == after.numbered
        }),
    ensures
        inline_key(source, parent, kind, Some(i), first) != inline_key(
            source,
            parent,
            kind,
            Some(j),
            later,
        ),
{
    let a = inline_seed(source, parent, kind, Some(i));
    let b = inline_seed(source, parent, kind, Some(j));
    let m = occurrences(first.numbered, a) + 1;
    let n = occurrences(later.numbered, b) + 1;
    let base = source + "|"@ + parent + "|"@ + kind + "|"@;
    let x = dec(i) + "|"@ + dec(m);
    let y = dec(j) + "|"@ + dec(n);
    if a + dec(m) == b + dec(n) {
        assert(a + dec(m) =~= base + x);
        assert(b + dec(n) =~= base + y);
        assert(x =~= (base + x).skip(base.len() as int));
        assert(y =~= (base + y).skip(base.len() as int));
        reveal_strlit("|");
        lemma_dec_digits(i);
        lemma_dec_digits(j);
        lemma_dec_digits(m);
        lemma_dec_digits(n);
        let p = dec(i).len() as int;
        let q = dec(j).len() as int;
        assert(x[p] == '|');
        assert(y[q] == '|');
        if p < q {
            assert(y[p] == dec(j)[p]);
        } else if q < p {
            assert(x[q] == dec(i)[q]);
        }
        assert(dec(i) =~= x.take(p));
        assert(dec(j) =~= y.take(q));
        assert(dec(m) =~= x.skip(p + 1));
        assert(dec(n) =~= y.skip(q + 1));
        lemma_dec_differs(i, j);
        lemma_dec_differs(m, n);
        let after = first.numbered.push(a);
        assert(after.drop_last() =~= first.numbered);
        lemma_occurrences_grow(after, later.numbered, a);
    }
}

proof fn lemma_occurrences_grow(a: Seq<Seq<char>>, b: Seq<Seq<char>>, s: Seq<char>)
    requires
        a.len() <= b.len(),
        b.take(a.len() as int) == a,
    ensures
        occurrences(a, s) <= occurrences(b, s),
    decreases b.len(),
{
    if a.len() < b.len() {
        assert(b.drop_last().take(a.len() as int) =~= a);
        lemma_occurrences_grow(a, b.drop_last(), s);
    } else {
        assert(b =~= a);
    }
}

proof fn lemma_dec_digits(n: nat)
    ensures
        dec(n).len() > 0,
        forall|k: int| 0 <= k < dec(n).len() ==> '0' <= (#[trigger] dec(n)[k]) <= '9',
    decreases n,
{
    if n >= 10 {
        lemma_dec_digits(n / 10);
    }
}

proof fn lemma_dec_differs(a: nat, b: nat)
    requires
        dec(a) == dec(b),
    ensures
        a == b,
    decreases a,
{
    lemma_dec_digits(a / 10);
    lemma_dec_digits(b / 10);
    assert(dec(a).last() == digit_of(a % 10));
    assert(dec(b).last() == digit_of(b % 10));
    if a >= 10 && b >= 10 {
        assert(dec(a / 10) =~= dec(a).drop_last());
        assert(dec(b / 10) =~= dec(b).drop_last());
        lemma_dec_differs(a / 10, b / 10);
    }
}

/// Do two lists of items differ in nothing but the spelling of tags that mean the
/// same?
pub open spec fn same_but_for_tags(a: Seq<NodeV>, b: Seq<NodeV>) -> bool {
    &&& a.len() == b.len()
    &&& forall|i: int|
        0 <= i < a.len() ==> (#[trigger] a[i]).kind == b[i].kind && same_tag(a[i].tag, b[i].tag)
}

/// Are the tags equal, or `!merge` and `!append-from`, or `!remove` and
/// `!remove-all`?
pub open spec fn same_tag(a: Option<Seq<char>>, b: Option<Seq<char>>) -> bool {
    ||| a == b
    ||| a == Some("!merge"@) && b == Some("!append-from"@)
    ||| a == Some("!remove-all"@) && b == Some("!remove"@)
}

/// `!merge` means `!append-from`, and `!remove-all` means `!remove`: lists that
/// differ in nothing else stand for the same operations.
pub proof fn merge_is_append_from(
    path: Seq<char>,
    a: Seq<NodeV>,
    b: Seq<NodeV>,
    i: int,
    st: StateV,
)
    requires
        same_but_for_tags(a, b),
        0 <= i,
        all_scalar(a),
    ensures
        tagged_ops(path, a, i, st) is Ok <==> tagged_ops(path, b, i, st) is Ok,
        tagged_ops(path, a, i, st) is Ok ==> tagged_ops(path, a, i, st) == tagged_ops(
            path,
            b,
            i,
            st,
        ),
    decreases a.len() - i,
{
    if i < a.len() {
        reveal_strlit("!append");
        reveal_strlit("!append-once");
        reveal_strlit("!prepend");
        reveal_strlit("!prepend-once");
        reveal_strlit("!remove");
        reveal_strlit("!remove-all");
        reveal_strlit("!append-from");
        reveal_strlit("!merge");
        reveal_strlit("!prepend-from");
        assert(a[i].kind == b[i].kind && same_tag(a[i].tag, b[i].tag));
        assert(a[i].as_str() == b[i].as_str());
        if a[i].tag is Some {
            let v = a[i].as_str()->0;
            let x = edit_for(a[i].tag->0, v);
            let y = edit_for(b[i].tag->0, v);
            assert("!merge"@.len() == 6);
            assert("!append-from"@.len() == 12);
            assert("!remove-all"@.len() == 11);
            assert("!remove"@.len() == 7);
            assert("!append"@.len() == 7 && "!append"@[1] == 'a');
            assert("!remove"@[1] == 'r');
            assert("!append-once"@.len() == 12 && "!append-once"@[8] == 'o');
            assert("!append-from"@[8] == 'f');
            assert("!prepend"@.len() == 8);
            assert("!prepend-once"@.len() == 13);
            assert(x == y);
            if x is Some {
                merge_is_append_from(
                    path,
                    a,
                    b,
                    i + 1,
                    st.emit(OpV::Edit { flat: path, op: x->0 }),
                );
            }
        }
    }
}

// ---- interpreting ----------------------------------------------------------

struct State {
    ops: Vec<Op>,
    numbered: Vec<Vec<char>>,
}

impl View for State {
    type V = StateV;

    closed spec fn view(&self) -> StateV {
        StateV { ops: ops_view(self.ops@), numbered: vecs_view(self.numbered@) }
    }
}

impl State {
    fn emit(&mut self, op: Op)
        ensures
            final(self)@ == old(self)@.emit(op@),
    {
        let ghost before = self.ops@;
        self.ops.push(op);
        proof {
            assert(ops_view(self.ops@) =~= ops_view(before).push(op@));
        }
    }

    fn assign(&mut self, flat: &[char], value: String)
        ensures
            final(self)@ == old(self)@.assign(flat@, value@),
    {
        self.emit(Op::Edit { flat: string_of(flat), op: EditOp::Assign(value) });
    }
}

/// The outcome of a step on the state.
spec fn step(r: Result<(), String>, st: State) -> Result<StateV, Seq<char>> {
    match r {
        Ok(_) => Ok(st@),
        Err(e) => Err(e@),
    }
}

fn complain(path: &[char], what: &str) -> (r: String)
    ensures
        r@ == complaint(path@, what@),
{
    let mut out: Vec<char> = Vec::new();
    push_lit(&mut out, "'");
    push_chars(&mut out, path);
    push_lit(&mut out, what);
    proof {
        assert(out@ =~= complaint(path@, what@));
    }
    string_of(out.as_slice())
}

fn complain_about(path: &[char], what: &str, name: &str, rest: &str) -> (r: String)
    ensures
        r@ == complaint_about(path@, what@, name@, rest@),
{
    let mut out: Vec<char> = Vec::new();
    push_lit(&mut out, "'");
    push_chars(&mut out, path);
    push_lit(&mut out, what);
    push_lit(&mut out, name);
    push_lit(&mut out, rest);
    proof {
        assert(out@ =~= complaint_about(path@, what@, name@, rest@));
    }
    string_of(out.as_slice())
}

fn join_key(path: &[char], key: &String) -> (r: Vec<char>)
    ensures
        r@ == dotted(path@, key@),
{
    let mut out: Vec<char> = Vec::new();
    push_chars(&mut out, path);
    push_lit(&mut out, ".");
    push_lit(&mut out, key.as_str());
    proof {
        assert(out@ =~= dotted(path@, key@));
    }
    out
}

fn is_reserved(key: &String) -> (r: bool)
    ensures
        r == reserved(key@),
{
    let v = chars_of(key.as_str());
    starts_with_char(v.as_slice(), '$')
}

/// A map with `$base` or `$type`.
fn is_inline_record(n: &Node) -> (r: bool)
    ensures
        r == (n@.kind is Table && is_record(n@)),
{
    match &n.kind {
        Kind::Table(_) => n.get("$base").is_some() || n.get("$type").is_some(),
        _ => false,
    }
}

fn text_at(n: &Node, key: &str) -> (r: Option<String>)
    ensures
        match r {
            Some(s) => text_of(n@, key@) == Some(s@),
            None => text_of(n@, key@) is None,
        },
{
    match n.get(key) {
        Some(v) => match v.as_str() {
            Some(s) => Some(s.to_owned()),
            None => None,
        },
        None => None,
    }
}

fn count_occurrences(log: &Vec<Vec<char>>, s: &[char]) -> (r: u128)
    ensures
        r == occurrences(vecs_view(log@), s@),
        r <= usize::MAX,
{
    let ghost all = vecs_view(log@);
    let mut n: u128 = 0;
    let mut i: usize = 0;
    while i < log.len()
        invariant
            i <= log.len(),
            all == vecs_view(log@),
            n <= i,
            n == occurrences(all.take(i as int), s@),
        decreases log.len() - i,
    {
        proof {
            assert(all.take(i + 1).drop_last() =~= all.take(i as int));
            assert(all.take(i + 1).last() == log@[i as int]@);
        }
        if same(log[i].as_slice(), s) {
            n += 1;
        }
        i += 1;
    }
    proof {
        assert(all.take(i as int) =~= all);
    }
    n
}

spec fn index_view(i: Option<usize>) -> Option<nat> {
    match i {
        Some(k) => Some(k as nat),
        None => None,
    }
}

/// `parent$XXXXXXXX`, with the FNV-1a hash of the source, the parent flat, the
/// record's type and, for a list item, its index and a running number.
fn compose_inline_name(
    source: &[char],
    parent: &[char],
    kind: &String,
    index: Option<usize>,
    st: &mut State,
) -> (r: Vec<char>)
    ensures
        (r@, final(st)@) == named_inline(
            source@,
            parent@,
            kind@,
            index_view(index),
            old(st)@,
        ),
{
    let mut h: Vec<char> = Vec::new();
    push_chars(&mut h, source);
    push_lit(&mut h, "|");
    push_chars(&mut h, parent);
    push_lit(&mut h, "|");
    push_lit(&mut h, kind.as_str());
    proof {
        assert(h@ =~= source@ + "|"@ + parent@ + "|"@ + kind@);
    }
    if let Some(i) = index {
        push_lit(&mut h, "|");
        push_dec(&mut h, i as u128);
        push_lit(&mut h, "|");
        proof {
            assert(h@ =~= inline_seed(source@, parent@, kind@, index_view(index)));
        }
        let n: u128 = count_occurrences(&st.numbered, h.as_slice()) + 1;
        let ghost before = st.numbered@;
        let seed = copy_chars(h.as_slice());
        st.numbered.push(seed);
        proof {
            assert(vecs_view(st.numbered@) =~= vecs_view(before).push(seed@));
        }
        push_dec(&mut h, n);
    }
    let text = string_of(h.as_slice());
    let hash: u32 = fnv1a32(text.as_str().as_bytes());
    let mut out: Vec<char> = Vec::new();
    push_chars(&mut out, parent);
    push_lit(&mut out, "$");
    push_hex_upper(&mut out, hash as u64, 8);
    proof {
        assert(out@ =~= inline_name(parent@, h@));
    }
    out
}

/// The positional form of a map, where the names are exactly its keys: outer
/// `None` where they are not, inner `None` where a value is no scalar.
fn positional_of(es: &Vec<(String, Node)>, n: &Node, names: &Vec<&str>) -> (r: Option<
    Option<String>,
>)
    requires
        n.kind == Kind::Table(*es),
    ensures
        ({
            let keys = names@.map_values(|s: &str| s@);
            let entries = entries_view(es@);
            match r {
                None => !keys_are(entries, keys),
                Some(None) => keys_are(entries, keys) && positional(entries, keys) is None,
                Some(Some(s)) => keys_are(entries, keys) && positional(entries, keys) == Some(s@),
            }
        }),
{
    let ghost keys = names@.map_values(|s: &str| s@);
    let ghost entries = entries_view(es@);
    let mut i: usize = 0;
    while i < es.len()
        invariant
            i <= es.len(),
            keys == names@.map_values(|s: &str| s@),
            entries == entries_view(es@),
            forall|k: int| 0 <= k < i ==> keys.contains((#[trigger] entries[k]).0),
        decreases es.len() - i,
    {
        let mut found: bool = false;
        let mut j: usize = 0;
        proof {
            assert(entries[i as int].0 == es@[i as int].0@);
        }
        while j < names.len()
            invariant
                j <= names.len(),
                i < es.len(),
                keys == names@.map_values(|s: &str| s@),
                entries == entries_view(es@),
                found == exists|k: int| 0 <= k < j && keys[k] == es@[i as int].0@,
            decreases names.len() - j,
        {
            if same_str(names[j], es[i].0.as_str()) {
                proof {
                    assert(keys[j as int] == es@[i as int].0@);
                }
                found = true;
            }
            j += 1;
        }
        if !found {
            proof {
                assert(!keys.contains(entries[i as int].0));
            }
            return None;
        }
        i += 1;
    }
    let mut scalars: bool = true;
    let mut out: Vec<char> = Vec::new();
    let ghost texts = keys.map_values(|k: Seq<char>| (lookup(entries, k)->0).as_str()->0);
    let mut j: usize = 0;
    while j < names.len()
        invariant
            j <= names.len(),
            n.kind == Kind::Table(*es),
            keys == names@.map_values(|s: &str| s@),
            entries == entries_view(es@),
            texts == keys.map_values(|k: Seq<char>| (lookup(entries, k)->0).as_str()->0),
            forall|k: int| 0 <= k < j ==> lookup(entries, #[trigger] keys[k]) is Some,
            scalars == forall|k: int| 0 <= k < j ==> scalar_at(entries, #[trigger] keys[k]),
            scalars ==> out@ == joined(texts.take(j as int), ","@),
        decreases names.len() - j,
    {
        proof {
            assert(keys[j as int] == names@[j as int]@);
            assert(n@.get(keys[j as int]) == lookup(entries, keys[j as int]));
        }
        match n.get(names[j]) {
            None => {
                return None;
            },
            Some(v) => match v.as_str() {
                None => {
                    proof {
                        assert(!scalar_at(entries, keys[j as int]));
                    }
                    scalars = false;
                },
                Some(s) => {
                    if scalars {
                        let ghost before = out@;
                        if j > 0 {
                            push_lit(&mut out, ",");
                        }
                        push_lit(&mut out, s);
                        proof {
                            assert(texts.take(j + 1).drop_last() =~= texts.take(j as int));
                            assert(texts.take(j + 1).last() == s@);
                            assert(out@ =~= joined(texts.take(j + 1), ","@));
                        }
                    }
                },
            },
        }
        j += 1;
    }
    proof {
        assert(texts.take(j as int) =~= texts);
        assert(keys_are(entries, keys));
    }
    if scalars {
        Some(Some(string_of(out.as_slice())))
    } else {
        Some(None)
    }
}

/// The map of a known structure in its positional form.
fn struct_map_to_scalar(es: &Vec<(String, Node)>, n: &Node) -> (r: Option<String>)
    requires
        n.kind == Kind::Table(*es),
    ensures
        match r {
            Some(s) => structure(entries_view(es@)) == Some(s@),
            None => structure(entries_view(es@)) is None,
        },
{
    let names: Vec<&str> = vec!["x", "y"];
    proof {
        assert(names@.map_values(|s: &str| s@) =~= seq!["x"@, "y"@]);
    }
    if let Some(r) = positional_of(es, n, &names) {
        return r;
    }
    let names: Vec<&str> = vec!["x", "y", "z"];
    proof {
        assert(names@.map_values(|s: &str| s@) =~= seq!["x"@, "y"@, "z"@]);
    }
    if let Some(r) = positional_of(es, n, &names) {
        return r;
    }
    let names: Vec<&str> = vec!["i", "j", "k", "r"];
    proof {
        assert(names@.map_values(|s: &str| s@) =~= seq!["i"@, "j"@, "k"@, "r"@]);
    }
    if let Some(r) = positional_of(es, n, &names) {
        return r;
    }
    let names: Vec<&str> = vec!["pitch", "yaw", "roll"];
    proof {
        assert(names@.map_values(|s: &str| s@) =~= seq!["pitch"@, "yaw"@, "roll"@]);
    }
    if let Some(r) = positional_of(es, n, &names) {
        return r;
    }
    let names: Vec<&str> = vec!["red", "green", "blue", "alpha"];
    proof {
        assert(names@.map_values(|s: &str| s@) =~= seq!["red"@, "green"@, "blue"@, "alpha"@]);
    }
    match positional_of(es, n, &names) {
        Some(r) => r,
        None => None,
    }
}

fn process_entry(path: &[char], n: &Node, top: bool, source: &[char], st: &mut State) -> (r: Result<
    (),
    String,
>)
    ensures
        step(r, *final(st)) == entry_ops(path@, n@, top, source@, old(st)@),
    decreases size(n@), 5nat,
{
    match &n.kind {
        Kind::Scalar(s) => {
            st.assign(path, s.clone());
            Ok(())
        },
        Kind::List(items) => emit_array_ops(path, items, source, st),
        Kind::Table(es) => process_map(path, n, es, top, source, st),
    }
}

fn process_map(
    path: &[char],
    n: &Node,
    es: &Vec<(String, Node)>,
    top: bool,
    source: &[char],
    st: &mut State,
) -> (r: Result<(), String>)
    requires
        n.kind == Kind::Table(*es),
    ensures
        step(r, *final(st)) == map_ops(path@, n@, entries_view(es@), top, source@, old(st)@),
    decreases 1 + table_size(entries_view(es@), 0), 4nat,
{
    if is_inline_record(n) {
        if top {
            return emit_record(path, n, es, source, st);
        }
        return match make_inline_record(path, n, es, None, source, st) {
            Err(e) => Err(e),
            Ok(name) => {
                st.assign(path, string_of(name.as_slice()));
                Ok(())
            },
        };
    }
    if !top {
        if let Some(s) = struct_map_to_scalar(es, n) {
            st.assign(path, s);
            return Ok(());
        }
        if n.get("$value").is_some() && n.get("$instances").is_none() {
            return match text_at(n, "$value") {
                Some(s) => {
                    st.assign(path, s);
                    Ok(())
                },
                None => Err(complain(path, "': $value precisa ser escalar")),
            };
        }
    }
    let ghost all = entries_view(es@);
    let mut i: usize = 0;
    while i < es.len()
        invariant
            i <= es.len(),
            all == entries_view(es@),
            table_size(all, i as int) <= table_size(all, 0),
            map_ops(path@, n@, all, top, source@, old(st)@) == nested_ops(
                path@,
                all,
                i as int,
                source@,
                st@,
            ),
        decreases es.len() - i,
    {
        let key = &es[i].0;
        proof {
            assert(all[i as int] == (key@, es@[i as int].1@));
        }
        if same_str(key.as_str(), "$game") || same_str(key.as_str(), "$dlc") {
            i += 1;
            continue;
        }
        if is_reserved(key) {
            return Err(
                complain_about(path, "': chave '", key.as_str(), "' não suportada offline"),
            );
        }
        let child = join_key(path, key);
        match process_entry(child.as_slice(), &es[i].1, false, source, st) {
            Err(e) => {
                return Err(e);
            },
            Ok(_) => {},
        }
        i += 1;
    }
    Ok(())
}

/// The operations of a record, named or inline: `$base` clones, `$type` creates,
/// and every other property is set.
fn emit_record(
    name: &[char],
    n: &Node,
    es: &Vec<(String, Node)>,
    source: &[char],
    st: &mut State,
) -> (r: Result<(), String>)
    requires
        n.kind == Kind::Table(*es),
    ensures
        step(r, *final(st)) == record_ops(name@, n@, entries_view(es@), source@, old(st)@),
    decreases 1 + table_size(entries_view(es@), 0), 2nat,
{
    if n.get("$instances").is_some() {
        return Err(complain(name, "': template $instances não expandido"));
    }
    let base = text_at(n, "$base");
    let class = text_at(n, "$type");
    if n.get("$base").is_some() && base.is_none() {
        return Err(complain(name, "': $base precisa ser um nome de record"));
    }
    if n.get("$type").is_some() && class.is_none() {
        return Err(complain(name, "': $type precisa ser um nome de classe"));
    }
    if let Some(base) = base {
        st.emit(Op::Clone { record: string_of(name), base });
    }
    if let Some(class) = class {
        st.emit(Op::Create { record: string_of(name), class });
    }
    let ghost all = entries_view(es@);
    let mut i: usize = 0;
    while i < es.len()
        invariant
            i <= es.len(),
            all == entries_view(es@),
            table_size(all, i as int) <= table_size(all, 0),
            record_ops(name@, n@, all, source@, old(st)@) == property_ops(
                name@,
                all,
                i as int,
                source@,
                st@,
            ),
        decreases es.len() - i,
    {
        let key = &es[i].0;
        proof {
            assert(all[i as int] == (key@, es@[i as int].1@));
        }
        if !is_reserved(key) {
            let child = join_key(name, key);
            match process_entry(child.as_slice(), &es[i].1, false, source, st) {
                Err(e) => {
                    return Err(e);
                },
                Ok(_) => {},
            }
        }
        i += 1;
    }
    Ok(())
}

/// Makes an inline record and hands its name back.
fn make_inline_record(
    parent: &[char],
    n: &Node,
    es: &Vec<(String, Node)>,
    index: Option<usize>,
    source: &[char],
    st: &mut State,
) -> (r: Result<Vec<char>, String>)
    requires
        n.kind == Kind::Table(*es),
    ensures
        ({
            let goal = inline_ops(
                parent@,
                n@,
                entries_view(es@),
                index_view(index),
                source@,
                old(st)@,
            );
            match r {
                Ok(name) => goal == Ok::<(Seq<char>, StateV), Seq<char>>((name@, final(st)@)),
                Err(e) => goal == Err::<(Seq<char>, StateV), Seq<char>>(e@),
            }
        }),
    decreases 1 + table_size(entries_view(es@), 0), 3nat,
{
    let class = text_at(n, "$type");
    let kind: Option<String> = if class.is_some() {
        class
    } else {
        text_at(n, "$base")
    };
    match kind {
        None => Err(complain(parent, "': record inline precisa de $type ou $base")),
        Some(k) => {
            let name = compose_inline_name(source, parent, &k, index, st);
            match emit_record(name.as_slice(), n, es, source, st) {
                Err(e) => Err(e),
                Ok(_) => Ok(name),
            }
        },
    }
}

fn edit_of(tag: &str, v: String) -> (r: Option<EditOp>)
    ensures
        match r {
            Some(op) => edit_for(tag@, v@) == Some(op@),
            None => edit_for(tag@, v@) is None,
        },
{
    let t = chars_of(tag);
    let t = t.as_slice();
    if is_lit(t, "!append") {
        Some(EditOp::Append(v))
    } else if is_lit(t, "!append-once") {
        Some(EditOp::AppendOnce(v))
    } else if is_lit(t, "!prepend") {
        Some(EditOp::Prepend(v))
    } else if is_lit(t, "!prepend-once") {
        Some(EditOp::PrependOnce(v))
    } else if is_lit(t, "!remove") || is_lit(t, "!remove-all") {
        Some(EditOp::Remove(v))
    } else if is_lit(t, "!append-from") || is_lit(t, "!merge") {
        Some(EditOp::AppendFrom(v))
    } else if is_lit(t, "!prepend-from") {
        Some(EditOp::PrependFrom(v))
    } else {
        None
    }
}

spec fn after_items(front: Seq<NodeV>, r: Result<(Seq<NodeV>, StateV), Seq<char>>) -> Result<
    (Seq<NodeV>, StateV),
    Seq<char>,
> {
    match r {
        Ok((v, st)) => Ok((front + v, st)),
        Err(e) => Err(e),
    }
}

/// Replaces inline records by their names.
fn resolve_items(path: &[char], items: &Vec<Node>, source: &[char], st: &mut State) -> (r: Result<
    Vec<Node>,
    String,
>)
    ensures
        ({
            let goal = resolved_items(path@, nodes_view(items@), 0, source@, old(st)@);
            match r {
                Ok(v) => goal == Ok::<(Seq<NodeV>, StateV), Seq<char>>(
                    (nodes_view(v@), final(st)@),
                ),
                Err(e) => goal == Err::<(Seq<NodeV>, StateV), Seq<char>>(e@),
            }
        }),
    decreases list_size(nodes_view(items@), 0), 6nat,
{
    let ghost all = nodes_view(items@);
    let ghost goal = resolved_items(path@, all, 0, source@, st@);
    let mut out: Vec<Node> = Vec::new();
    let mut i: usize = 0;
    proof {
        assert(nodes_view(out@) =~= Seq::empty());
        match goal {
            Ok((v, s)) => {
                assert(nodes_view(out@) + v =~= v);
            },
            Err(_) => {},
        }
    }
    while i < items.len()
        invariant
            i <= items.len(),
            all == nodes_view(items@),
            list_size(all, i as int) <= list_size(all, 0),
            goal == resolved_items(path@, all, 0, source@, old(st)@),
            goal == after_items(
                nodes_view(out@),
                resolved_items(path@, all, i as int, source@, st@),
            ),
        decreases items.len() - i,
    {
        let it = &items[i];
        let ghost before = nodes_view(out@);
        proof {
            assert(all[i as int] == it@);
        }
        let mut found: Option<Node> = None;
        if let Kind::Table(es) = &it.kind {
            if is_inline_record(it) {
                proof {
                    assert(size(it@) <= list_size(all, i as int));
                    assert(size(it@) == 1 + table_size(entries_view(es@), 0));
                }
                match make_inline_record(path, it, es, Some(i), source, st) {
                    Err(e) => {
                        return Err(e);
                    },
                    Ok(name) => {
                        found = Some(
                            Node {
                                tag: copy_tag(&it.tag),
                                kind: Kind::Scalar(string_of(name.as_slice())),
                            },
                        );
                    },
                }
            }
        }
        let n = match found {
            Some(n) => n,
            None => copy_node(it),
        };
        proof {
            lemma_nodes_push(out@, n);
            match resolved_items(path@, all, i + 1, source@, st@) {
                Ok((rest, s)) => {
                    assert(before.push(n@) + rest =~= before + (seq![n@] + rest));
                },
                Err(_) => {},
            }
        }
        out.push(n);
        i += 1;
    }
    proof {
        assert(nodes_view(out@) + Seq::empty() =~= nodes_view(out@));
    }
    Ok(out)
}

/// The text of a whole list, where every item is a scalar.
fn list_of(items: &Vec<Node>) -> (r: Option<String>)
    ensures
        match r {
            Some(s) => all_scalar(nodes_view(items@)) && s@ == list_text(nodes_view(items@)),
            None => !all_scalar(nodes_view(items@)),
        },
{
    let ghost all = nodes_view(items@);
    let ghost texts = all.map_values(|n: NodeV| n.as_str()->0);
    let mut out: Vec<char> = Vec::new();
    let mut i: usize = 0;
    while i < items.len()
        invariant
            i <= items.len(),
            all == nodes_view(items@),
            texts == all.map_values(|n: NodeV| n.as_str()->0),
            forall|k: int| 0 <= k < i ==> (#[trigger] all[k]).as_str() is Some,
            out@ == joined(texts.take(i as int), ", "@),
        decreases items.len() - i,
    {
        proof {
            assert(all[i as int] == items@[i as int]@);
        }
        match items[i].as_str() {
            None => {
                return None;
            },
            Some(s) => {
                if i > 0 {
                    push_lit(&mut out, ", ");
                }
                push_lit(&mut out, s);
                proof {
                    assert(texts.take(i + 1).drop_last() =~= texts.take(i as int));
                    assert(texts.take(i + 1).last() == s@);
                    assert(out@ =~= joined(texts.take(i + 1), ", "@));
                }
            },
        }
        i += 1;
    }
    let mut whole: Vec<char> = Vec::new();
    push_lit(&mut whole, "[");
    push_chars(&mut whole, out.as_slice());
    push_lit(&mut whole, "]");
    proof {
        assert(texts.take(i as int) =~= texts);
        assert(whole@ =~= list_text(all));
    }
    Some(string_of(whole.as_slice()))
}

fn has_tag(items: &Vec<Node>) -> (r: bool)
    ensures
        r == any_tagged(nodes_view(items@)),
{
    let ghost all = nodes_view(items@);
    let mut i: usize = 0;
    while i < items.len()
        invariant
            i <= items.len(),
            all == nodes_view(items@),
            forall|k: int| 0 <= k < i ==> (#[trigger] all[k]).tag is None,
        decreases items.len() - i,
    {
        proof {
            assert(all[i as int] == items@[i as int]@);
        }
        if items[i].tag.is_some() {
            return true;
        }
        i += 1;
    }
    false
}

/// One edit for each tagged item.
fn emit_tagged(path: &[char], resolved: &Vec<Node>, st: &mut State) -> (r: Result<(), String>)
    ensures
        step(r, *final(st)) == tagged_ops(path@, nodes_view(resolved@), 0, old(st)@),
{
    let ghost all = nodes_view(resolved@);
    let mut i: usize = 0;
    while i < resolved.len()
        invariant
            i <= resolved.len(),
            all == nodes_view(resolved@),
            tagged_ops(path@, all, 0, old(st)@) == tagged_ops(path@, all, i as int, st@),
        decreases resolved.len() - i,
    {
        let it = &resolved[i];
        proof {
            assert(all[i as int] == it@);
        }
        let tag = match &it.tag {
            None => {
                return Err(
                    complain(path, "': item sem tag numa lista de operações (!append etc.)"),
                );
            },
            Some(t) => t.as_str(),
        };
        let v = match it.as_str() {
            None => {
                return Err(
                    complain_about(
                        path,
                        "': operação '",
                        tag,
                        "' espera valor escalar (ou record inline)",
                    ),
                );
            },
            Some(s) => s.to_owned(),
        };
        match edit_of(tag, v) {
            None => {
                return Err(complain_about(path, "': tag de array desconhecida '", tag, "'"));
            },
            Some(op) => {
                st.emit(Op::Edit { flat: string_of(path), op });
            },
        }
        i += 1;
    }
    Ok(())
}

fn emit_array_ops(path: &[char], items: &Vec<Node>, source: &[char], st: &mut State) -> (r: Result<
    (),
    String,
>)
    ensures
        step(r, *final(st)) == array_ops(path@, nodes_view(items@), source@, old(st)@),
    decreases 1 + list_size(nodes_view(items@), 0), 4nat,
{
    let resolved = match resolve_items(path, items, source, st) {
        Err(e) => {
            return Err(e);
        },
        Ok(v) => v,
    };
    if !has_tag(&resolved) {
        return match list_of(&resolved) {
            None => Err(complain(path, "': elemento de array precisa ser escalar")),
            Some(s) => {
                st.assign(path, s);
                Ok(())
            },
        };
    }
    emit_tagged(path, &resolved, st)
}

/// The operations of the top-level entries.
fn process_document(es: &Vec<(String, Node)>, source: &[char], st: &mut State) -> (r: Result<
    (),
    String,
>)
    ensures
        step(r, *final(st)) == document_ops(entries_view(es@), 0, source@, old(st)@),
{
    let ghost all = entries_view(es@);
    let mut i: usize = 0;
    while i < es.len()
        invariant
            i <= es.len(),
            all == entries_view(es@),
            document_ops(all, 0, source@, old(st)@) == document_ops(all, i as int, source@, st@),
        decreases es.len() - i,
    {
        proof {
            assert(all[i as int] == (es@[i as int].0@, es@[i as int].1@));
        }
        let path = chars_of(es[i].0.as_str());
        match process_entry(path.as_slice(), &es[i].1, true, source, st) {
            Err(e) => {
                return Err(e);
            },
            Ok(_) => {},
        }
        i += 1;
    }
    Ok(())
}

pub open spec fn ops_outcome(r: Result<Vec<Op>, String>) -> Result<Seq<OpV>, Seq<char>> {
    match r {
        Ok(v) => Ok(ops_view(v@)),
        Err(e) => Err(e@),
    }
}

/// Interprets a document whose origin is unknown.
pub fn interpret(root: &Node) -> (r: Result<Vec<Op>, String>)
    ensures
        ops_outcome(r) == interpreted(root@, Seq::empty()),
{
    proof {
        reveal_strlit("");
        assert(""@ =~= Seq::<char>::empty());
    }
    interpret_from(root, "")
}

/// Interprets a document. The origin enters the names of inline records.
pub fn interpret_from(root: &Node, source: &str) -> (r: Result<Vec<Op>, String>)
    ensures
        ops_outcome(r) == interpreted(root@, source@),
{
    let es = match &root.kind {
        Kind::Table(es) => es,
        _ => {
            return Err("o documento precisa ser um mapa de records/flats".to_owned());
        },
    };
    let origin = chars_of(source);
    let mut st = State { ops: Vec::new(), numbered: Vec::new() };
    proof {
        assert(st@.ops =~= Seq::empty());
        assert(st@.numbered =~= Seq::empty());
    }
    match process_document(es, origin.as_slice(), &mut st) {
        Err(e) => Err(e),
        Ok(_) => Ok(st.ops),
    }
}

} // verus!
