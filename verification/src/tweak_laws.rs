//! What the parts of a tweak document mean: the operations that each of them
//! stands for, in the words of the document.
use vstd::prelude::*;

use crate::node::{key_index, list_node, lookup, map_node, scalar_node, KindV, NodeV};
use crate::text::joined;
use crate::tweakxl::{
    all_scalar, any_tagged, document_ops, dotted, edit_for, entry_ops, inline_name, interpreted,
    keys_are, list_text, made, named_inline, nested_ops, positional, property_ops, record_ops,
    resolved_items, structure, tagged_ops, text_of, EditOpV, OpV, StateV,
};

verus! {

// ---- array tags ------------------------------------------------------------

/// Is the tag one of an edit of an array?
pub open spec fn array_tag(t: Seq<char>) -> bool {
    ||| t == "!append"@
    ||| t == "!append-once"@
    ||| t == "!prepend"@
    ||| t == "!prepend-once"@
    ||| t == "!remove"@
    ||| t == "!remove-all"@
    ||| t == "!append-from"@
    ||| t == "!merge"@
    ||| t == "!prepend-from"@
}

/// Is the item a scalar with such a tag?
pub open spec fn tagged_scalar(n: NodeV) -> bool {
    n.kind is Scalar && n.tag is Some && array_tag(n.tag->0)
}

proof fn lemma_tags(tag: Seq<char>, v: Seq<char>)
    ensures
        tag == "!append"@ ==> edit_for(tag, v) == Some(EditOpV::Append(v)),
        tag == "!append-once"@ ==> edit_for(tag, v) == Some(EditOpV::AppendOnce(v)),
        tag == "!prepend"@ ==> edit_for(tag, v) == Some(EditOpV::Prepend(v)),
        tag == "!prepend-once"@ ==> edit_for(tag, v) == Some(EditOpV::PrependOnce(v)),
        tag == "!remove"@ ==> edit_for(tag, v) == Some(EditOpV::Remove(v)),
        tag == "!remove-all"@ ==> edit_for(tag, v) == Some(EditOpV::Remove(v)),
        tag == "!append-from"@ ==> edit_for(tag, v) == Some(EditOpV::AppendFrom(v)),
        tag == "!merge"@ ==> edit_for(tag, v) == Some(EditOpV::AppendFrom(v)),
        tag == "!prepend-from"@ ==> edit_for(tag, v) == Some(EditOpV::PrependFrom(v)),
        !array_tag(tag) ==> edit_for(tag, v) is None,
{
    reveal_strlit("!append");
    reveal_strlit("!append-once");
    reveal_strlit("!prepend");
    reveal_strlit("!prepend-once");
    reveal_strlit("!remove");
    reveal_strlit("!remove-all");
    reveal_strlit("!append-from");
    reveal_strlit("!merge");
    reveal_strlit("!prepend-from");
    assert("!append"@.len() == 7 && "!remove"@.len() == 7 && "!merge"@.len() == 6);
    assert("!append-once"@.len() == 12 && "!append-from"@.len() == 12);
    assert("!prepend"@.len() == 8 && "!remove-all"@.len() == 11);
    assert("!prepend-once"@.len() == 13 && "!prepend-from"@.len() == 13);
    assert("!append"@[1] == 'a' && "!remove"@[1] == 'r');
    assert("!append-once"@[8] == 'o' && "!append-from"@[8] == 'f');
    assert("!prepend-once"@[9] == 'o' && "!prepend-from"@[9] == 'f');
}

proof fn lemma_resolved(path: Seq<char>, items: Seq<NodeV>, i: int, source: Seq<char>, st: StateV)
    requires
        0 <= i <= items.len(),
        forall|k: int| 0 <= k < items.len() ==> (#[trigger] items[k]).kind is Scalar,
    ensures
        resolved_items(path, items, i, source, st) == Ok::<(Seq<NodeV>, StateV), Seq<char>>(
            (items.skip(i), st),
        ),
    decreases items.len() - i,
{
    if i < items.len() {
        assert(items[i].kind is Scalar);
        lemma_resolved(path, items, i + 1, source, st);
        assert(seq![items[i]] + items.skip(i + 1) =~= items.skip(i));
    } else {
        assert(items.skip(i) =~= Seq::empty());
    }
}

proof fn lemma_tagged(path: Seq<char>, items: Seq<NodeV>, i: int, st: StateV)
    requires
        0 <= i <= items.len(),
        forall|k: int| 0 <= k < items.len() ==> tagged_scalar(#[trigger] items[k]),
    ensures
        tagged_ops(path, items, i, st) is Ok,
        ({
            let r = tagged_ops(path, items, i, st)->Ok_0;
            &&& r.ops.len() == st.ops.len() + items.len() - i
            &&& r.numbered == st.numbered
            &&& forall|k: int| 0 <= k < st.ops.len() ==> r.ops[k] == st.ops[k]
            &&& forall|k: int|
                i <= k < items.len() ==> r.ops[st.ops.len() + k - i] == (OpV::Edit {
                    flat: path,
                    op: edit_for((#[trigger] items[k]).tag->0, items[k].kind->Scalar_0)->0,
                })
        }),
    decreases items.len() - i,
{
    if i < items.len() {
        assert(tagged_scalar(items[i]));
        let v = items[i].kind->Scalar_0;
        lemma_tags(items[i].tag->0, v);
        let op = OpV::Edit { flat: path, op: edit_for(items[i].tag->0, v)->0 };
        let next = st.emit(op);
        lemma_tagged(path, items, i + 1, next);
        let r = tagged_ops(path, items, i, st)->Ok_0;
        assert(r.ops[st.ops.len() as int] == next.ops[st.ops.len() as int]);
        assert forall|k: int| 0 <= k < st.ops.len() implies r.ops[k] == st.ops[k] by {
            assert(next.ops[k] == st.ops[k]);
        }
        assert forall|k: int| i <= k < items.len() implies r.ops[st.ops.len() + k - i] == (
        OpV::Edit {
            flat: path,
            op: edit_for((#[trigger] items[k]).tag->0, items[k].kind->Scalar_0)->0,
        }) by {
            if k > i {
                assert(next.ops.len() + k - (i + 1) == st.ops.len() + k - i);
            }
        }
    }
}

/// A list of tagged scalars stands for one edit of the list's flat for each item,
/// in their order, and each tag for the edit that it names.
pub proof fn array_tags_name_their_edits(
    path: Seq<char>,
    items: Seq<NodeV>,
    source: Seq<char>,
    st: StateV,
    k: int,
)
    requires
        forall|i: int| 0 <= i < items.len() ==> tagged_scalar(#[trigger] items[i]),
        0 <= k < items.len(),
    ensures
        entry_ops(path, list_node(items), false, source, st) == entry_ops(
            path,
            list_node(items),
            true,
            source,
            st,
        ),
        entry_ops(path, list_node(items), true, source, st) is Ok,
        ({
            let r = entry_ops(path, list_node(items), true, source, st)->Ok_0;
            let op = r.ops[st.ops.len() + k];
            let v = items[k].kind->Scalar_0;
            &&& r.ops.len() == st.ops.len() + items.len()
            &&& forall|i: int| 0 <= i < st.ops.len() ==> r.ops[i] == #[trigger] st.ops[i]
            &&& items[k].tag == Some("!append"@) ==> op == (OpV::Edit {
                flat: path,
                op: EditOpV::Append(v),
            })
            &&& items[k].tag == Some("!append-once"@) ==> op == (OpV::Edit {
                flat: path,
                op: EditOpV::AppendOnce(v),
            })
            &&& items[k].tag == Some("!prepend"@) ==> op == (OpV::Edit {
                flat: path,
                op: EditOpV::Prepend(v),
            })
            &&& items[k].tag == Some("!prepend-once"@) ==> op == (OpV::Edit {
                flat: path,
                op: EditOpV::PrependOnce(v),
            })
            &&& items[k].tag == Some("!remove"@) ==> op == (OpV::Edit {
                flat: path,
                op: EditOpV::Remove(v),
            })
            &&& items[k].tag == Some("!remove-all"@) ==> op == (OpV::Edit {
                flat: path,
                op: EditOpV::Remove(v),
            })
            &&& items[k].tag == Some("!append-from"@) ==> op == (OpV::Edit {
                flat: path,
                op: EditOpV::AppendFrom(v),
            })
            &&& items[k].tag == Some("!merge"@) ==> op == (OpV::Edit {
                flat: path,
                op: EditOpV::AppendFrom(v),
            })
            &&& items[k].tag == Some("!prepend-from"@) ==> op == (OpV::Edit {
                flat: path,
                op: EditOpV::PrependFrom(v),
            })
        }),
{
    assert forall|i: int| 0 <= i < items.len() implies (#[trigger] items[i]).kind is Scalar by {
        assert(tagged_scalar(items[i]));
    }
    lemma_resolved(path, items, 0, source, st);
    assert(items.skip(0) =~= items);
    assert(tagged_scalar(items[k]));
    assert(any_tagged(items));
    lemma_tagged(path, items, 0, st);
    lemma_tags(items[k].tag->0, items[k].kind->Scalar_0);
}

/// Two tagged items of a list stand for the same edit only where their texts are
/// the same, and their tags are, or are two spellings of one.
pub proof fn edits_tell_the_items_apart(path: Seq<char>, a: NodeV, b: NodeV, source: Seq<char>, st: StateV)
    requires
        tagged_scalar(a),
        tagged_scalar(b),
        entry_ops(path, list_node(seq![a]), true, source, st) == entry_ops(
            path,
            list_node(seq![b]),
            true,
            source,
            st,
        ),
    ensures
        a.kind == b.kind,
        a.tag == b.tag || (a.tag == Some("!merge"@) && b.tag == Some("!append-from"@)) || (b.tag
            == Some("!merge"@) && a.tag == Some("!append-from"@)) || (a.tag == Some("!remove"@)
            && b.tag == Some("!remove-all"@)) || (b.tag == Some("!remove"@) && a.tag == Some(
            "!remove-all"@,
        )),
{
    array_tags_name_their_edits(path, seq![a], source, st, 0);
    array_tags_name_their_edits(path, seq![b], source, st, 0);
    assert(seq![a][0] == a && seq![b][0] == b);
}

/// A tag that is none of these, and an item without a tag beside a tagged one, are
/// errors.
pub proof fn other_tags_are_errors(path: Seq<char>, items: Seq<NodeV>, k: int, source: Seq<char>, st: StateV)
    requires
        0 <= k < items.len(),
        forall|i: int| 0 <= i < items.len() ==> (#[trigger] items[i]).kind is Scalar,
        any_tagged(items),
        items[k].tag is None || !array_tag(items[k].tag->0),
    ensures
        entry_ops(path, list_node(items), true, source, st) is Err,
{
    lemma_resolved(path, items, 0, source, st);
    assert(items.skip(0) =~= items);
    lemma_bad_tag(path, items, k, 0, st);
}

proof fn lemma_bad_tag(path: Seq<char>, items: Seq<NodeV>, k: int, i: int, st: StateV)
    requires
        0 <= i <= k < items.len(),
        items[k].tag is None || !array_tag(items[k].tag->0),
    ensures
        tagged_ops(path, items, i, st) is Err,
    decreases k - i,
{
    if i < k {
        match items[i].tag {
            None => {},
            Some(tag) => match items[i].as_str() {
                None => {},
                Some(v) => match edit_for(tag, v) {
                    None => {},
                    Some(op) => {
                        lemma_bad_tag(path, items, k, i + 1, st.emit(OpV::Edit { flat: path, op }));
                    },
                },
            },
        }
    } else if items[k].tag is Some && items[k].as_str() is Some {
        lemma_tags(items[k].tag->0, items[k].as_str()->0);
    }
}

// ---- values ----------------------------------------------------------------

/// A scalar stands for one assignment of its text, wherever it stands.
pub proof fn scalars_are_assigned(path: Seq<char>, tag: Option<Seq<char>>, s: Seq<char>, top: bool, source: Seq<char>, st: StateV)
    ensures
        entry_ops(path, NodeV { tag, kind: KindV::Scalar(s) }, top, source, st) == Ok::<
            StateV,
            Seq<char>,
        >(
            StateV {
                ops: st.ops.push(OpV::Edit { flat: path, op: EditOpV::Assign(s) }),
                numbered: st.numbered,
            },
        ),
{
}

/// A list of scalars without tags.
pub open spec fn plain_list(items: Seq<NodeV>) -> bool {
    forall|i: int| 0 <= i < items.len() ==> (#[trigger] items[i]).kind is Scalar && items[i].tag is None
}

/// The text that a list of scalars without tags is assigned as.
pub open spec fn assigned_list(path: Seq<char>, items: Seq<NodeV>, text: Seq<char>) -> bool {
    forall|source: Seq<char>, st: StateV, top: bool| #[trigger]
        entry_ops(path, list_node(items), top, source, st) == Ok::<StateV, Seq<char>>(
            StateV {
                ops: st.ops.push(OpV::Edit { flat: path, op: EditOpV::Assign(text) }),
                numbered: st.numbered,
            },
        )
}

proof fn lemma_plain_list(path: Seq<char>, items: Seq<NodeV>)
    requires
        plain_list(items),
    ensures
        assigned_list(path, items, list_text(items)),
{
    assert forall|source: Seq<char>, st: StateV, top: bool| #[trigger]
        entry_ops(path, list_node(items), top, source, st) == Ok::<StateV, Seq<char>>(
            StateV {
                ops: st.ops.push(OpV::Edit { flat: path, op: EditOpV::Assign(list_text(items)) }),
                numbered: st.numbered,
            },
        ) by {
        lemma_resolved(path, items, 0, source, st);
        assert(items.skip(0) =~= items);
        assert(!any_tagged(items));
        assert(all_scalar(items));
    }
}

/// A list of scalars is assigned as a whole, as the items between brackets: an
/// empty one as `[]`, one of one item as `[a]`, and an item more behind `, `.
pub proof fn lists_are_assigned_whole(path: Seq<char>, items: Seq<NodeV>, a: Seq<char>, body: Seq<char>)
    requires
        plain_list(items),
    ensures
        assigned_list(path, Seq::empty(), "[]"@),
        assigned_list(path, seq![scalar_node(a)], "["@ + a + "]"@),
        items.len() > 0 && assigned_list(path, items, "["@ + body + "]"@) ==> assigned_list(
            path,
            items.push(scalar_node(a)),
            "["@ + body + ", "@ + a + "]"@,
        ),
{
    let none = Seq::<NodeV>::empty();
    lemma_plain_list(path, none);
    let f = |n: NodeV| n.as_str()->0;
    assert(none.map_values(f) =~= Seq::empty());
    reveal_strlit("[");
    reveal_strlit("]");
    reveal_strlit("[]");
    assert(list_text(none) =~= "[]"@);
    let one = seq![scalar_node(a)];
    lemma_plain_list(path, one);
    assert(one.map_values(f) =~= seq![a]);
    assert(seq![a].drop_last() =~= Seq::empty());
    assert(joined(seq![a], ", "@) =~= a);
    let more = items.push(scalar_node(a));
    assert(plain_list(more)) by {
        assert forall|i: int| 0 <= i < more.len() implies (#[trigger] more[i]).kind is Scalar && more[i].tag is None by {
            if i < items.len() {
                assert(more[i] == items[i]);
            }
        }
    }
    lemma_plain_list(path, items);
    lemma_plain_list(path, more);
    if items.len() > 0 && assigned_list(path, items, "["@ + body + "]"@) {
        let st = StateV { ops: Seq::empty(), numbered: Seq::empty() };
        let r = entry_ops(path, list_node(items), true, Seq::empty(), st)->Ok_0;
        assert(entry_ops(path, list_node(items), true, Seq::empty(), st) is Ok);
        assert(r.ops[0] == OpV::Edit { flat: path, op: EditOpV::Assign(list_text(items)) });
        assert(r.ops[0] == OpV::Edit { flat: path, op: EditOpV::Assign("["@ + body + "]"@) });
        let texts = items.map_values(f);
        assert(list_text(items) =~= "["@ + joined(texts, ", "@) + "]"@);
        let inner = list_text(items).subrange(1, list_text(items).len() - 1);
        assert(inner =~= joined(texts, ", "@));
        assert(inner =~= body);
        assert(more.map_values(f) =~= texts.push(a));
        assert(texts.push(a).drop_last() =~= texts);
        assert(list_text(more) =~= "["@ + body + ", "@ + a + "]"@);
    }
}

// ---- records ---------------------------------------------------------------

/// Are the entries scalars whose keys mean nothing else?
pub open spec fn plain_fields(es: Seq<(Seq<char>, NodeV)>) -> bool {
    forall|i: int|
        0 <= i < es.len() ==> (#[trigger] es[i]).1.kind is Scalar && !(es[i].0.len() > 0 && es[i].0[0]
            == '$')
}

/// The assignments of the fields of a record: to its name, a dot, and the key.
pub open spec fn field_edits(name: Seq<char>, es: Seq<(Seq<char>, NodeV)>) -> Seq<OpV> {
    Seq::new(
        es.len(),
        |i: int|
            OpV::Edit {
                flat: name + "."@ + es[i].0,
                op: EditOpV::Assign(es[i].1.kind->Scalar_0),
            },
    )
}

/// The same state with more operations behind.
pub open spec fn and_then(st: StateV, ops: Seq<OpV>) -> Result<StateV, Seq<char>> {
    Ok(StateV { ops: st.ops + ops, numbered: st.numbered })
}

proof fn lemma_fields(name: Seq<char>, es: Seq<(Seq<char>, NodeV)>, i: int, source: Seq<char>, st: StateV)
    requires
        0 <= i <= es.len(),
        forall|k: int|
            i <= k < es.len() ==> (#[trigger] es[k]).1.kind is Scalar && !(es[k].0.len() > 0
                && es[k].0[0] == '$'),
    ensures
        property_ops(name, es, i, source, st) == and_then(st, field_edits(name, es.skip(i))),
        nested_ops(name, es, i, source, st) == and_then(st, field_edits(name, es.skip(i))),
    decreases es.len() - i,
{
    let all = field_edits(name, es.skip(i));
    if i < es.len() {
        reveal_strlit("$game");
        reveal_strlit("$dlc");
        assert("$game"@[0] == '$' && "$dlc"@[0] == '$');
        let op = OpV::Edit {
            flat: name + "."@ + es[i].0,
            op: EditOpV::Assign(es[i].1.kind->Scalar_0),
        };
        scalars_are_assigned(
            name + "."@ + es[i].0,
            es[i].1.tag,
            es[i].1.kind->Scalar_0,
            false,
            source,
            st,
        );
        let next = StateV { ops: st.ops.push(op), numbered: st.numbered };
        lemma_fields(name, es, i + 1, source, next);
        assert(es.skip(i)[0] == es[i]);
        assert(next.ops + field_edits(name, es.skip(i + 1)) =~= st.ops + all);
    } else {
        assert(all =~= Seq::empty());
        assert(st.ops + all =~= st.ops);
    }
}

proof fn lemma_key_absent(es: Seq<(Seq<char>, NodeV)>, key: Seq<char>, i: int)
    requires
        0 <= i <= es.len(),
        forall|k: int| i <= k < es.len() ==> (#[trigger] es[k]).0 != key,
    ensures
        key_index(es, key, i) == es.len(),
    decreases es.len() - i,
{
    if i < es.len() {
        lemma_key_absent(es, key, i + 1);
    }
}

proof fn lemma_reserved_words()
    ensures
        "$base"@ != "$type"@,
        "$base"@ != "$instances"@,
        "$type"@ != "$instances"@,
        "$base"@ != "$value"@,
        "$type"@ != "$value"@,
        "$value"@ != "$instances"@,
        "$base"@.len() > 0 && "$base"@[0] == '$',
        "$type"@.len() > 0 && "$type"@[0] == '$',
        "$value"@.len() > 0 && "$value"@[0] == '$',
        "$instances"@.len() > 0 && "$instances"@[0] == '$',
{
    reveal_strlit("$base");
    reveal_strlit("$type");
    reveal_strlit("$value");
    reveal_strlit("$instances");
    assert("$base"@[1] == 'b' && "$type"@[1] == 't' && "$value"@[1] == 'v' && "$instances"@[1] == 'i');
}

/// The head entries of a record's map, and the fields behind them.
proof fn lemma_record(
    name: Seq<char>,
    head: Seq<(Seq<char>, NodeV)>,
    fields: Seq<(Seq<char>, NodeV)>,
    source: Seq<char>,
    st: StateV,
)
    requires
        plain_fields(fields),
        head.len() == 1 || head.len() == 2,
        forall|i: int| 0 <= i < head.len() ==> (#[trigger] head[i]).1.kind is Scalar && (head[i].0
            == "$base"@ || head[i].0 == "$type"@),
        head.len() == 2 ==> head[0].0 == "$base"@ && head[1].0 == "$type"@,
    ensures
        ({
            let es = head + fields;
            let n = map_node(es);
            let makes = if head.len() == 2 {
                seq![
                    OpV::Clone { record: name, base: head[0].1.kind->Scalar_0 },
                    OpV::Create { record: name, class: head[1].1.kind->Scalar_0 },
                ]
            } else if head[0].0 == "$base"@ {
                seq![OpV::Clone { record: name, base: head[0].1.kind->Scalar_0 }]
            } else {
                seq![OpV::Create { record: name, class: head[0].1.kind->Scalar_0 }]
            };
            record_ops(name, n, es, source, st) == and_then(st, makes + field_edits(name, fields))
        }),
{
    let es = head + fields;
    let n = map_node(es);
    lemma_reserved_words();
    assert forall|k: int| head.len() <= k < es.len() implies (#[trigger] es[k]).1.kind is Scalar
        && !(es[k].0.len() > 0 && es[k].0[0] == '$') by {
        assert(es[k] == fields[k - head.len()]);
    }
    lemma_key_absent(es, "$base"@, head.len() as int);
    lemma_key_absent(es, "$type"@, head.len() as int);
    lemma_key_absent(es, "$instances"@, head.len() as int);
    reveal_with_fuel(key_index, 4);
    assert(es[0] == head[0]);
    if head.len() == 2 {
        assert(es[1] == head[1]);
    }
    assert(n.get("$instances"@) is None);
    let makes = if head.len() == 2 {
        seq![
            OpV::Clone { record: name, base: head[0].1.kind->Scalar_0 },
            OpV::Create { record: name, class: head[1].1.kind->Scalar_0 },
        ]
    } else if head[0].0 == "$base"@ {
        seq![OpV::Clone { record: name, base: head[0].1.kind->Scalar_0 }]
    } else {
        seq![OpV::Create { record: name, class: head[0].1.kind->Scalar_0 }]
    };
    let next = StateV { ops: st.ops + makes, numbered: st.numbered };
    let done = made(name, n, st);
    assert(done is Ok);
    assert(done->Ok_0.ops =~= next.ops);
    assert(done == Ok::<StateV, Seq<char>>(next));
    lemma_fields(name, es, head.len() as int, source, next);
    assert(es.skip(head.len() as int) =~= fields);
    reveal_with_fuel(property_ops, 3);
    assert(property_ops(name, es, 0, source, next) == property_ops(
        name,
        es,
        head.len() as int,
        source,
        next,
    ));
    assert(next.ops + field_edits(name, fields) =~= st.ops + (makes + field_edits(name, fields)));
}

/// A record is cloned from its `$base` or created of its `$type`, under the name of
/// its entry, and then every field is assigned, in order, to the record's name, a
/// dot, and the field's key.
pub proof fn records_are_made_and_filled(
    name: Seq<char>,
    base: Seq<char>,
    class: Seq<char>,
    fields: Seq<(Seq<char>, NodeV)>,
    source: Seq<char>,
    st: StateV,
)
    requires
        plain_fields(fields),
    ensures
        entry_ops(
            name,
            map_node(seq![("$base"@, scalar_node(base))] + fields),
            true,
            source,
            st,
        ) == and_then(st, seq![OpV::Clone { record: name, base }] + field_edits(name, fields)),
        entry_ops(
            name,
            map_node(seq![("$type"@, scalar_node(class))] + fields),
            true,
            source,
            st,
        ) == and_then(st, seq![OpV::Create { record: name, class }] + field_edits(name, fields)),
        entry_ops(
            name,
            map_node(
                seq![("$base"@, scalar_node(base)), ("$type"@, scalar_node(class))] + fields,
            ),
            true,
            source,
            st,
        ) == and_then(
            st,
            seq![OpV::Clone { record: name, base }, OpV::Create { record: name, class }]
                + field_edits(name, fields),
        ),
{
    lemma_reserved_words();
    let a = seq![("$base"@, scalar_node(base))];
    let b = seq![("$type"@, scalar_node(class))];
    let c = seq![("$base"@, scalar_node(base)), ("$type"@, scalar_node(class))];
    lemma_record(name, a, fields, source, st);
    lemma_record(name, b, fields, source, st);
    lemma_record(name, c, fields, source, st);
    assert((a + fields)[0] == a[0]);
    assert((b + fields)[0] == b[0]);
    assert((c + fields)[0] == c[0]);
    reveal_with_fuel(key_index, 2);
    assert(lookup(a + fields, "$base"@) == Some(scalar_node(base)));
    assert(lookup(b + fields, "$type"@) == Some(scalar_node(class)));
    assert(lookup(c + fields, "$base"@) == Some(scalar_node(base)));
}

/// Without `$base` and `$type` nothing is made: the fields of a top-level entry are
/// only assigned.
pub proof fn fields_alone_are_assigned(name: Seq<char>, fields: Seq<(Seq<char>, NodeV)>, source: Seq<char>, st: StateV)
    requires
        plain_fields(fields),
    ensures
        entry_ops(name, map_node(fields), true, source, st) == and_then(
            st,
            field_edits(name, fields),
        ),
{
    lemma_reserved_words();
    lemma_key_absent(fields, "$base"@, 0);
    lemma_key_absent(fields, "$type"@, 0);
    lemma_fields(name, fields, 0, source, st);
    assert(fields.skip(0) =~= fields);
}

/// A map inside a record that is no structure and has no `$value` is a deeper path:
/// its fields are assigned behind one more dot.
pub proof fn deeper_maps_are_deeper_paths(path: Seq<char>, fields: Seq<(Seq<char>, NodeV)>, source: Seq<char>, st: StateV)
    requires
        plain_fields(fields),
        structure(fields) is None,
    ensures
        entry_ops(path, map_node(fields), false, source, st) == and_then(
            st,
            field_edits(path, fields),
        ),
{
    lemma_reserved_words();
    lemma_key_absent(fields, "$base"@, 0);
    lemma_key_absent(fields, "$type"@, 0);
    lemma_key_absent(fields, "$value"@, 0);
    lemma_fields(path, fields, 0, source, st);
    assert(fields.skip(0) =~= fields);
}

/// A map inside a record with a `$value` is that value.
pub proof fn wrapped_values_are_assigned(path: Seq<char>, v: Seq<char>, rest: Seq<(Seq<char>, NodeV)>, source: Seq<char>, st: StateV)
    requires
        plain_fields(rest),
    ensures
        entry_ops(
            path,
            map_node(seq![("$value"@, scalar_node(v))] + rest),
            false,
            source,
            st,
        ) == and_then(st, seq![OpV::Edit { flat: path, op: EditOpV::Assign(v) }]),
{
    let es = seq![("$value"@, scalar_node(v))] + rest;
    lemma_reserved_words();
    assert(es[0].0 == "$value"@);
    assert forall|k: int| 0 <= k < es.len() implies (#[trigger] es[k]).0 != "$base"@ && es[k].0 != "$type"@
        && es[k].0 != "$instances"@ by {
        if k > 0 {
            assert(es[k] == rest[k - 1]);
        }
    }
    lemma_key_absent(es, "$base"@, 0);
    lemma_key_absent(es, "$type"@, 0);
    lemma_key_absent(es, "$instances"@, 0);
    reveal_with_fuel(key_index, 2);
    assert(lookup(es, "$value"@) == Some(scalar_node(v)));
    assert(structure(es) is None) by {
        reveal_strlit("$value");
        reveal_strlit("x");
        reveal_strlit("y");
        reveal_strlit("z");
        reveal_strlit("i");
        reveal_strlit("j");
        reveal_strlit("k");
        reveal_strlit("r");
        reveal_strlit("pitch");
        reveal_strlit("yaw");
        reveal_strlit("roll");
        reveal_strlit("red");
        reveal_strlit("green");
        reveal_strlit("blue");
        reveal_strlit("alpha");
        assert("pitch"@[0] == 'p' && "yaw"@[0] == 'y' && "roll"@[0] == 'r' && "red"@[0] == 'r');
        assert("green"@[0] == 'g' && "blue"@[0] == 'b' && "alpha"@[0] == 'a');
        assert("$value"@[0] == '$');
        assert("x"@[0] == 'x' && "y"@[0] == 'y' && "z"@[0] == 'z' && "i"@[0] == 'i' && "j"@[0] == 'j'
            && "k"@[0] == 'k' && "r"@[0] == 'r');
    }
    assert(st.ops.push(OpV::Edit { flat: path, op: EditOpV::Assign(v) }) =~= st.ops + seq![
        OpV::Edit { flat: path, op: EditOpV::Assign(v) },
    ]);
}

// ---- structures ------------------------------------------------------------

proof fn lemma_struct_words()
    ensures
        "x"@.len() == 1 && "x"@[0] == 'x',
        "y"@.len() == 1 && "y"@[0] == 'y',
        "z"@.len() == 1 && "z"@[0] == 'z',
        "i"@.len() == 1 && "i"@[0] == 'i',
        "j"@.len() == 1 && "j"@[0] == 'j',
        "k"@.len() == 1 && "k"@[0] == 'k',
        "r"@.len() == 1 && "r"@[0] == 'r',
        "pitch"@.len() == 5 && "pitch"@[0] == 'p',
        "yaw"@.len() == 3 && "yaw"@[0] == 'y',
        "roll"@.len() == 4 && "roll"@[0] == 'r',
        "red"@.len() == 3 && "red"@[0] == 'r',
        "green"@.len() == 5 && "green"@[0] == 'g',
        "blue"@.len() == 4 && "blue"@[0] == 'b',
        "alpha"@.len() == 5 && "alpha"@[0] == 'a',
{
    reveal_strlit("x");
    reveal_strlit("y");
    reveal_strlit("z");
    reveal_strlit("i");
    reveal_strlit("j");
    reveal_strlit("k");
    reveal_strlit("r");
    reveal_strlit("pitch");
    reveal_strlit("yaw");
    reveal_strlit("roll");
    reveal_strlit("red");
    reveal_strlit("green");
    reveal_strlit("blue");
    reveal_strlit("alpha");
}

proof fn lemma_key_there(es: Seq<(Seq<char>, NodeV)>, key: Seq<char>, i: int)
    requires
        0 <= i <= es.len(),
        key_index(es, key, i) < es.len(),
    ensures
        i <= key_index(es, key, i),
        es[key_index(es, key, i)].0 == key,
    decreases es.len() - i,
{
    if i < es.len() && es[i].0 != key {
        lemma_key_there(es, key, i + 1);
    }
}

/// A map of `x` and `y`, in whatever order, is assigned as `x,y`.
pub proof fn vectors_of_two(
    path: Seq<char>,
    es: Seq<(Seq<char>, NodeV)>,
    v0: Seq<char>, v1: Seq<char>,
    source: Seq<char>,
    st: StateV,
)
    requires
        forall|i: int| 0 <= i < es.len() ==> (#[trigger] es[i]).0.len() > 0 && (es[i].0 == "x"@ || es[i].0 == "y"@),
        lookup(es, "x"@) is Some && (lookup(es, "x"@)->0).kind == KindV::Scalar(v0),
        lookup(es, "y"@) is Some && (lookup(es, "y"@)->0).kind == KindV::Scalar(v1),
    ensures
        entry_ops(path, map_node(es), false, source, st) == and_then(
            st,
            seq![OpV::Edit { flat: path, op: EditOpV::Assign(v0 + ","@ + v1) }],
        ),
{
    lemma_struct_words();
    lemma_reserved_words();
    let names = seq!["x"@, "y"@];
    assert(names[0] == "x"@);
    assert(names[1] == "y"@);
    lemma_key_there(es, "x"@, 0);
    lemma_key_there(es, "y"@, 0);
    lemma_key_absent(es, "$base"@, 0);
    lemma_key_absent(es, "$type"@, 0);
    assert forall|i: int| 0 <= i < es.len() implies names.contains((#[trigger] es[i]).0) by {
        if es[i].0 == "x"@ {assert(names[0] == es[i].0);}
        if es[i].0 == "y"@ {assert(names[1] == es[i].0);}
    }
    assert(keys_are(es, names));
    let f = |k: Seq<char>| (lookup(es, k)->0).as_str()->0;
    assert(names.map_values(f) =~= seq![v0, v1]);
    assert(seq![v0, v1].drop_last() =~= seq![v0]);
    reveal_with_fuel(joined, 6);
    assert(positional(es, names) == Some(v0 + ","@ + v1));
    assert(structure(es) == Some(v0 + ","@ + v1));
    assert(st.ops.push(OpV::Edit { flat: path, op: EditOpV::Assign(v0 + ","@ + v1) }) =~= st.ops + seq![
        OpV::Edit { flat: path, op: EditOpV::Assign(v0 + ","@ + v1) },
    ]);
}

/// A map of `x`, `y` and `z`, in whatever order, is assigned as `x,y,z`.
pub proof fn vectors_of_three(
    path: Seq<char>,
    es: Seq<(Seq<char>, NodeV)>,
    v0: Seq<char>, v1: Seq<char>, v2: Seq<char>,
    source: Seq<char>,
    st: StateV,
)
    requires
        forall|i: int| 0 <= i < es.len() ==> (#[trigger] es[i]).0.len() > 0 && (es[i].0 == "x"@ || es[i].0 == "y"@ || es[i].0 == "z"@),
        lookup(es, "x"@) is Some && (lookup(es, "x"@)->0).kind == KindV::Scalar(v0),
        lookup(es, "y"@) is Some && (lookup(es, "y"@)->0).kind == KindV::Scalar(v1),
        lookup(es, "z"@) is Some && (lookup(es, "z"@)->0).kind == KindV::Scalar(v2),
    ensures
        entry_ops(path, map_node(es), false, source, st) == and_then(
            st,
            seq![OpV::Edit { flat: path, op: EditOpV::Assign(v0 + ","@ + v1 + ","@ + v2) }],
        ),
{
    lemma_struct_words();
    lemma_reserved_words();
    let names = seq!["x"@, "y"@, "z"@];
    assert(names[0] == "x"@);
    assert(names[1] == "y"@);
    assert(names[2] == "z"@);
    lemma_key_there(es, "x"@, 0);
    lemma_key_there(es, "y"@, 0);
    lemma_key_there(es, "z"@, 0);
    lemma_key_absent(es, "$base"@, 0);
    lemma_key_absent(es, "$type"@, 0);
    assert forall|i: int| 0 <= i < es.len() implies names.contains((#[trigger] es[i]).0) by {
        if es[i].0 == "x"@ {assert(names[0] == es[i].0);}
        if es[i].0 == "y"@ {assert(names[1] == es[i].0);}
        if es[i].0 == "z"@ {assert(names[2] == es[i].0);}
    }
    assert(keys_are(es, names));
    let f = |k: Seq<char>| (lookup(es, k)->0).as_str()->0;
    assert(names.map_values(f) =~= seq![v0, v1, v2]);
    assert(seq![v0, v1, v2].drop_last() =~= seq![v0, v1]);
    assert(seq![v0, v1].drop_last() =~= seq![v0]);
    reveal_with_fuel(joined, 6);
    assert(positional(es, names) == Some(v0 + ","@ + v1 + ","@ + v2));
    assert(structure(es) == Some(v0 + ","@ + v1 + ","@ + v2));
    assert(st.ops.push(OpV::Edit { flat: path, op: EditOpV::Assign(v0 + ","@ + v1 + ","@ + v2) }) =~= st.ops + seq![
        OpV::Edit { flat: path, op: EditOpV::Assign(v0 + ","@ + v1 + ","@ + v2) },
    ]);
}

/// A map of `i`, `j`, `k` and `r`, in whatever order, is assigned as `i,j,k,r`.
pub proof fn quaternions(
    path: Seq<char>,
    es: Seq<(Seq<char>, NodeV)>,
    v0: Seq<char>, v1: Seq<char>, v2: Seq<char>, v3: Seq<char>,
    source: Seq<char>,
    st: StateV,
)
    requires
        forall|i: int| 0 <= i < es.len() ==> (#[trigger] es[i]).0.len() > 0 && (es[i].0 == "i"@ || es[i].0 == "j"@ || es[i].0 == "k"@ || es[i].0 == "r"@),
        lookup(es, "i"@) is Some && (lookup(es, "i"@)->0).kind == KindV::Scalar(v0),
        lookup(es, "j"@) is Some && (lookup(es, "j"@)->0).kind == KindV::Scalar(v1),
        lookup(es, "k"@) is Some && (lookup(es, "k"@)->0).kind == KindV::Scalar(v2),
        lookup(es, "r"@) is Some && (lookup(es, "r"@)->0).kind == KindV::Scalar(v3),
    ensures
        entry_ops(path, map_node(es), false, source, st) == and_then(
            st,
            seq![OpV::Edit { flat: path, op: EditOpV::Assign(v0 + ","@ + v1 + ","@ + v2 + ","@ + v3) }],
        ),
{
    lemma_struct_words();
    lemma_reserved_words();
    let names = seq!["i"@, "j"@, "k"@, "r"@];
    assert(names[0] == "i"@);
    assert(names[1] == "j"@);
    assert(names[2] == "k"@);
    assert(names[3] == "r"@);
    lemma_key_there(es, "i"@, 0);
    lemma_key_there(es, "j"@, 0);
    lemma_key_there(es, "k"@, 0);
    lemma_key_there(es, "r"@, 0);
    lemma_key_absent(es, "$base"@, 0);
    lemma_key_absent(es, "$type"@, 0);
    assert forall|i: int| 0 <= i < es.len() implies names.contains((#[trigger] es[i]).0) by {
        if es[i].0 == "i"@ {assert(names[0] == es[i].0);}
        if es[i].0 == "j"@ {assert(names[1] == es[i].0);}
        if es[i].0 == "k"@ {assert(names[2] == es[i].0);}
        if es[i].0 == "r"@ {assert(names[3] == es[i].0);}
    }
    assert(keys_are(es, names));
    let f = |k: Seq<char>| (lookup(es, k)->0).as_str()->0;
    assert(names.map_values(f) =~= seq![v0, v1, v2, v3]);
    assert(seq![v0, v1, v2, v3].drop_last() =~= seq![v0, v1, v2]);
    assert(seq![v0, v1, v2].drop_last() =~= seq![v0, v1]);
    assert(seq![v0, v1].drop_last() =~= seq![v0]);
    reveal_with_fuel(joined, 6);
    assert(positional(es, names) == Some(v0 + ","@ + v1 + ","@ + v2 + ","@ + v3));
    assert(structure(es) == Some(v0 + ","@ + v1 + ","@ + v2 + ","@ + v3));
    assert(st.ops.push(OpV::Edit { flat: path, op: EditOpV::Assign(v0 + ","@ + v1 + ","@ + v2 + ","@ + v3) }) =~= st.ops + seq![
        OpV::Edit { flat: path, op: EditOpV::Assign(v0 + ","@ + v1 + ","@ + v2 + ","@ + v3) },
    ]);
}

/// A map of `pitch`, `yaw` and `roll`, in whatever order, is assigned as
/// `pitch,yaw,roll`.
pub proof fn angles(
    path: Seq<char>,
    es: Seq<(Seq<char>, NodeV)>,
    v0: Seq<char>, v1: Seq<char>, v2: Seq<char>,
    source: Seq<char>,
    st: StateV,
)
    requires
        forall|i: int| 0 <= i < es.len() ==> (#[trigger] es[i]).0.len() > 0 && (es[i].0 == "pitch"@ || es[i].0 == "yaw"@ || es[i].0 == "roll"@),
        lookup(es, "pitch"@) is Some && (lookup(es, "pitch"@)->0).kind == KindV::Scalar(v0),
        lookup(es, "yaw"@) is Some && (lookup(es, "yaw"@)->0).kind == KindV::Scalar(v1),
        lookup(es, "roll"@) is Some && (lookup(es, "roll"@)->0).kind == KindV::Scalar(v2),
    ensures
        entry_ops(path, map_node(es), false, source, st) == and_then(
            st,
            seq![OpV::Edit { flat: path, op: EditOpV::Assign(v0 + ","@ + v1 + ","@ + v2) }],
        ),
{
    lemma_struct_words();
    lemma_reserved_words();
    let names = seq!["pitch"@, "yaw"@, "roll"@];
    assert(names[0] == "pitch"@);
    assert(names[1] == "yaw"@);
    assert(names[2] == "roll"@);
    lemma_key_there(es, "pitch"@, 0);
    lemma_key_there(es, "yaw"@, 0);
    lemma_key_there(es, "roll"@, 0);
    lemma_key_absent(es, "$base"@, 0);
    lemma_key_absent(es, "$type"@, 0);
    assert forall|i: int| 0 <= i < es.len() implies names.contains((#[trigger] es[i]).0) by {
        if es[i].0 == "pitch"@ {assert(names[0] == es[i].0);}
        if es[i].0 == "yaw"@ {assert(names[1] == es[i].0);}
        if es[i].0 == "roll"@ {assert(names[2] == es[i].0);}
    }
    assert(keys_are(es, names));
    let f = |k: Seq<char>| (lookup(es, k)->0).as_str()->0;
    assert(names.map_values(f) =~= seq![v0, v1, v2]);
    assert(seq![v0, v1, v2].drop_last() =~= seq![v0, v1]);
    assert(seq![v0, v1].drop_last() =~= seq![v0]);
    reveal_with_fuel(joined, 6);
    assert(positional(es, names) == Some(v0 + ","@ + v1 + ","@ + v2));
    assert(structure(es) == Some(v0 + ","@ + v1 + ","@ + v2));
    assert(st.ops.push(OpV::Edit { flat: path, op: EditOpV::Assign(v0 + ","@ + v1 + ","@ + v2) }) =~= st.ops + seq![
        OpV::Edit { flat: path, op: EditOpV::Assign(v0 + ","@ + v1 + ","@ + v2) },
    ]);
}

/// A map of `red`, `green`, `blue` and `alpha`, in whatever order, is assigned as
/// `red,green,blue,alpha`.
pub proof fn colours(
    path: Seq<char>,
    es: Seq<(Seq<char>, NodeV)>,
    v0: Seq<char>, v1: Seq<char>, v2: Seq<char>, v3: Seq<char>,
    source: Seq<char>,
    st: StateV,
)
    requires
        forall|i: int| 0 <= i < es.len() ==> (#[trigger] es[i]).0.len() > 0 && (es[i].0 == "red"@ || es[i].0 == "green"@ || es[i].0 == "blue"@ || es[i].0 == "alpha"@),
        lookup(es, "red"@) is Some && (lookup(es, "red"@)->0).kind == KindV::Scalar(v0),
        lookup(es, "green"@) is Some && (lookup(es, "green"@)->0).kind == KindV::Scalar(v1),
        lookup(es, "blue"@) is Some && (lookup(es, "blue"@)->0).kind == KindV::Scalar(v2),
        lookup(es, "alpha"@) is Some && (lookup(es, "alpha"@)->0).kind == KindV::Scalar(v3),
    ensures
        entry_ops(path, map_node(es), false, source, st) == and_then(
            st,
            seq![OpV::Edit { flat: path, op: EditOpV::Assign(v0 + ","@ + v1 + ","@ + v2 + ","@ + v3) }],
        ),
{
    lemma_struct_words();
    lemma_reserved_words();
    let names = seq!["red"@, "green"@, "blue"@, "alpha"@];
    assert(names[0] == "red"@);
    assert(names[1] == "green"@);
    assert(names[2] == "blue"@);
    assert(names[3] == "alpha"@);
    lemma_key_there(es, "red"@, 0);
    lemma_key_there(es, "green"@, 0);
    lemma_key_there(es, "blue"@, 0);
    lemma_key_there(es, "alpha"@, 0);
    lemma_key_absent(es, "$base"@, 0);
    lemma_key_absent(es, "$type"@, 0);
    assert forall|i: int| 0 <= i < es.len() implies names.contains((#[trigger] es[i]).0) by {
        if es[i].0 == "red"@ {assert(names[0] == es[i].0);}
        if es[i].0 == "green"@ {assert(names[1] == es[i].0);}
        if es[i].0 == "blue"@ {assert(names[2] == es[i].0);}
        if es[i].0 == "alpha"@ {assert(names[3] == es[i].0);}
    }
    assert(keys_are(es, names));
    let f = |k: Seq<char>| (lookup(es, k)->0).as_str()->0;
    assert(names.map_values(f) =~= seq![v0, v1, v2, v3]);
    assert(seq![v0, v1, v2, v3].drop_last() =~= seq![v0, v1, v2]);
    assert(seq![v0, v1, v2].drop_last() =~= seq![v0, v1]);
    assert(seq![v0, v1].drop_last() =~= seq![v0]);
    reveal_with_fuel(joined, 6);
    assert(positional(es, names) == Some(v0 + ","@ + v1 + ","@ + v2 + ","@ + v3));
    assert(structure(es) == Some(v0 + ","@ + v1 + ","@ + v2 + ","@ + v3));
    assert(st.ops.push(OpV::Edit { flat: path, op: EditOpV::Assign(v0 + ","@ + v1 + ","@ + v2 + ","@ + v3) }) =~= st.ops + seq![
        OpV::Edit { flat: path, op: EditOpV::Assign(v0 + ","@ + v1 + ","@ + v2 + ","@ + v3) },
    ]);
}

// ---- inline records --------------------------------------------------------

/// A record inside another is made under a name of its own, which starts with the
/// path of the flat and a dollar sign; its fields are assigned under that name, and
/// then the flat is assigned the name.
pub proof fn inline_records_are_made_and_referred_to(
    path: Seq<char>,
    class: Seq<char>,
    base: Seq<char>,
    fields: Seq<(Seq<char>, NodeV)>,
    source: Seq<char>,
    st: StateV,
)
    requires
        plain_fields(fields),
    ensures
        ({
            let name = inline_name(path, source + "|"@ + path + "|"@ + class);
            &&& name.take(path.len() as int + 1) == path + "$"@
            &&& name.len() == path.len() + 9
            &&& entry_ops(
                path,
                map_node(seq![("$type"@, scalar_node(class))] + fields),
                false,
                source,
                st,
            ) == and_then(
                st,
                seq![OpV::Create { record: name, class }] + field_edits(name, fields) + seq![
                    OpV::Edit { flat: path, op: EditOpV::Assign(name) },
                ],
            )
        }),
        ({
            let name = inline_name(path, source + "|"@ + path + "|"@ + base);
            entry_ops(
                path,
                map_node(seq![("$base"@, scalar_node(base))] + fields),
                false,
                source,
                st,
            ) == and_then(
                st,
                seq![OpV::Clone { record: name, base }] + field_edits(name, fields) + seq![
                    OpV::Edit { flat: path, op: EditOpV::Assign(name) },
                ],
            )
        }),
{
    lemma_inline(path, "$type"@, class, fields, source, st);
    lemma_inline(path, "$base"@, base, fields, source, st);
    let name = inline_name(path, source + "|"@ + path + "|"@ + class);
    lemma_reserved_words();
    reveal_strlit("$");
    lemma_hex_len(crate::tweak_laws::hash_in(source + "|"@ + path + "|"@ + class), 8);
    assert(name.take(path.len() as int + 1) =~= path + "$"@);
}

pub open spec fn hash_in(key: Seq<char>) -> nat {
    crate::tweakxl::name_hash(key) as nat
}

proof fn lemma_hex_len(n: nat, width: nat)
    ensures
        crate::text::hex_upper(n, width).len() == width,
    decreases width,
{
    if width > 0 {
        lemma_hex_len(n / 16, (width - 1) as nat);
    }
}

proof fn lemma_inline(
    path: Seq<char>,
    key: Seq<char>,
    kind: Seq<char>,
    fields: Seq<(Seq<char>, NodeV)>,
    source: Seq<char>,
    st: StateV,
)
    requires
        plain_fields(fields),
        key == "$type"@ || key == "$base"@,
    ensures
        ({
            let name = inline_name(path, source + "|"@ + path + "|"@ + kind);
            let first = if key == "$type"@ {
                OpV::Create { record: name, class: kind }
            } else {
                OpV::Clone { record: name, base: kind }
            };
            entry_ops(path, map_node(seq![(key, scalar_node(kind))] + fields), false, source, st)
                == and_then(
                st,
                seq![first] + field_edits(name, fields) + seq![
                    OpV::Edit { flat: path, op: EditOpV::Assign(name) },
                ],
            )
        }),
{
    let name = inline_name(path, source + "|"@ + path + "|"@ + kind);
    let head = seq![(key, scalar_node(kind))];
    let es = head + fields;
    let n = map_node(es);
    lemma_reserved_words();
    lemma_record(name, head, fields, source, st);
    assert(es[0] == head[0]);
    assert forall|k: int| 1 <= k < es.len() implies (#[trigger] es[k]).0 != "$base"@ && es[k].0
        != "$type"@ by {
        assert(es[k] == fields[k - 1]);
    }
    lemma_key_absent(es, "$base"@, 1);
    lemma_key_absent(es, "$type"@, 1);
    reveal_with_fuel(key_index, 2);
    assert(text_of(n, key) == Some(kind));
    assert(named_inline(source, path, kind, None, st) == (name, st));
    let first = if key == "$type"@ {
        OpV::Create { record: name, class: kind }
    } else {
        OpV::Clone { record: name, base: kind }
    };
    let last = OpV::Edit { flat: path, op: EditOpV::Assign(name) };
    assert((st.ops + (seq![first] + field_edits(name, fields))).push(last) =~= st.ops + (seq![first]
        + field_edits(name, fields) + seq![last]));
}

// ---- whole documents -------------------------------------------------------

/// A document stands for the operations of its entries, one after another: an entry
/// more adds its own, and an error in it is an error of the document.
pub proof fn documents_are_their_entries(
    es: Seq<(Seq<char>, NodeV)>,
    key: Seq<char>,
    n: NodeV,
    source: Seq<char>,
)
    ensures
        interpreted(map_node(Seq::empty()), source) == Ok::<Seq<OpV>, Seq<char>>(Seq::empty()),
        interpreted(map_node(seq![(key, n)]), source) == (match entry_ops(
            key,
            n,
            true,
            source,
            StateV { ops: Seq::empty(), numbered: Seq::empty() },
        ) {
            Ok(st) => Ok(st.ops),
            Err(e) => Err(e),
        }),
        document_ops(
            es.push((key, n)),
            0,
            source,
            StateV { ops: Seq::empty(), numbered: Seq::empty() },
        ) == (match document_ops(
            es,
            0,
            source,
            StateV { ops: Seq::empty(), numbered: Seq::empty() },
        ) {
            Ok(st) => entry_ops(key, n, true, source, st),
            Err(e) => Err(e),
        }),
{
    let none = StateV { ops: Seq::empty(), numbered: Seq::empty() };
    lemma_document_push(es, key, n, 0, source, none);
    lemma_document_push(Seq::empty(), key, n, 0, source, none);
    assert(Seq::<(Seq<char>, NodeV)>::empty().push((key, n)) =~= seq![(key, n)]);
}

proof fn lemma_document_push(
    es: Seq<(Seq<char>, NodeV)>,
    key: Seq<char>,
    n: NodeV,
    i: int,
    source: Seq<char>,
    st: StateV,
)
    requires
        0 <= i <= es.len(),
    ensures
        document_ops(es.push((key, n)), i, source, st) == (match document_ops(es, i, source, st) {
            Ok(next) => entry_ops(key, n, true, source, next),
            Err(e) => Err(e),
        }),
    decreases es.len() - i,
{
    let all = es.push((key, n));
    if i < es.len() {
        assert(all[i] == es[i]);
        match entry_ops(es[i].0, es[i].1, true, source, st) {
            Ok(next) => {
                lemma_document_push(es, key, n, i + 1, source, next);
            },
            Err(_) => {},
        }
    } else {
        assert(all[i] == (key, n));
        reveal_with_fuel(document_ops, 3);
        match entry_ops(key, n, true, source, st) {
            Ok(_) => {},
            Err(_) => {},
        }
    }
}

/// A record stands for the operations of its fields, one after another, each at the
/// record's name, a dot, and its key, whatever the field holds.
pub proof fn records_are_their_fields(
    name: Seq<char>,
    es: Seq<(Seq<char>, NodeV)>,
    key: Seq<char>,
    n: NodeV,
    source: Seq<char>,
    st: StateV,
)
    requires
        key.len() == 0 || key[0] != '$',
        lookup(es, "$base"@) is Some || lookup(es, "$type"@) is Some,
    ensures
        entry_ops(name, map_node(es.push((key, n))), true, source, st) == (match entry_ops(
            name,
            map_node(es),
            true,
            source,
            st,
        ) {
            Ok(next) => entry_ops(name + "."@ + key, n, false, source, next),
            Err(e) => Err(e),
        }),
{
    lemma_reserved_words();
    let all = es.push((key, n));
    lemma_push_key(es, (key, n), "$base"@, 0);
    lemma_push_key(es, (key, n), "$type"@, 0);
    lemma_push_key(es, (key, n), "$instances"@, 0);
    assert(made(name, map_node(all), st) == made(name, map_node(es), st));
    match made(name, map_node(es), st) {
        Ok(next) => {
            lemma_property_push(name, es, key, n, 0, source, next);
        },
        Err(_) => {},
    }
}

proof fn lemma_push_key(es: Seq<(Seq<char>, NodeV)>, e: (Seq<char>, NodeV), key: Seq<char>, i: int)
    requires
        0 <= i <= es.len(),
        e.0 != key,
    ensures
        key_index(es, key, i) < es.len() ==> key_index(es.push(e), key, i) == key_index(es, key, i)
            && key_index(es, key, i) >= i,
        key_index(es, key, i) >= es.len() ==> key_index(es.push(e), key, i) == es.len() + 1,
        lookup(es.push(e), key) == lookup(es, key) || i > 0,
    decreases es.len() - i,
{
    let all = es.push(e);
    if i < es.len() {
        assert(all[i] == es[i]);
        lemma_push_key(es, e, key, i + 1);
    } else {
        assert(all[i] == e);
        reveal_with_fuel(key_index, 3);
    }
}

proof fn lemma_property_push(
    name: Seq<char>,
    es: Seq<(Seq<char>, NodeV)>,
    key: Seq<char>,
    n: NodeV,
    i: int,
    source: Seq<char>,
    st: StateV,
)
    requires
        0 <= i <= es.len(),
        key.len() == 0 || key[0] != '$',
    ensures
        property_ops(name, es.push((key, n)), i, source, st) == (match property_ops(
            name,
            es,
            i,
            source,
            st,
        ) {
            Ok(next) => entry_ops(dotted(name, key), n, false, source, next),
            Err(e) => Err(e),
        }),
    decreases es.len() - i,
{
    let all = es.push((key, n));
    if i < es.len() {
        assert(all[i] == es[i]);
        if crate::tweakxl::reserved(es[i].0) {
            lemma_property_push(name, es, key, n, i + 1, source, st);
        } else {
            match entry_ops(dotted(name, es[i].0), es[i].1, false, source, st) {
                Ok(next) => {
                    lemma_property_push(name, es, key, n, i + 1, source, next);
                },
                Err(_) => {},
            }
        }
    } else {
        assert(all[i] == (key, n));
        match entry_ops(dotted(name, key), n, false, source, st) {
            Ok(next) => {
                assert(property_ops(name, all, i + 1, source, next) == Ok::<StateV, Seq<char>>(next));
            },
            Err(_) => {},
        }
    }
}

/// An item of a list that is a record is made like any other inline record, and its
/// name takes its place: behind `!append` and its kin it is the name that is added.
pub proof fn records_in_lists_are_named(
    path: Seq<char>,
    tag: Option<Seq<char>>,
    class: Seq<char>,
    fields: Seq<(Seq<char>, NodeV)>,
    source: Seq<char>,
    st: StateV,
)
    requires
        plain_fields(fields),
        tag is Some ==> array_tag(tag->0),
    ensures
        ({
            let n = NodeV {
                tag,
                kind: KindV::Table(seq![("$type"@, scalar_node(class))] + fields),
            };
            let (name, next) = named_inline(source, path, class, Some(0), st);
            let r = entry_ops(path, list_node(seq![n]), false, source, st);
            let makes = seq![OpV::Create { record: name, class }] + field_edits(name, fields);
            &&& r is Ok
            &&& r->Ok_0.numbered == next.numbered
            &&& tag is None ==> r->Ok_0.ops == st.ops + makes + seq![
                OpV::Edit { flat: path, op: EditOpV::Assign("["@ + name + "]"@) },
            ]
            &&& tag == Some("!append"@) ==> r->Ok_0.ops == st.ops + makes + seq![
                OpV::Edit { flat: path, op: EditOpV::Append(name) },
            ]
            &&& tag == Some("!prepend"@) ==> r->Ok_0.ops == st.ops + makes + seq![
                OpV::Edit { flat: path, op: EditOpV::Prepend(name) },
            ]
        }),
{
    let es = seq![("$type"@, scalar_node(class))] + fields;
    let n = NodeV { tag, kind: KindV::Table(es) };
    let (name, next) = named_inline(source, path, class, Some(0), st);
    let makes = seq![OpV::Create { record: name, class }] + field_edits(name, fields);
    let done = StateV { ops: st.ops + makes, numbered: next.numbered };
    let x = NodeV { tag, kind: KindV::Scalar(name) };
    lemma_one_record(path, tag, class, fields, source, st);
    if tag is None {
        assert(!any_tagged(seq![x]));
        assert(all_scalar(seq![x]));
        let f = |y: NodeV| y.as_str()->0;
        assert(seq![x].map_values(f) =~= seq![name]);
        assert(joined(seq![name], ", "@) =~= name);
        let op = OpV::Edit { flat: path, op: EditOpV::Assign("["@ + name + "]"@) };
        assert(list_text(seq![x]) =~= "["@ + name + "]"@);
        assert((st.ops + makes).push(op) =~= st.ops + makes + seq![op]);
    } else {
        assert(seq![x][0] == x);
        assert(any_tagged(seq![x]));
        lemma_tags(tag->0, name);
        let op = OpV::Edit { flat: path, op: edit_for(tag->0, name)->0 };
        assert(tagged_ops(path, seq![x], 1, done.emit(op)) == Ok::<StateV, Seq<char>>(
            done.emit(op),
        ));
        assert((st.ops + makes).push(op) =~= st.ops + makes + seq![op]);
    }
}

proof fn lemma_item_record(
    path: Seq<char>,
    tag: Option<Seq<char>>,
    class: Seq<char>,
    fields: Seq<(Seq<char>, NodeV)>,
    source: Seq<char>,
    st: StateV,
)
    requires
        plain_fields(fields),
    ensures
        ({
            let es = seq![("$type"@, scalar_node(class))] + fields;
            let n = NodeV { tag, kind: KindV::Table(es) };
            let (name, next) = named_inline(source, path, class, Some(0), st);
            let makes = seq![OpV::Create { record: name, class }] + field_edits(name, fields);
            &&& crate::tweakxl::is_record(n)
            &&& crate::tweakxl::inline_ops(path, n, es, Some(0), source, st) == Ok::<
                (Seq<char>, StateV),
                Seq<char>,
            >((name, StateV { ops: st.ops + makes, numbered: next.numbered }))
        }),
{
    let head = seq![("$type"@, scalar_node(class))];
    let es = head + fields;
    let n = NodeV { tag, kind: KindV::Table(es) };
    let (name, next) = named_inline(source, path, class, Some(0), st);
    lemma_reserved_words();
    assert(next.ops == st.ops);
    lemma_record(name, head, fields, source, next);
    assert(es[0] == head[0]);
    reveal_with_fuel(key_index, 2);
    assert(lookup(es, "$type"@) == Some(scalar_node(class)));
    let mn = map_node(es);
    assert(mn.get("$type"@) == n.get("$type"@) && mn.get("$base"@) == n.get("$base"@)
        && mn.get("$instances"@) == n.get("$instances"@));
    assert(made(name, n, next) == made(name, mn, next));
    assert(record_ops(name, n, es, source, next) == record_ops(name, mn, es, source, next));
    assert(text_of(n, "$type"@) == Some(class));
}

proof fn lemma_one_record(
    path: Seq<char>,
    tag: Option<Seq<char>>,
    class: Seq<char>,
    fields: Seq<(Seq<char>, NodeV)>,
    source: Seq<char>,
    st: StateV,
)
    requires
        plain_fields(fields),
    ensures
        ({
            let n = NodeV {
                tag,
                kind: KindV::Table(seq![("$type"@, scalar_node(class))] + fields),
            };
            let (name, next) = named_inline(source, path, class, Some(0), st);
            let makes = seq![OpV::Create { record: name, class }] + field_edits(name, fields);
            resolved_items(path, seq![n], 0, source, st) == Ok::<(Seq<NodeV>, StateV), Seq<char>>(
                (
                    seq![NodeV { tag, kind: KindV::Scalar(name) }],
                    StateV { ops: st.ops + makes, numbered: next.numbered },
                ),
            )
        }),
{
    let es = seq![("$type"@, scalar_node(class))] + fields;
    let n = NodeV { tag, kind: KindV::Table(es) };
    let (name, next) = named_inline(source, path, class, Some(0), st);
    let makes = seq![OpV::Create { record: name, class }] + field_edits(name, fields);
    let done = StateV { ops: st.ops + makes, numbered: next.numbered };
    lemma_item_record(path, tag, class, fields, source, st);
    let items = seq![n];
    assert(items[0] == n);
    let x = NodeV { tag, kind: KindV::Scalar(name) };
    assert(resolved_items(path, items, 1, source, done) == Ok::<(Seq<NodeV>, StateV), Seq<char>>(
        (Seq::empty(), done),
    ));
    assert(seq![x] + Seq::<NodeV>::empty() =~= seq![x]);
}

// ---- what is passed over and what is refused -------------------------------

/// The keys that name a game or an expansion are passed over in a nested table, and
/// every other key that starts with a dollar sign is an error there.
pub proof fn marks_of_games_are_passed_over(
    path: Seq<char>,
    es: Seq<(Seq<char>, NodeV)>,
    i: int,
    source: Seq<char>,
    st: StateV,
)
    requires
        0 <= i < es.len(),
    ensures
        es[i].0 == "$game"@ || es[i].0 == "$dlc"@ ==> nested_ops(path, es, i, source, st)
            == nested_ops(path, es, i + 1, source, st),
        es[i].0.len() > 0 && es[i].0[0] == '$' && es[i].0 != "$game"@ && es[i].0 != "$dlc"@
            ==> nested_ops(path, es, i, source, st) is Err,
{
}

/// A record is cloned from its base, then created in its class, and a base or a class
/// that is no name is an error; so are instances that were not expanded.
pub proof fn records_are_cloned_before_they_are_created(name: Seq<char>, n: NodeV, st: StateV, b: Seq<char>, c: Seq<char>)
    ensures
        n.get("$instances"@) is None && n.get("$base"@) == Some(scalar_node(b)) && n.get("$type"@)
            is None ==> made(name, n, st) is Ok && (made(name, n, st)->Ok_0).ops == st.ops.push(
            OpV::Clone { record: name, base: b },
        ),
        n.get("$instances"@) is None && n.get("$base"@) is None && n.get("$type"@) == Some(
            scalar_node(c),
        ) ==> made(name, n, st) is Ok && (made(name, n, st)->Ok_0).ops == st.ops.push(
            OpV::Create { record: name, class: c },
        ),
        n.get("$instances"@) is None && n.get("$base"@) == Some(scalar_node(b)) && n.get("$type"@)
            == Some(scalar_node(c)) ==> made(name, n, st) is Ok && (made(name, n, st)->Ok_0).ops
            == st.ops.push(OpV::Clone { record: name, base: b }).push(
            OpV::Create { record: name, class: c },
        ),
        n.get("$base"@) is Some && !((n.get("$base"@)->0).kind is Scalar) ==> made(name, n, st)
            is Err,
        n.get("$type"@) is Some && !((n.get("$type"@)->0).kind is Scalar) ==> made(name, n, st)
            is Err,
        n.get("$instances"@) is Some ==> made(name, n, st) is Err,
{
}

/// In a list of edits every item has its tag and is a text; one that is not is an
/// error, and the edits before it do not count.
pub proof fn edits_are_tagged_texts(path: Seq<char>, items: Seq<NodeV>, i: int, st: StateV)
    requires
        0 <= i < items.len(),
    ensures
        items[i].tag is None ==> tagged_ops(path, items, i, st) is Err,
        !(items[i].kind is Scalar) ==> tagged_ops(path, items, i, st) is Err,
{
}

} // verus!
