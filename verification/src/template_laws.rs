//! What a template becomes: its placeholders are replaced by the data of each
//! instance, and nothing else changes.
use vstd::prelude::*;

use crate::node::{key_index, lookup, scalar_node, KindV, NodeV};
use crate::template::{
    expanded_entries, expanded_entry, expanded_instances, extended, formatted, instance_value,
    instances_of, instantiated, processed, processed_entries, processed_items, sole_placeholder,
    stripped, without_key,
};
use crate::text::next_index;

verus! {

/// A tag that is given is the node's tag, in place of its own; without one the node
/// keeps its own. Nothing else of the node changes.
pub proof fn tags_are_given(n: NodeV, t: Seq<char>)
    ensures
        n.tagged(Some(t)).tag == Some(t),
        n.tagged(Some(t)).kind == n.kind,
        n.tagged(None) == n,
        scalar_node(t).tag is None,
        scalar_node(t).as_str() == Some(t),
{
}

/// The value of a key is that of the first entry with it.
pub proof fn the_first_entry_counts(es: Seq<(Seq<char>, NodeV)>, i: int, key: Seq<char>)
    ensures
        0 <= i < es.len() && es[i].0 == key && (forall|k: int|
            0 <= k < i ==> (#[trigger] es[k]).0 != key) ==> lookup(es, key) == Some(es[i].1),
        (forall|k: int| 0 <= k < es.len() ==> (#[trigger] es[k]).0 != key) ==> lookup(es, key)
            is None,
{
    if 0 <= i < es.len() && es[i].0 == key && (forall|k: int|
        0 <= k < i ==> (#[trigger] es[k]).0 != key) {
        lemma_key_at(es, key, 0, i);
    }
    if forall|k: int| 0 <= k < es.len() ==> (#[trigger] es[k]).0 != key {
        lemma_no_key(es, key, 0);
    }
}

proof fn lemma_key_at(es: Seq<(Seq<char>, NodeV)>, key: Seq<char>, j: int, i: int)
    requires
        0 <= j <= i < es.len(),
        es[i].0 == key,
        forall|k: int| 0 <= k < i ==> (#[trigger] es[k]).0 != key,
    ensures
        key_index(es, key, j) == i,
    decreases i - j,
{
    if j < i {
        assert(es[j].0 != key);
        lemma_key_at(es, key, j + 1, i);
    }
}

proof fn lemma_no_key(es: Seq<(Seq<char>, NodeV)>, key: Seq<char>, j: int)
    requires
        0 <= j <= es.len(),
        forall|k: int| 0 <= k < es.len() ==> (#[trigger] es[k]).0 != key,
    ensures
        key_index(es, key, j) == es.len(),
    decreases es.len() - j,
{
    if j < es.len() {
        assert(es[j].0 != key);
        lemma_no_key(es, key, j + 1);
    }
}

/// A placeholder: a key between `$(` and `)`, or between `${` and `}`.
pub open spec fn placeholder(round: bool, key: Seq<char>) -> Seq<char> {
    if round {
        seq!['$', '('] + key + seq![')']
    } else {
        seq!['$', '{'] + key + seq!['}']
    }
}

/// Can the key stand in such a placeholder?
pub open spec fn can_stand(round: bool, key: Seq<char>) -> bool {
    !key.contains(if round {
        ')'
    } else {
        '}'
    })
}

proof fn lemma_first(p: Seq<char>, c: char, r: Seq<char>, i: int)
    requires
        !p.contains(c),
        0 <= i <= p.len(),
    ensures
        next_index(p + seq![c] + r, c, i) == p.len(),
    decreases p.len() - i,
{
    let s = p + seq![c] + r;
    if i < p.len() {
        assert(s[i] == p[i]);
        assert(p.contains(p[i]));
        lemma_first(p, c, r, i + 1);
    } else {
        assert(s[i] == c);
    }
}

proof fn lemma_later(a: Seq<char>, x: Seq<char>, c: char, r: Seq<char>, i: int)
    requires
        !x.contains(c),
        0 <= i <= x.len(),
    ensures
        next_index(a + x + seq![c] + r, c, a.len() + i) == a.len() + x.len(),
    decreases x.len() - i,
{
    let s = a + x + seq![c] + r;
    if i < x.len() {
        assert(s[a.len() + i] == x[i]);
        assert(x.contains(x[i]));
        lemma_later(a, x, c, r, i + 1);
    } else {
        assert(s[a.len() + i] == c);
    }
}

proof fn lemma_never(a: Seq<char>, x: Seq<char>, c: char, i: int)
    requires
        !x.contains(c),
        0 <= i <= x.len(),
    ensures
        next_index(a + x, c, a.len() + i) == a.len() + x.len(),
    decreases x.len() - i,
{
    let s = a + x;
    if i < x.len() {
        assert(s[a.len() + i] == x[i]);
        assert(x.contains(x[i]));
        lemma_never(a, x, c, i + 1);
    }
}

/// A placeholder in a text is replaced by the text of its key, or by nothing where
/// there is none; what stands before it stays, and what stands behind it is treated
/// in the same way.
pub proof fn placeholders_are_replaced(
    p: Seq<char>,
    round: bool,
    key: Seq<char>,
    r: Seq<char>,
    data: Map<Seq<char>, NodeV>,
    v: Seq<char>,
)
    requires
        !p.contains('$'),
        can_stand(round, key),
    ensures
        data.dom().contains(key) && data[key].kind == KindV::Scalar(v) ==> formatted(
            p + placeholder(round, key) + r,
            data,
        ) == p + v + formatted(r, data),
        !data.dom().contains(key) ==> formatted(p + placeholder(round, key) + r, data) == p
            + formatted(r, data),
{
    let s = p + placeholder(round, key) + r;
    let o = if round {
        '('
    } else {
        '{'
    };
    let c = if round {
        ')'
    } else {
        '}'
    };
    let a = p + seq!['$', o];
    assert(s =~= a + key + seq![c] + r);
    assert(s =~= p + seq!['$'] + (seq![o] + key + seq![c] + r));
    lemma_first(p, '$', seq![o] + key + seq![c] + r, 0);
    let k = p.len() as int;
    assert(s[k] == '$' && s[k + 1] == o);
    lemma_later(a, key, c, r, 0);
    let end = k + 2 + key.len();
    assert(s.subrange(k + 2, end) =~= key);
    assert(s.take(k) =~= p);
    assert(s.skip(end + 1) =~= r);
    assert(p + Seq::<char>::empty() =~= p);
}

/// A dollar sign before anything else stays, and so does one whose placeholder never
/// ends.
pub proof fn other_dollars_stay(p: Seq<char>, r: Seq<char>, x: Seq<char>, data: Map<Seq<char>, NodeV>)
    requires
        !p.contains('$'),
    ensures
        r.len() == 0 || (r[0] != '(' && r[0] != '{') ==> formatted(p + seq!['$'] + r, data) == p
            + seq!['$'] + formatted(r, data),
        !x.contains(')') ==> formatted(p + seq!['$', '('] + x, data) == p + seq!['$', '('] + x,
        !x.contains('}') ==> formatted(p + seq!['$', '{'] + x, data) == p + seq!['$', '{'] + x,
{
    let k = p.len() as int;
    lemma_first(p, '$', r, 0);
    let s = p + seq!['$'] + r;
    assert(s[k] == '$');
    assert(s.take(k + 1) =~= p + seq!['$']);
    assert(s.skip(k + 1) =~= r);
    if r.len() > 0 {
        assert(s[k + 1] == r[0]);
    }
    let a = p + seq!['$', '('] + x;
    assert(a =~= p + seq!['$'] + (seq!['('] + x));
    lemma_first(p, '$', seq!['('] + x, 0);
    assert(a[k] == '$' && a[k + 1] == '(');
    if !x.contains(')') {
        lemma_never(p + seq!['$', '('], x, ')', 0);
    }
    let b = p + seq!['$', '{'] + x;
    assert(b =~= p + seq!['$'] + (seq!['{'] + x));
    lemma_first(p, '$', seq!['{'] + x, 0);
    assert(b[k] == '$' && b[k + 1] == '{');
    if !x.contains('}') {
        lemma_never(p + seq!['$', '{'], x, '}', 0);
    }
}

/// A value that is a placeholder and nothing else becomes the value of its key,
/// whatever it is: a text, a list or a table. Its own tag counts where the value of
/// the key has none.
pub proof fn sole_placeholders_become_their_value(
    round: bool,
    key: Seq<char>,
    tag: Option<Seq<char>>,
    data: Map<Seq<char>, NodeV>,
)
    requires
        can_stand(round, key),
        key.len() > 0,
        data.dom().contains(key),
    ensures
        processed(NodeV { tag, kind: KindV::Scalar(placeholder(round, key)) }, data).kind
            == data[key].kind,
        data[key].tag is Some ==> processed(
            NodeV { tag, kind: KindV::Scalar(placeholder(round, key)) },
            data,
        ).tag == data[key].tag,
        data[key].tag is None ==> processed(
            NodeV { tag, kind: KindV::Scalar(placeholder(round, key)) },
            data,
        ).tag == tag,
{
    let s = placeholder(round, key);
    let c = if round {
        ')'
    } else {
        '}'
    };
    let a = s.take(2);
    let none = Seq::<char>::empty();
    assert(s =~= a + key + seq![c] + none);
    lemma_later(a, key, c, none, 0);
    assert(s.subrange(2, s.len() - 1) =~= key);
}

/// A text with anything around its placeholder stays a text.
pub proof fn texts_stay_texts(n: NodeV, data: Map<Seq<char>, NodeV>)
    requires
        n.kind is Scalar,
        sole_placeholder(n.kind->Scalar_0) is None,
    ensures
        processed(n, data) == (NodeV {
            tag: n.tag,
            kind: KindV::Scalar(formatted(n.kind->Scalar_0, data)),
        }),
{
}

proof fn lemma_entries(es: Seq<(Seq<char>, NodeV)>, i: int, data: Map<Seq<char>, NodeV>)
    requires
        0 <= i <= es.len(),
    ensures
        processed_entries(es, i, data).len() == es.len() - i,
        forall|k: int|
            i <= k < es.len() ==> #[trigger] processed_entries(es, i, data)[k - i] == (
                es[k].0,
                processed(es[k].1, data),
            ),
    decreases es.len() - i,
{
    if i < es.len() {
        lemma_entries(es, i + 1, data);
        let rest = processed_entries(es, i + 1, data);
        let all = processed_entries(es, i, data);
        assert forall|k: int| i <= k < es.len() implies #[trigger] all[k - i] == (
            es[k].0,
            processed(es[k].1, data),
        ) by {
            if k > i {
                assert(rest[k - (i + 1)] == (es[k].0, processed(es[k].1, data)));
                assert(all[k - i] == rest[k - i - 1]);
            }
        }
    }
}

/// A table keeps its keys, its order and its tag, and each of its values is filled.
pub proof fn tables_are_filled(tag: Option<Seq<char>>, es: Seq<(Seq<char>, NodeV)>, data: Map<
    Seq<char>,
    NodeV,
>)
    ensures
        processed(NodeV { tag, kind: KindV::Table(es) }, data) == (NodeV {
            tag,
            kind: KindV::Table(
                es.map_values(|e: (Seq<char>, NodeV)| (e.0, processed(e.1, data))),
            ),
        }),
{
    lemma_entries(es, 0, data);
    let all = processed_entries(es, 0, data);
    let want = es.map_values(|e: (Seq<char>, NodeV)| (e.0, processed(e.1, data)));
    assert forall|k: int| 0 <= k < es.len() implies all[k] == want[k] by {
        assert(all[k - 0] == (es[k].0, processed(es[k].1, data)));
    }
    assert(all =~= want);
}

/// An item of a list with instances becomes one item for each of them, in their
/// order; another item becomes itself, filled; and the items follow one another.
pub proof fn items_are_filled(v: Seq<NodeV>, i: int, data: Map<Seq<char>, NodeV>)
    requires
        0 <= i < v.len(),
    ensures
        instances_of(v[i]) is None ==> processed_items(v, i, data) == seq![processed(v[i], data)]
            + processed_items(v, i + 1, data),
        instances_of(v[i]) is Some && all_tables(instances_of(v[i])->0) ==> processed_items(
            v,
            i,
            data,
        ) == instances_of(v[i])->0.map_values(
            |inst: NodeV|
                instance_value(
                    processed(
                        stripped(v[i], "$instances"@),
                        extended(data, inst.kind->Table_0),
                    ),
                    v[i].tag,
                ),
        ) + processed_items(v, i + 1, data),
{
    if instances_of(v[i]) is Some && all_tables(instances_of(v[i])->0) {
        let insts = instances_of(v[i])->0;
        lemma_instantiated(stripped(v[i], "$instances"@), v[i].tag, insts, 0, data);
        let want = insts.map_values(
            |inst: NodeV|
                instance_value(
                    processed(
                        stripped(v[i], "$instances"@),
                        extended(data, inst.kind->Table_0),
                    ),
                    v[i].tag,
                ),
        );
        assert(instantiated(stripped(v[i], "$instances"@), v[i].tag, insts, 0, data) =~= want) by {
            let got = instantiated(stripped(v[i], "$instances"@), v[i].tag, insts, 0, data);
            assert forall|k: int| 0 <= k < insts.len() implies got[k] == want[k] by {
                assert(got[k - 0] == want[k]);
            }
        }
    }
}

pub open spec fn all_tables(insts: Seq<NodeV>) -> bool {
    forall|i: int| 0 <= i < insts.len() ==> (#[trigger] insts[i]).kind is Table
}

proof fn lemma_instantiated(
    body: NodeV,
    tag: Option<Seq<char>>,
    insts: Seq<NodeV>,
    j: int,
    data: Map<Seq<char>, NodeV>,
)
    requires
        0 <= j <= insts.len(),
        all_tables(insts),
    ensures
        instantiated(body, tag, insts, j, data).len() == insts.len() - j,
        forall|k: int|
            j <= k < insts.len() ==> #[trigger] instantiated(body, tag, insts, j, data)[k - j]
                == instance_value(processed(body, extended(data, insts[k].kind->Table_0)), tag),
    decreases insts.len() - j,
{
    if j < insts.len() {
        assert(insts[j].kind is Table);
        lemma_instantiated(body, tag, insts, j + 1, data);
        let rest = instantiated(body, tag, insts, j + 1, data);
        let all = instantiated(body, tag, insts, j, data);
        assert forall|k: int| j <= k < insts.len() implies #[trigger] all[k - j] == instance_value(
            processed(body, extended(data, insts[k].kind->Table_0)),
            tag,
        ) by {
            if k > j {
                assert(all[k - j] == rest[k - (j + 1)]);
            }
        }
    }
}

/// The data of an instance are its own entries over those around it: an entry counts
/// before an outer one with its key, and the last of several with one key counts.
pub proof fn inner_data_count_first(
    outer: Map<Seq<char>, NodeV>,
    es: Seq<(Seq<char>, NodeV)>,
    i: int,
    key: Seq<char>,
)
    ensures
        0 <= i < es.len() && (forall|k: int| i < k < es.len() ==> (#[trigger] es[k]).0 != es[i].0)
            ==> extended(outer, es).dom().contains(es[i].0) && extended(outer, es)[es[i].0]
            == es[i].1,
        (forall|k: int| 0 <= k < es.len() ==> (#[trigger] es[k]).0 != key) ==> (extended(
            outer,
            es,
        ).dom().contains(key) <==> outer.dom().contains(key)) && (outer.dom().contains(key)
            ==> extended(outer, es)[key] == outer[key]),
    decreases es.len(),
{
    if es.len() > 0 {
        let front = es.drop_last();
        let last = es.len() - 1;
        inner_data_count_first(outer, front, i, key);
        if 0 <= i < last && (forall|k: int| i < k < es.len() ==> (#[trigger] es[k]).0 != es[i].0) {
            assert(es[last].0 != es[i].0);
            assert forall|k: int| i < k < front.len() implies (#[trigger] front[k]).0
                != front[i].0 by {
                assert(es[k].0 != es[i].0);
            }
        }
        if forall|k: int| 0 <= k < es.len() ==> (#[trigger] es[k]).0 != key {
            assert(es[last].0 != key);
            assert forall|k: int| 0 <= k < front.len() implies (#[trigger] front[k]).0 != key by {
                assert(es[k].0 != key);
            }
        }
    }
}

/// Taking a key out leaves every other entry, in its order.
pub proof fn taking_out_leaves_the_rest(es: Seq<(Seq<char>, NodeV)>, e: (Seq<char>, NodeV), key: Seq<char>)
    ensures
        without_key(es.push(e), key) == if e.0 == key {
            without_key(es, key)
        } else {
            without_key(es, key).push(e)
        },
        forall|i: int| 0 <= i < without_key(es, key).len() ==> (#[trigger] without_key(es, key)[i]).0
            != key,
    decreases es.len(),
{
    assert(es.push(e).drop_last() =~= es);
    if es.len() > 0 {
        taking_out_leaves_the_rest(es.drop_last(), e, key);
    }
}

/// A document is expanded entry by entry, in their order: one with instances into a
/// record for each, another into itself, filled from no data.
pub proof fn entries_are_expanded_in_order(es: Seq<(Seq<char>, NodeV)>, i: int)
    requires
        0 <= i < es.len(),
        expanded_entries(es, i) is Ok,
    ensures
        expanded_entry(es[i].0, es[i].1) is Ok,
        expanded_entries(es, i + 1) is Ok,
        expanded_entries(es, i)->Ok_0 == expanded_entry(es[i].0, es[i].1)->Ok_0 + expanded_entries(
            es,
            i + 1,
        )->Ok_0,
        es[i].1.get("$instances"@) is None ==> expanded_entry(es[i].0, es[i].1)->Ok_0 == seq![
            (es[i].0, processed(es[i].1, Map::empty())),
        ],
{
}

/// Instances that are no list, or not all of them tables, are an error.
pub proof fn instances_are_lists_of_tables(key: Seq<char>, n: NodeV, insts: NodeV, k: int)
    requires
        n.get("$instances"@) == Some(insts),
    ensures
        !(insts.kind is List) ==> expanded_entry(key, n) is Err,
        insts.kind is List && 0 <= k < insts.kind->List_0.len() && !(insts.kind->List_0[k].kind
            is Table) ==> expanded_entry(key, n) is Err,
{
    if insts.kind is List && 0 <= k < insts.kind->List_0.len() && !(insts.kind->List_0[k].kind
        is Table) {
        lemma_bad_instance(key, stripped(n, "$instances"@), insts.kind->List_0, 0, k);
    }
}

proof fn lemma_bad_instance(key: Seq<char>, body: NodeV, insts: Seq<NodeV>, j: int, k: int)
    requires
        0 <= j <= k < insts.len(),
        !(insts[k].kind is Table),
    ensures
        expanded_instances(key, body, insts, j) is Err,
    decreases k - j,
{
    if j < k {
        lemma_bad_instance(key, body, insts, j + 1, k);
    }
}

/// The value of an instance that is a table with a `$value` is that value, unless
/// the value is a table itself.
pub proof fn values_of_instances_are_taken(n: NodeV, val: NodeV, tag: Option<Seq<char>>)
    ensures
        n.get("$value"@) == Some(val) && !(val.kind is Table) ==> instance_value(n, tag).kind
            == val.kind && instance_value(n, tag).tag == (if val.tag is Some {
            val.tag
        } else {
            tag
        }),
        n.get("$value"@) == Some(val) && val.kind is Table ==> instance_value(n, tag) == n,
        n.get("$value"@) is None ==> instance_value(n, tag) == n,
{
}

} // verus!
