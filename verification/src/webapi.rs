//! The answers of the web interface: what the database and the list of names
//! say, sorted and put together as JSON.
use vstd::prelude::*;
use vstd::slice::slice_subrange;

use crate::hashes::{id_of, record_type_key, tweak_db_id, type_key_of};
use crate::names::{entries_view, matching, name_of, NameDb};
use crate::numbers::{parse_unsigned, unsigned_within};
use crate::order::{sorted_positions, sorts, KeyTally, TextKey, TextTally};
use crate::text::{after_prefix, chars_of, dec, hex_lower, index_of, joined, next_index, push_chars, push_dec,
    push_hex_lower, push_lit, same_str, string_of, strings_view, trim, trimmed};
use crate::tweakdb::{group_values, pairs_view, FlatType, FlatValue, FlatValueV, Record, TweakDb};
use crate::tweakxl::{interpret, interpreted, ops_outcome, ops_view, Op, OpV};
use crate::webui::{error_json, jerror, jok, json_string, ok_json, opt_view, push_json};
use crate::yaml::{document, parse};

verus! {

// ---- putting lists together ------------------------------------------------

/// Appends the items with commas between them.
fn push_joined(out: &mut Vec<char>, items: &Vec<Vec<char>>)
    ensures
        final(out)@ == old(out)@ + joined(crate::text::vecs_view(items@), ","@),
{
    let ghost start = out@;
    let ghost all = crate::text::vecs_view(items@);
    let mut i: usize = 0;
    proof {
        assert(all.take(0) =~= Seq::empty());
        assert(start + joined(all.take(0), ","@) =~= start);
    }
    while i < items.len()
        invariant
            i <= items@.len(),
            all == crate::text::vecs_view(items@),
            out@ == start + joined(all.take(i as int), ","@),
        decreases items@.len() - i,
    {
        if i > 0 {
            push_lit(out, ",");
        }
        push_chars(out, items[i].as_slice());
        proof {
            assert(all.take(i + 1).drop_last() =~= all.take(i as int));
            assert(all.take(i + 1).last() == items@[i as int]@);
            assert(out@ =~= start + joined(all.take(i + 1), ","@));
        }
        i += 1;
    }
    proof {
        assert(all.take(i as int) =~= all);
    }
}

/// The texts as JSON strings, with commas between them.
pub open spec fn json_list(items: Seq<Seq<char>>) -> Seq<char> {
    joined(items.map_values(|s: Seq<char>| json_string(s)), ","@)
}

/// Appends the first texts as JSON strings, with commas between them.
fn push_json_list(out: &mut Vec<char>, items: &Vec<String>, max: usize)
    ensures
        final(out)@ == old(out)@ + json_list(first(strings_view(items@), max as nat)),
{
    let ghost all = strings_view(items@);
    let ghost goal = first(all, max as nat).map_values(|s: Seq<char>| json_string(s));
    let n: usize = if items.len() < max {
        items.len()
    } else {
        max
    };
    let mut parts: Vec<Vec<char>> = Vec::new();
    let mut i: usize = 0;
    while i < n
        invariant
            i <= n <= items@.len(),
            n == first(all, max as nat).len(),
            all == strings_view(items@),
            goal == first(all, max as nat).map_values(|s: Seq<char>| json_string(s)),
            crate::text::vecs_view(parts@) == goal.take(i as int),
        decreases n - i,
    {
        let mut p: Vec<char> = Vec::new();
        push_json(&mut p, items[i].as_str());
        let ghost before = parts@;
        parts.push(p);
        proof {
            assert(all[i as int] == items@[i as int]@);
            assert(p@ =~= json_string(all[i as int]));
            assert(crate::text::vecs_view(parts@) =~= crate::text::vecs_view(before).push(p@));
            assert(crate::text::vecs_view(parts@) =~= goal.take(i + 1));
        }
        i += 1;
    }
    proof {
        assert(goal.take(n as int) =~= goal);
    }
    push_joined(out, &parts);
}

/// The first items, as many as there are up to `n`.
pub open spec fn first(items: Seq<Seq<char>>, n: nat) -> Seq<Seq<char>> {
    if items.len() <= n {
        items
    } else {
        items.take(n as int)
    }
}

// ---- status ----------------------------------------------------------------

/// The state of the installed file: no target, vanilla, or modified.
pub open spec fn install_state(target: bool, pristine: bool, same: bool) -> Seq<char> {
    if !target {
        "sem-alvo"@
    } else if !pristine || same {
        "vanilla"@
    } else {
        "modificado"@
    }
}

pub open spec fn bool_text(b: bool) -> Seq<char> {
    if b {
        "true"@
    } else {
        "false"@
    }
}

fn push_bool(out: &mut Vec<char>, b: bool)
    ensures
        final(out)@ == old(out)@ + bool_text(b),
{
    if b {
        push_lit(out, "true");
    } else {
        push_lit(out, "false");
    }
}

pub open spec fn status_json(path: Seq<char>, target: bool, pristine: bool, same: bool) -> Seq<
    char,
> {
    "{\"target\":"@ + json_string(path) + ",\"target_exists\":"@ + bool_text(target)
        + ",\"pristine\":"@ + bool_text(pristine) + ",\"state\":"@ + json_string(
        install_state(target, pristine, same),
    ) + "}"@
}

/// The state of the installation. `same` says whether both files could be read
/// and are equal.
pub fn api_status(path: &str, target_exists: bool, has_orig: bool, same: bool) -> (r: String)
    ensures
        r@ == status_json(path@, target_exists, has_orig, same),
{
    let state = if !target_exists {
        "sem-alvo"
    } else if !has_orig || same {
        "vanilla"
    } else {
        "modificado"
    };
    let mut out: Vec<char> = Vec::new();
    push_lit(&mut out, "{\"target\":");
    push_json(&mut out, path);
    push_lit(&mut out, ",\"target_exists\":");
    push_bool(&mut out, target_exists);
    push_lit(&mut out, ",\"pristine\":");
    push_bool(&mut out, has_orig);
    push_lit(&mut out, ",\"state\":");
    push_json(&mut out, state);
    push_lit(&mut out, "}");
    proof {
        assert(out@ =~= status_json(path@, target_exists, has_orig, same));
    }
    string_of(out.as_slice())
}

// ---- areas -----------------------------------------------------------------

/// The names of the keys that have one.
pub open spec fn resolved_names(
    pairs: Seq<(nat, FlatValueV)>,
    entries: Seq<(u64, Seq<char>)>,
) -> Seq<Seq<char>>
    decreases pairs.len(),
{
    if pairs.len() == 0 {
        Seq::empty()
    } else {
        match name_of(entries, pairs.last().0 as u64) {
            Some(n) => resolved_names(pairs.drop_last(), entries).push(n),
            None => resolved_names(pairs.drop_last(), entries),
        }
    }
}

/// The names of the flats in the first `n` groups that can be read.
pub open spec fn flat_names_of(
    data: Seq<u8>,
    types: Seq<FlatType>,
    entries: Seq<(u64, Seq<char>)>,
    n: nat,
) -> Seq<Seq<char>>
    decreases n,
{
    if n == 0 {
        Seq::empty()
    } else {
        let before = flat_names_of(data, types, entries, (n - 1) as nat);
        match group_values(data, types, n - 1) {
            Ok(pairs) => before + resolved_names(pairs, entries),
            Err(_) => before,
        }
    }
}

/// The names of all flats that can be read.
pub fn flat_names(db: &TweakDb, names: &NameDb) -> (r: Vec<String>)
    ensures
        strings_view(r@) == flat_names_of(
            db.data@,
            db.flat_types@,
            names@.entries,
            db.flat_types@.len(),
        ),
{
    let mut out: Vec<String> = Vec::new();
    let mut i: usize = 0;
    proof {
        assert(strings_view(out@) =~= Seq::empty());
    }
    while i < db.flat_types.len()
        invariant
            i <= db.flat_types@.len(),
            strings_view(out@) == flat_names_of(
                db.data@,
                db.flat_types@,
                names@.entries,
                i as nat,
            ),
        decreases db.flat_types@.len() - i,
    {
        if let Ok(pairs) = db.read_values(i) {
            let ghost before = strings_view(out@);
            let ghost all = pairs_view(pairs@);
            let mut k: usize = 0;
            proof {
                assert(all.take(0) =~= Seq::empty());
                assert(before + resolved_names(all.take(0), names@.entries) =~= before);
            }
            while k < pairs.len()
                invariant
                    k <= pairs@.len(),
                    all == pairs_view(pairs@),
                    strings_view(out@) == before + resolved_names(
                        all.take(k as int),
                        names@.entries,
                    ),
                decreases pairs@.len() - k,
            {
                proof {
                    assert(all.take(k + 1).drop_last() =~= all.take(k as int));
                    assert(all.take(k + 1).last() == all[k as int]);
                    assert(all[k as int].0 == pairs@[k as int].0);
                }
                if let Some(name) = names.resolve(pairs[k].0) {
                    let ghost prior = out@;
                    out.push(name.to_owned());
                    proof {
                        assert(strings_view(out@) =~= strings_view(prior).push(name@));
                        assert(strings_view(out@) =~= before + resolved_names(
                            all.take(k + 1),
                            names@.entries,
                        ));
                    }
                }
                k += 1;
            }
            proof {
                assert(all.take(k as int) =~= all);
            }
        }
        i += 1;
    }
    out
}

/// What stands before the first dot.
pub open spec fn area_of(name: Seq<char>) -> Seq<char> {
    name.take(next_index(name, '.', 0))
}

pub open spec fn tally_index(t: Seq<(Seq<char>, nat)>, s: Seq<char>, i: int) -> int
    decreases t.len() - i,
{
    if i >= t.len() {
        t.len() as int
    } else if t[i].0 == s {
        i
    } else {
        tally_index(t, s, i + 1)
    }
}

/// The counts after one more occurrence.
pub open spec fn counted(t: Seq<(Seq<char>, nat)>, s: Seq<char>) -> Seq<(Seq<char>, nat)> {
    let k = tally_index(t, s, 0);
    if k < t.len() {
        t.update(k, (s, t[k].1 + 1))
    } else {
        t.push((s, 1))
    }
}

/// How often each area occurs, in the order of their first occurrence.
pub open spec fn area_counts(names: Seq<Seq<char>>) -> Seq<(Seq<char>, nat)>
    decreases names.len(),
{
    if names.len() == 0 {
        Seq::empty()
    } else {
        counted(area_counts(names.drop_last()), area_of(names.last()))
    }
}

pub open spec fn tallies_view(v: Seq<TextTally>) -> Seq<(Seq<char>, nat)> {
    v.map_values(|t: TextTally| (t.text@, t.count as nat))
}

fn find_tally(v: &Vec<TextTally>, s: &[char]) -> (r: usize)
    ensures
        r == tally_index(tallies_view(v@), s@, 0),
        r <= v@.len(),
        r < v@.len() ==> v@[r as int].text@ == s@,
{
    let ghost t = tallies_view(v@);
    let mut i: usize = 0;
    while i < v.len()
        invariant
            i <= v@.len(),
            t == tallies_view(v@),
            tally_index(t, s@, 0) == tally_index(t, s@, i as int),
        decreases v@.len() - i,
    {
        if crate::text::is_lit(s, v[i].text.as_str()) {
            return i;
        }
        i += 1;
    }
    i
}

fn count_areas(names: &Vec<String>) -> (r: Vec<TextTally>)
    ensures
        tallies_view(r@) == area_counts(strings_view(names@)),
{
    let ghost all = strings_view(names@);
    let mut out: Vec<TextTally> = Vec::new();
    let mut i: usize = 0;
    proof {
        assert(tallies_view(out@) =~= Seq::empty());
    }
    while i < names.len()
        invariant
            i <= names@.len(),
            all == strings_view(names@),
            tallies_view(out@) == area_counts(all.take(i as int)),
            forall|k: int| 0 <= k < out@.len() ==> (#[trigger] out@[k]).count <= i,
        decreases names@.len() - i,
    {
        let v = chars_of(names[i].as_str());
        let dot: usize = index_of(v.as_slice(), '.', 0);
        let head = slice_subrange(v.as_slice(), 0, dot);
        proof {
            assert(all.take(i + 1).drop_last() =~= all.take(i as int));
            assert(all.take(i + 1).last() == v@);
            assert(head@ =~= area_of(v@));
        }
        let k: usize = find_tally(&out, head);
        let ghost before = out@;
        if k < out.len() {
            let n: u64 = out[k].count;
            out[k] = TextTally { text: string_of(head), count: n + 1 };
            proof {
                assert(tallies_view(out@) =~= counted(tallies_view(before), head@));
            }
        } else {
            out.push(TextTally { text: string_of(head), count: 1 });
            proof {
                assert(tallies_view(out@) =~= counted(tallies_view(before), head@));
            }
        }
        i += 1;
    }
    proof {
        assert(all.take(i as int) =~= all);
    }
    out
}

pub open spec fn area_json(text: Seq<char>, count: nat) -> Seq<char> {
    "{\"area\":"@ + json_string(text) + ",\"count\":"@ + dec(count) + "}"@
}

/// The areas in the order of the positions `p`.
pub open spec fn areas_json(t: Seq<(Seq<char>, nat)>, p: Seq<usize>) -> Seq<char> {
    "{\"areas\":["@ + joined(
        p.map_values(|i: usize| area_json(t[i as int].0, t[i as int].1)),
        ","@,
    ) + "]}"@
}

/// Is the text the answer for these names: the areas with their counts, the
/// most frequent first?
pub open spec fn answers_areas(names: Seq<Seq<char>>, r: Seq<char>) -> bool {
    exists|t: Seq<TextTally>, p: Seq<usize>|
        tallies_view(t) == area_counts(names) && #[trigger] sorts(t, p) && r == areas_json(
            area_counts(names),
            p,
        )
}

/// The areas of the flats with their counts, the most frequent first.
pub fn api_areas(db: &TweakDb, names: &NameDb) -> (r: String)
    ensures
        answers_areas(
            flat_names_of(db.data@, db.flat_types@, names@.entries, db.flat_types@.len()),
            r@,
        ),
{
    let all = flat_names(db, names);
    let t = count_areas(&all);
    let p = sorted_positions(&t);
    let ghost tv = tallies_view(t@);
    let ghost goal = p@.map_values(|i: usize| area_json(tv[i as int].0, tv[i as int].1));
    let mut parts: Vec<Vec<char>> = Vec::new();
    let mut i: usize = 0;
    while i < p.len()
        invariant
            i <= p@.len(),
            tv == tallies_view(t@),
            sorts(t@, p@),
            goal == p@.map_values(|i: usize| area_json(tv[i as int].0, tv[i as int].1)),
            crate::text::vecs_view(parts@) == goal.take(i as int),
        decreases p@.len() - i,
    {
        proof {
            assert(p@[i as int] < t@.len());
            assert(tv[p@[i as int] as int] == (
                t@[p@[i as int] as int].text@,
                t@[p@[i as int] as int].count as nat,
            ));
        }
        let e = &t[p[i]];
        let mut item: Vec<char> = Vec::new();
        push_lit(&mut item, "{\"area\":");
        push_json(&mut item, e.text.as_str());
        push_lit(&mut item, ",\"count\":");
        push_dec(&mut item, e.count as u128);
        push_lit(&mut item, "}");
        let ghost before = parts@;
        parts.push(item);
        proof {
            assert(item@ =~= area_json(e.text@, e.count as nat));
            assert(crate::text::vecs_view(parts@) =~= crate::text::vecs_view(before).push(item@));
            assert(crate::text::vecs_view(parts@) =~= goal.take(i + 1));
        }
        i += 1;
    }
    let mut out: Vec<char> = Vec::new();
    push_lit(&mut out, "{\"areas\":[");
    push_joined(&mut out, &parts);
    push_lit(&mut out, "]}");
    proof {
        assert(goal.take(i as int) =~= goal);
        assert(out@ =~= areas_json(tv, p@));
    }
    string_of(out.as_slice())
}

// ---- names -----------------------------------------------------------------

pub open spec fn keys_view(v: Seq<TextKey>) -> Seq<Seq<char>> {
    v.map_values(|k: TextKey| k.text@)
}

/// The texts at the positions.
pub open spec fn texts_at(keys: Seq<TextKey>, p: Seq<usize>) -> Seq<Seq<char>> {
    p.map_values(|i: usize| keys[i as int].text@)
}

/// The list without neighbours that repeat.
pub open spec fn deduped(l: Seq<Seq<char>>) -> Seq<Seq<char>>
    decreases l.len(),
{
    if l.len() == 0 {
        Seq::empty()
    } else if l.len() > 1 && l.last() == l[l.len() - 2] {
        deduped(l.drop_last())
    } else {
        deduped(l.drop_last()).push(l.last())
    }
}

/// Is the list the sorted list of the texts?
pub open spec fn sorted_list(texts: Seq<Seq<char>>, l: Seq<Seq<char>>) -> bool {
    exists|k: Seq<TextKey>, p: Seq<usize>|
        keys_view(k) == texts && #[trigger] sorts(k, p) && l == texts_at(k, p)
}

/// Sorts texts.
pub fn sort_texts(texts: Vec<String>) -> (r: Vec<String>)
    ensures
        sorted_list(strings_view(texts@), strings_view(r@)),
        r@.len() == texts@.len(),
{
    let ghost all = strings_view(texts@);
    let mut keys: Vec<TextKey> = Vec::new();
    let mut i: usize = 0;
    proof {
        assert(keys_view(keys@) =~= all.take(0));
    }
    while i < texts.len()
        invariant
            i <= texts@.len(),
            all == strings_view(texts@),
            keys_view(keys@) == all.take(i as int),
        decreases texts@.len() - i,
    {
        let ghost before = keys@;
        let t = texts[i].clone();
        keys.push(TextKey { text: t });
        proof {
            assert(keys_view(keys@) =~= keys_view(before).push(texts@[i as int]@));
            assert(keys_view(keys@) =~= all.take(i + 1));
        }
        i += 1;
    }
    proof {
        assert(all.take(i as int) =~= all);
    }
    let p = sorted_positions(&keys);
    let mut out: Vec<String> = Vec::new();
    let mut j: usize = 0;
    while j < p.len()
        invariant
            j <= p@.len(),
            sorts(keys@, p@),
            strings_view(out@) == texts_at(keys@, p@).take(j as int),
        decreases p@.len() - j,
    {
        let ghost before = out@;
        proof {
            assert(p@[j as int] < keys@.len());
        }
        let t = keys[p[j]].text.clone();
        out.push(t);
        proof {
            assert(strings_view(out@) =~= strings_view(before).push(t@));
            assert(strings_view(out@) =~= texts_at(keys@, p@).take(j + 1));
        }
        j += 1;
    }
    proof {
        assert(texts_at(keys@, p@).take(j as int) =~= texts_at(keys@, p@));
        assert(strings_view(out@).len() == out@.len());
    }
    out
}

fn dedup(l: &Vec<String>) -> (r: Vec<String>)
    ensures
        strings_view(r@) == deduped(strings_view(l@)),
{
    let ghost all = strings_view(l@);
    let mut out: Vec<String> = Vec::new();
    let mut i: usize = 0;
    proof {
        assert(strings_view(out@) =~= Seq::empty());
    }
    while i < l.len()
        invariant
            i <= l@.len(),
            all == strings_view(l@),
            strings_view(out@) == deduped(all.take(i as int)),
        decreases l@.len() - i,
    {
        proof {
            assert(all.take(i + 1).drop_last() =~= all.take(i as int));
            assert(all.take(i + 1).last() == l@[i as int]@);
        }
        if i == 0 || !same_str(l[i].as_str(), l[i - 1].as_str()) {
            let ghost before = out@;
            let t = l[i].clone();
            out.push(t);
            proof {
                assert(strings_view(out@) =~= strings_view(before).push(t@));
            }
        }
        i += 1;
    }
    proof {
        assert(all.take(i as int) =~= all);
    }
    out
}

pub open spec fn find_json(hits: Seq<Seq<char>>) -> Seq<char> {
    "{\"total\":"@ + dec(hits.len()) + ",\"hits\":["@ + json_list(first(hits, 300)) + "]}"@
}

/// The names among the entries.
pub open spec fn names_in(entries: Seq<(u64, Seq<char>)>) -> Seq<Seq<char>> {
    entries.map_values(|e: (u64, Seq<char>)| e.1)
}

/// Is the text the answer to a search: the matching names in their order, each
/// once, the first three hundred of them?
pub open spec fn answers_find(entries: Seq<(u64, Seq<char>)>, q: Seq<char>, r: Seq<char>) -> bool {
    if trimmed(q).len() == 0 {
        r == "{\"hits\":[]}"@
    } else {
        exists|l: Seq<Seq<char>>| #[trigger]
            sorted_list(names_in(matching(entries, q)), l) && r == find_json(deduped(l))
    }
}

/// Searches the names.
pub fn api_find(names: &NameDb, q: &str) -> (r: String)
    ensures
        answers_find(names@.entries, q@, r@),
{
    let v = chars_of(q);
    if trim(v.as_slice()).len() == 0 {
        return "{\"hits\":[]}".to_owned();
    }
    let found = names.search(q);
    let ghost fv = entries_view(found@);
    let mut texts: Vec<String> = Vec::new();
    let mut i: usize = 0;
    proof {
        assert(strings_view(texts@) =~= names_in(fv).take(0));
    }
    while i < found.len()
        invariant
            i <= found@.len(),
            fv == entries_view(found@),
            strings_view(texts@) == names_in(fv).take(i as int),
        decreases found@.len() - i,
    {
        let ghost before = texts@;
        let t = found[i].1.clone();
        texts.push(t);
        proof {
            assert(strings_view(texts@) =~= strings_view(before).push(t@));
            assert(strings_view(texts@) =~= names_in(fv).take(i + 1));
        }
        i += 1;
    }
    proof {
        assert(names_in(fv).take(i as int) =~= names_in(fv));
    }
    let sorted = sort_texts(texts);
    let hits = dedup(&sorted);
    let mut out: Vec<char> = Vec::new();
    push_lit(&mut out, "{\"total\":");
    push_dec(&mut out, hits.len() as u128);
    push_lit(&mut out, ",\"hits\":[");
    push_json_list(&mut out, &hits, 300);
    push_lit(&mut out, "]}");
    proof {
        assert(out@ =~= find_json(strings_view(hits@)));
    }
    string_of(out.as_slice())
}

// ---- one record ------------------------------------------------------------

/// A property of a record as it is shown.
pub struct RecordRow {
    pub prop: String,
    pub label: String,
    pub value: String,
}

pub open spec fn row_json(prop: Seq<char>, label: Seq<char>, value: Seq<char>) -> Seq<char> {
    "{\"prop\":"@ + json_string(prop) + ",\"type\":"@ + json_string(label) + ",\"value\":"@
        + json_string(value) + "}"@
}

pub open spec fn record_json(name: Seq<char>, rows: Seq<RecordRow>, p: Seq<usize>) -> Seq<char> {
    "{\"name\":"@ + json_string(name) + ",\"count\":"@ + dec(rows.len()) + ",\"props\":["@
        + joined(
        p.map_values(
            |i: usize|
                row_json(rows[i as int].prop@, rows[i as int].label@, rows[i as int].value@),
        ),
        ","@,
    ) + "]}"@
}

pub open spec fn props_of(rows: Seq<RecordRow>) -> Seq<Seq<char>> {
    rows.map_values(|r: RecordRow| r.prop@)
}

/// Is the text the answer for a record: its properties in the order of their
/// names?
pub open spec fn answers_record(name: Seq<char>, rows: Seq<RecordRow>, r: Seq<char>) -> bool {
    if trimmed(name).len() == 0 {
        r == "{\"error\":\"sem nome\"}"@
    } else {
        exists|k: Seq<TextKey>, p: Seq<usize>|
            keys_view(k) == props_of(rows) && #[trigger] sorts(k, p) && r == record_json(
                name,
                rows,
                p,
            )
    }
}

/// The property of a record that a flat's name denotes: what follows the
/// record's name and a dot.
pub fn property_of(flat: &str, record: &str) -> (r: Option<String>)
    ensures
        opt_view(r) == crate::text::after_prefix(flat@, record@.push('.')),
{
    let v = chars_of(flat);
    let mut p = chars_of(record);
    p.push('.');
    let prefix = string_of(p.as_slice());
    match crate::text::strip_prefix(v.as_slice(), prefix.as_str()) {
        Some(rest) => Some(string_of(rest)),
        None => None,
    }
}

/// A property of a record with its type and its value.
pub type PropertyV = (Seq<char>, Seq<char>, FlatValueV);

pub open spec fn properties_view(v: Seq<(String, String, FlatValue)>) -> Seq<PropertyV> {
    v.map_values(|e: (String, String, FlatValue)| (e.0@, e.1@, e.2@))
}

/// The property that a key and its value are of the record whose flats start with
/// the prefix.
pub open spec fn property_at(
    pair: (nat, FlatValueV),
    entries: Seq<(u64, Seq<char>)>,
    prefix: Seq<char>,
    label: Seq<char>,
) -> Option<PropertyV> {
    match name_of(entries, pair.0 as u64) {
        Some(n) => match after_prefix(n, prefix) {
            Some(prop) => Some((prop, label, pair.1)),
            None => None,
        },
        None => None,
    }
}

/// The properties of the record among the flats of a group, in their order.
pub open spec fn properties_in(
    pairs: Seq<(nat, FlatValueV)>,
    entries: Seq<(u64, Seq<char>)>,
    prefix: Seq<char>,
    label: Seq<char>,
) -> Seq<PropertyV>
    decreases pairs.len(),
{
    if pairs.len() == 0 {
        Seq::empty()
    } else {
        let front = properties_in(pairs.drop_last(), entries, prefix, label);
        match property_at(pairs.last(), entries, prefix, label) {
            Some(p) => front.push(p),
            None => front,
        }
    }
}

/// The properties of the record in the first `n` groups, group by group. A group
/// of an unknown type, or one that cannot be read, has none.
pub open spec fn properties_of(
    data: Seq<u8>,
    types: Seq<FlatType>,
    entries: Seq<(u64, Seq<char>)>,
    prefix: Seq<char>,
    n: nat,
) -> Seq<PropertyV>
    decreases n,
{
    if n == 0 {
        Seq::empty()
    } else {
        let before = properties_of(data, types, entries, prefix, (n - 1) as nat);
        match types[n - 1].resolved {
            Some(ty) => match group_values(data, types, n - 1) {
                Ok(pairs) if ty.index < 20 => before + properties_in(
                    pairs,
                    entries,
                    prefix,
                    ty.label_text(),
                ),
                _ => before,
            },
            None => before,
        }
    }
}

/// Takes the properties of a record out of the flats of a group, last first.
fn take_properties(
    pairs: Vec<(u64, FlatValue)>,
    names: &NameDb,
    record: &str,
    label: &String,
) -> (r: Vec<(String, String, FlatValue)>)
    ensures
        properties_view(r@).reverse() == properties_in(
            pairs_view(pairs@),
            names@.entries,
            record@.push('.'),
            label@,
        ),
{
    let ghost all = pairs_view(pairs@);
    let ghost prefix = record@.push('.');
    let ghost goal = properties_in(all, names@.entries, prefix, label@);
    let mut rest = pairs;
    let mut out: Vec<(String, String, FlatValue)> = Vec::new();
    proof {
        assert(properties_view(out@).reverse() =~= Seq::empty());
        assert(goal + properties_view(out@).reverse() =~= goal);
    }
    while rest.len() > 0
        invariant
            prefix == record@.push('.'),
            properties_in(pairs_view(rest@), names@.entries, prefix, label@) + properties_view(
                out@,
            ).reverse() == goal,
        decreases rest@.len(),
    {
        let ghost before = rest@;
        let ghost was = out@;
        let ghost front = pairs_view(before).drop_last();
        if let Some((id, v)) = rest.pop() {
            proof {
                assert(pairs_view(rest@) =~= front);
                assert(pairs_view(before).last() == (id as nat, v@));
            }
            let prop: Option<String> = match names.resolve(id) {
                Some(n) => property_of(n, record),
                None => None,
            };
            if let Some(p) = prop {
                let ghost e = (p@, label@, v@);
                out.push((p, label.clone(), v));
                proof {
                    assert(properties_view(out@) =~= properties_view(was).push(e));
                    assert(properties_view(out@).reverse() =~= seq![e] + properties_view(
                        was,
                    ).reverse());
                    let f = properties_in(front, names@.entries, prefix, label@);
                    assert(f + (seq![e] + properties_view(was).reverse()) =~= f.push(e)
                        + properties_view(was).reverse());
                }
            }
        }
    }
    proof {
        assert(pairs_view(rest@) =~= Seq::empty());
        assert(Seq::<PropertyV>::empty() + properties_view(out@).reverse() =~= properties_view(
            out@,
        ).reverse());
    }
    out
}

/// The properties of a record: what follows its name in the names of its flats,
/// with the type and the value of each.
pub fn record_rows(db: &TweakDb, names: &NameDb, name: &str) -> (r: Vec<(String, String, FlatValue)>)
    ensures
        properties_view(r@) == properties_of(
            db.data@,
            db.flat_types@,
            names@.entries,
            name@.push('.'),
            db.flat_types@.len(),
        ),
{
    let ghost prefix = name@.push('.');
    let mut out: Vec<(String, String, FlatValue)> = Vec::new();
    let mut i: usize = 0;
    proof {
        assert(properties_view(out@) =~= Seq::empty());
    }
    while i < db.flat_types.len()
        invariant
            i <= db.flat_types@.len(),
            prefix == name@.push('.'),
            properties_view(out@) == properties_of(
                db.data@,
                db.flat_types@,
                names@.entries,
                prefix,
                i as nat,
            ),
        decreases db.flat_types@.len() - i,
    {
        if let Some(ty) = db.flat_types[i].resolved {
            if ty.index < 20 {
                if let Ok(pairs) = db.read_values(i) {
                    let label = ty.label();
                    let ghost base = properties_view(out@);
                    let ghost more = properties_in(
                        pairs_view(pairs@),
                        names@.entries,
                        prefix,
                        label@,
                    );
                    let mut found = take_properties(pairs, names, name, &label);
                    while found.len() > 0
                        invariant
                            properties_view(out@) + properties_view(found@).reverse() == base
                                + more,
                        decreases found@.len(),
                    {
                        let ghost was = out@;
                        let ghost held = found@;
                        if let Some(e) = found.pop() {
                            let ghost v = (e.0@, e.1@, e.2@);
                            out.push(e);
                            proof {
                                assert(properties_view(out@) =~= properties_view(was).push(v));
                                assert(properties_view(held).reverse() =~= seq![v]
                                    + properties_view(found@).reverse());
                                assert(properties_view(out@) + properties_view(found@).reverse()
                                    =~= properties_view(was) + (seq![v] + properties_view(
                                    found@,
                                ).reverse()));
                            }
                        }
                    }
                    proof {
                        assert(properties_view(found@).reverse() =~= Seq::empty());
                        assert(properties_view(out@) + Seq::empty() =~= properties_view(out@));
                    }
                }
            }
        }
        i += 1;
    }
    out
}

/// The properties of a record, sorted by name.
pub fn api_record(name: &str, rows: &Vec<RecordRow>) -> (r: String)
    ensures
        answers_record(name@, rows@, r@),
{
    let v = chars_of(name);
    if trim(v.as_slice()).len() == 0 {
        return "{\"error\":\"sem nome\"}".to_owned();
    }
    let mut keys: Vec<TextKey> = Vec::new();
    let mut i: usize = 0;
    proof {
        assert(keys_view(keys@) =~= props_of(rows@).take(0));
    }
    while i < rows.len()
        invariant
            i <= rows@.len(),
            keys_view(keys@) == props_of(rows@).take(i as int),
        decreases rows@.len() - i,
    {
        let ghost before = keys@;
        let t = rows[i].prop.clone();
        keys.push(TextKey { text: t });
        proof {
            assert(keys_view(keys@) =~= keys_view(before).push(t@));
            assert(keys_view(keys@) =~= props_of(rows@).take(i + 1));
        }
        i += 1;
    }
    proof {
        assert(props_of(rows@).take(i as int) =~= props_of(rows@));
        assert(keys@.len() == rows@.len()) by {
            assert(keys_view(keys@).len() == keys@.len());
        }
    }
    let p = sorted_positions(&keys);
    let ghost rv = rows@;
    let ghost goal = p@.map_values(
        |i: usize| row_json(rv[i as int].prop@, rv[i as int].label@, rv[i as int].value@),
    );
    let mut parts: Vec<Vec<char>> = Vec::new();
    let mut j: usize = 0;
    while j < p.len()
        invariant
            j <= p@.len(),
            rv == rows@,
            keys@.len() == rows@.len(),
            sorts(keys@, p@),
            goal == p@.map_values(
                |i: usize| row_json(rv[i as int].prop@, rv[i as int].label@, rv[i as int].value@),
            ),
            crate::text::vecs_view(parts@) == goal.take(j as int),
        decreases p@.len() - j,
    {
        proof {
            assert(p@[j as int] < keys@.len());
        }
        let e = &rows[p[j]];
        let mut item: Vec<char> = Vec::new();
        push_lit(&mut item, "{\"prop\":");
        push_json(&mut item, e.prop.as_str());
        push_lit(&mut item, ",\"type\":");
        push_json(&mut item, e.label.as_str());
        push_lit(&mut item, ",\"value\":");
        push_json(&mut item, e.value.as_str());
        push_lit(&mut item, "}");
        let ghost before = parts@;
        parts.push(item);
        proof {
            assert(item@ =~= row_json(e.prop@, e.label@, e.value@));
            assert(crate::text::vecs_view(parts@) =~= crate::text::vecs_view(before).push(item@));
            assert(crate::text::vecs_view(parts@) =~= goal.take(j + 1));
        }
        j += 1;
    }
    let mut out: Vec<char> = Vec::new();
    push_lit(&mut out, "{\"name\":");
    push_json(&mut out, name);
    push_lit(&mut out, ",\"count\":");
    push_dec(&mut out, rows.len() as u128);
    push_lit(&mut out, ",\"props\":[");
    push_joined(&mut out, &parts);
    push_lit(&mut out, "]}");
    proof {
        assert(goal.take(j as int) =~= goal);
        assert(out@ =~= record_json(name@, rows@, p@));
    }
    string_of(out.as_slice())
}

// ---- records of a class ----------------------------------------------------

/// The text behind every `0x` at its start.
pub open spec fn without_hex_marks(s: Seq<char>) -> Seq<char>
    decreases s.len(),
{
    if s.len() >= 2 && s[0] == '0' && s[1] == 'x' {
        without_hex_marks(s.skip(2))
    } else {
        s
    }
}

/// The class key of the record with that id.
pub open spec fn key_of_record(records: Seq<Record>, id: u64, i: int) -> Option<u32>
    decreases records.len() - i,
{
    if i >= records.len() {
        None
    } else if records[i].id == id {
        Some(records[i].type_key)
    } else {
        key_of_record(records, id, i + 1)
    }
}

/// The class key that a request selects: by class name, by a sample record, or
/// by number.
pub open spec fn selected_key(
    records: Seq<Record>,
    class: Option<Seq<char>>,
    like: Option<Seq<char>>,
    key: Option<Seq<char>>,
) -> Option<u32> {
    match class {
        Some(c) => Some(type_key_of(c)),
        None => match like {
            Some(l) => key_of_record(records, id_of(l), 0),
            None => match key {
                Some(k) => match unsigned_within(without_hex_marks(k), 16, u32::MAX as nat) {
                    Some(n) => Some(n as u32),
                    None => None,
                },
                None => None,
            },
        },
    }
}

/// The names of the first `n` records with that class key.
pub open spec fn names_with_key(
    records: Seq<Record>,
    entries: Seq<(u64, Seq<char>)>,
    key: u32,
    n: nat,
) -> Seq<Seq<char>>
    decreases n,
{
    if n == 0 {
        Seq::empty()
    } else {
        let before = names_with_key(records, entries, key, (n - 1) as nat);
        match name_of(entries, records[n - 1].id) {
            Some(s) if records[n - 1].type_key == key => before.push(s),
            _ => before,
        }
    }
}

pub open spec fn class_list_json(key: u32, l: Seq<Seq<char>>) -> Seq<char> {
    "{\"mode\":\"list\",\"type_key\":\""@ + hex_lower(key as nat, 8) + "\",\"total\":"@ + dec(
        l.len(),
    ) + ",\"records\":["@ + json_list(first(l, 500)) + "]}"@
}

/// A class key with its count and the name of one of its records.
pub struct KeyCountV {
    pub key: u32,
    pub count: nat,
    pub example: Option<Seq<char>>,
}

pub open spec fn key_tallies_view(v: Seq<KeyTally>) -> Seq<KeyCountV> {
    v.map_values(
        |t: KeyTally|
            KeyCountV { key: t.key, count: t.count as nat, example: opt_view(t.example) },
    )
}

pub open spec fn key_index(t: Seq<KeyCountV>, key: u32, i: int) -> int
    decreases t.len() - i,
{
    if i >= t.len() {
        t.len() as int
    } else if t[i].key == key {
        i
    } else {
        key_index(t, key, i + 1)
    }
}

/// The counts after one more record.
pub open spec fn key_counted(t: Seq<KeyCountV>, key: u32, name: Option<Seq<char>>) -> Seq<
    KeyCountV,
> {
    let k = key_index(t, key, 0);
    if k < t.len() {
        t.update(
            k,
            KeyCountV {
                key,
                count: t[k].count + 1,
                example: if t[k].example is Some {
                    t[k].example
                } else {
                    name
                },
            },
        )
    } else {
        t.push(KeyCountV { key, count: 1, example: name })
    }
}

/// How many of the first `n` records each class has.
pub open spec fn class_counts(
    records: Seq<Record>,
    entries: Seq<(u64, Seq<char>)>,
    n: nat,
) -> Seq<KeyCountV>
    decreases n,
{
    if n == 0 {
        Seq::empty()
    } else {
        key_counted(
            class_counts(records, entries, (n - 1) as nat),
            records[n - 1].type_key,
            name_of(entries, records[n - 1].id),
        )
    }
}

pub open spec fn class_json(t: KeyCountV) -> Seq<char> {
    "{\"type_key\":\""@ + hex_lower(t.key as nat, 8) + "\",\"count\":"@ + dec(t.count)
        + ",\"example\":"@ + json_string(
        match t.example {
            Some(s) => s,
            None => Seq::empty(),
        },
    ) + "}"@
}

pub open spec fn histogram_json(t: Seq<KeyCountV>, p: Seq<usize>) -> Seq<char> {
    "{\"mode\":\"histogram\",\"classes\":["@ + joined(
        p.map_values(|i: usize| class_json(t[i as int])),
        ","@,
    ) + "]}"@
}

/// Is the text the list of the records of a class?
pub open spec fn answers_class(
    records: Seq<Record>,
    entries: Seq<(u64, Seq<char>)>,
    key: u32,
    r: Seq<char>,
) -> bool {
    exists|l: Seq<Seq<char>>| #[trigger]
        sorted_list(names_with_key(records, entries, key, records.len()), l) && r
            == class_list_json(key, l)
}

/// Is the text the histogram of all classes, the most frequent first?
pub open spec fn answers_histogram(
    records: Seq<Record>,
    entries: Seq<(u64, Seq<char>)>,
    r: Seq<char>,
) -> bool {
    exists|t: Seq<KeyTally>, p: Seq<usize>|
        key_tallies_view(t) == class_counts(records, entries, records.len()) && #[trigger] sorts(
            t,
            p,
        ) && r == histogram_json(class_counts(records, entries, records.len()), p)
}

/// Is the text the answer for a class, or the histogram of all classes where
/// none is selected?
pub open spec fn answers_records(
    records: Seq<Record>,
    entries: Seq<(u64, Seq<char>)>,
    selected: Option<u32>,
    r: Seq<char>,
) -> bool {
    match selected {
        Some(key) => answers_class(records, entries, key, r),
        None => answers_histogram(records, entries, r),
    }
}

fn strip_hex_marks<'a>(s: &'a [char]) -> (r: &'a [char])
    ensures
        r@ == without_hex_marks(s@),
    decreases s@.len(),
{
    if s.len() >= 2 && s[0] == '0' && s[1] == 'x' {
        proof {
            assert(s@.subrange(2, s@.len() as int) =~= s@.skip(2));
        }
        strip_hex_marks(slice_subrange(s, 2, s.len()))
    } else {
        s
    }
}

/// The class key that a request selects.
pub fn select_key(
    records: &Vec<Record>,
    class: &Option<String>,
    like: &Option<String>,
    key: &Option<String>,
) -> (r: Option<u32>)
    ensures
        r == selected_key(records@, opt_view(*class), opt_view(*like), opt_view(*key)),
{
    if let Some(c) = class {
        return Some(record_type_key(c.as_str()));
    }
    if let Some(l) = like {
        let id: u64 = tweak_db_id(l.as_str());
        let mut i: usize = 0;
        while i < records.len()
            invariant
                i <= records@.len(),
                selected_key(records@, opt_view(*class), opt_view(*like), opt_view(*key))
                    == key_of_record(records@, id, 0),
                key_of_record(records@, id, 0) == key_of_record(records@, id, i as int),
            decreases records@.len() - i,
        {
            if records[i].id == id {
                return Some(records[i].type_key);
            }
            i += 1;
        }
        return None;
    }
    if let Some(k) = key {
        let v = chars_of(k.as_str());
        return match parse_unsigned(strip_hex_marks(v.as_slice()), 16, u32::MAX as u64) {
            Some(n) => Some(n as u32),
            None => None,
        };
    }
    None
}

fn list_class(records: &Vec<Record>, names: &NameDb, key: u32) -> (r: String)
    ensures
        answers_class(records@, names@.entries, key, r@),
{
    let mut texts: Vec<String> = Vec::new();
    let mut i: usize = 0;
    proof {
        assert(strings_view(texts@) =~= Seq::empty());
    }
    while i < records.len()
        invariant
            i <= records@.len(),
            strings_view(texts@) == names_with_key(records@, names@.entries, key, i as nat),
        decreases records@.len() - i,
    {
        if records[i].type_key == key {
            if let Some(s) = names.resolve(records[i].id) {
                let ghost before = texts@;
                texts.push(s.to_owned());
                proof {
                    assert(strings_view(texts@) =~= strings_view(before).push(s@));
                }
            }
        }
        i += 1;
    }
    let l = sort_texts(texts);
    let mut out: Vec<char> = Vec::new();
    push_lit(&mut out, "{\"mode\":\"list\",\"type_key\":\"");
    push_hex_lower(&mut out, key as u64, 8);
    push_lit(&mut out, "\",\"total\":");
    push_dec(&mut out, l.len() as u128);
    push_lit(&mut out, ",\"records\":[");
    push_json_list(&mut out, &l, 500);
    push_lit(&mut out, "]}");
    proof {
        let lv = strings_view(l@);
        assert(lv.len() == l@.len());
        assert(out@ =~= class_list_json(key, lv));
        assert(sorted_list(names_with_key(records@, names@.entries, key, records@.len()), lv));
    }
    string_of(out.as_slice())
}

fn find_key(v: &Vec<KeyTally>, key: u32) -> (r: usize)
    ensures
        r == key_index(key_tallies_view(v@), key, 0),
        r <= v@.len(),
        r < v@.len() ==> v@[r as int].key == key,
{
    let ghost t = key_tallies_view(v@);
    let mut i: usize = 0;
    while i < v.len()
        invariant
            i <= v@.len(),
            t == key_tallies_view(v@),
            key_index(t, key, 0) == key_index(t, key, i as int),
        decreases v@.len() - i,
    {
        if v[i].key == key {
            return i;
        }
        i += 1;
    }
    i
}

fn name_copy(names: &NameDb, id: u64) -> (r: Option<String>)
    ensures
        opt_view(r) == name_of(names@.entries, id),
{
    match names.resolve(id) {
        Some(s) => Some(s.to_owned()),
        None => None,
    }
}

fn count_classes(records: &Vec<Record>, names: &NameDb) -> (r: Vec<KeyTally>)
    ensures
        key_tallies_view(r@) == class_counts(records@, names@.entries, records@.len()),
{
    let mut out: Vec<KeyTally> = Vec::new();
    let mut i: usize = 0;
    proof {
        assert(key_tallies_view(out@) =~= Seq::empty());
    }
    while i < records.len()
        invariant
            i <= records@.len(),
            key_tallies_view(out@) == class_counts(records@, names@.entries, i as nat),
            forall|k: int| 0 <= k < out@.len() ==> (#[trigger] out@[k]).count <= i,
        decreases records@.len() - i,
    {
        let key: u32 = records[i].type_key;
        let k: usize = find_key(&out, key);
        let name = name_copy(names, records[i].id);
        let ghost before = out@;
        let ghost nv = opt_view(name);
        if k < out.len() {
            let n: u64 = out[k].count;
            let old = match &out[k].example {
                Some(s) => Some(s.clone()),
                None => None,
            };
            let example = if old.is_some() {
                old
            } else {
                name
            };
            out[k] = KeyTally { key, count: n + 1, example };
            proof {
                assert(key_tallies_view(out@) =~= key_counted(key_tallies_view(before), key, nv));
            }
        } else {
            out.push(KeyTally { key, count: 1, example: name });
            proof {
                assert(key_tallies_view(out@) =~= key_counted(key_tallies_view(before), key, nv));
            }
        }
        i += 1;
    }
    out
}

fn class_histogram(records: &Vec<Record>, names: &NameDb) -> (r: String)
    ensures
        answers_histogram(records@, names@.entries, r@),
{
    let t = count_classes(records, names);
    let p = sorted_positions(&t);
    let ghost tv = key_tallies_view(t@);
    let ghost goal = p@.map_values(|i: usize| class_json(tv[i as int]));
    let mut parts: Vec<Vec<char>> = Vec::new();
    let mut i: usize = 0;
    while i < p.len()
        invariant
            i <= p@.len(),
            tv == key_tallies_view(t@),
            sorts(t@, p@),
            goal == p@.map_values(|i: usize| class_json(tv[i as int])),
            crate::text::vecs_view(parts@) == goal.take(i as int),
        decreases p@.len() - i,
    {
        proof {
            assert(p@[i as int] < t@.len());
        }
        let e = &t[p[i]];
        let mut item: Vec<char> = Vec::new();
        push_lit(&mut item, "{\"type_key\":\"");
        push_hex_lower(&mut item, e.key as u64, 8);
        push_lit(&mut item, "\",\"count\":");
        push_dec(&mut item, e.count as u128);
        push_lit(&mut item, ",\"example\":");
        match &e.example {
            Some(s) => {
                push_json(&mut item, s.as_str());
            },
            None => {
                proof {
                    reveal_strlit("");
                    assert(""@ =~= Seq::<char>::empty());
                }
                push_json(&mut item, "");
            },
        }
        push_lit(&mut item, "}");
        let ghost before = parts@;
        parts.push(item);
        proof {
            assert(item@ =~= class_json(tv[p@[i as int] as int]));
            assert(crate::text::vecs_view(parts@) =~= crate::text::vecs_view(before).push(item@));
            assert(crate::text::vecs_view(parts@) =~= goal.take(i + 1));
        }
        i += 1;
    }
    let mut out: Vec<char> = Vec::new();
    push_lit(&mut out, "{\"mode\":\"histogram\",\"classes\":[");
    push_joined(&mut out, &parts);
    push_lit(&mut out, "]}");
    proof {
        assert(goal.take(i as int) =~= goal);
        assert(out@ =~= histogram_json(tv, p@));
    }
    string_of(out.as_slice())
}

/// The records of a class, or the histogram of all classes.
pub fn api_records(
    db: &TweakDb,
    names: &NameDb,
    class: &Option<String>,
    like: &Option<String>,
    key: &Option<String>,
) -> (r: String)
    ensures
        answers_records(
            db.records@,
            names@.entries,
            selected_key(db.records@, opt_view(*class), opt_view(*like), opt_view(*key)),
            r@,
        ),
{
    match select_key(&db.records, class, like, key) {
        Some(k) => list_class(&db.records, names, k),
        None => class_histogram(&db.records, names),
    }
}

// ---- applying changes ------------------------------------------------------

/// The operations of a tweak document that was sent, or the answer that refuses
/// it.
pub open spec fn sent_ops(body: Seq<char>) -> Result<Seq<OpV>, Seq<char>> {
    match document(body) {
        Err(e) => Err(error_json("YAML: "@ + e)),
        Ok(root) => match interpreted(root, Seq::empty()) {
            Err(e) => Err(error_json(e)),
            Ok(ops) => Ok(ops),
        },
    }
}

/// Reads the operations of a tweak document that was sent.
pub fn read_ops(body: &str) -> (r: Result<Vec<Op>, String>)
    ensures
        ops_outcome(r) == sent_ops(body@),
{
    match parse(body) {
        Err(e) => {
            let mut m: Vec<char> = Vec::new();
            push_lit(&mut m, "YAML: ");
            push_lit(&mut m, e.as_str());
            proof {
                assert(m@ =~= "YAML: "@ + e@);
            }
            let t = string_of(m.as_slice());
            Err(jerror(t.as_str()))
        },
        Ok(root) => {
            proof {
                reveal_strlit("");
                assert(""@ =~= Seq::<char>::empty());
            }
            match interpret(&root) {
                Err(e) => Err(jerror(e.as_str())),
                Ok(ops) => Ok(ops),
            }
        },
    }
}

/// What came of one edit.
pub struct EditResult {
    pub flat: String,
    pub ok: bool,
    pub detail: String,
}

pub open spec fn result_json(e: EditResult) -> Seq<char> {
    "{\"flat\":"@ + json_string(e.flat@) + ",\"ok\":"@ + bool_text(e.ok) + ",\"detail\":"@
        + json_string(e.detail@) + "}"@
}

pub open spec fn results_json(v: Seq<EditResult>) -> Seq<char> {
    joined(v.map_values(|e: EditResult| result_json(e)), ","@)
}

/// How many of the edits went well, or did not.
pub open spec fn result_count(v: Seq<EditResult>, ok: bool) -> nat
    decreases v.len(),
{
    if v.len() == 0 {
        0
    } else {
        result_count(v.drop_last(), ok) + (if v.last().ok == ok {
            1nat
        } else {
            0
        })
    }
}

fn count_results(v: &Vec<EditResult>, ok: bool) -> (r: usize)
    ensures
        r == result_count(v@, ok),
{
    let mut n: usize = 0;
    let mut i: usize = 0;
    while i < v.len()
        invariant
            i <= v@.len(),
            n <= i,
            n == result_count(v@.take(i as int), ok),
        decreases v@.len() - i,
    {
        proof {
            assert(v@.take(i + 1).drop_last() =~= v@.take(i as int));
        }
        if v[i].ok == ok {
            n += 1;
        }
        i += 1;
    }
    proof {
        assert(v@.take(i as int) =~= v@);
    }
    n
}

/// Is the result to be written? Not on a check, and not where an edit failed.
pub fn must_write(v: &Vec<EditResult>, check_only: bool) -> (r: bool)
    ensures
        r == (!check_only && result_count(v@, false) == 0),
{
    !check_only && count_results(v, false) == 0
}

pub open spec fn apply_json(v: Seq<EditResult>, written: Option<(Seq<char>, nat)>) -> Seq<char> {
    let head = "{\"ok\":"@ + dec(result_count(v, true)) + ",\"fail\":"@ + dec(
        result_count(v, false),
    );
    match written {
        None => head + ",\"wrote\":false,\"results\":["@ + results_json(v) + "]}"@,
        Some((out, bytes)) => head + ",\"wrote\":true,\"out\":"@ + json_string(out)
            + ",\"bytes\":"@ + dec(bytes) + ",\"results\":["@ + results_json(v) + "]}"@,
    }
}

/// The report on a set of edits: `written` holds the file and its size where
/// one was written.
fn apply_report(v: &Vec<EditResult>, written: &Option<(String, usize)>) -> (r: String)
    ensures
        r@ == apply_json(
            v@,
            match *written {
                Some((out, bytes)) => Some((out@, bytes as nat)),
                None => None,
            },
        ),
{
    let ghost goal = v@.map_values(|e: EditResult| result_json(e));
    let mut parts: Vec<Vec<char>> = Vec::new();
    let mut i: usize = 0;
    while i < v.len()
        invariant
            i <= v@.len(),
            goal == v@.map_values(|e: EditResult| result_json(e)),
            crate::text::vecs_view(parts@) == goal.take(i as int),
        decreases v@.len() - i,
    {
        let mut item: Vec<char> = Vec::new();
        push_lit(&mut item, "{\"flat\":");
        push_json(&mut item, v[i].flat.as_str());
        push_lit(&mut item, ",\"ok\":");
        push_bool(&mut item, v[i].ok);
        push_lit(&mut item, ",\"detail\":");
        push_json(&mut item, v[i].detail.as_str());
        push_lit(&mut item, "}");
        let ghost before = parts@;
        parts.push(item);
        proof {
            assert(item@ =~= result_json(v@[i as int]));
            assert(crate::text::vecs_view(parts@) =~= crate::text::vecs_view(before).push(item@));
            assert(crate::text::vecs_view(parts@) =~= goal.take(i + 1));
        }
        i += 1;
    }
    proof {
        assert(goal.take(i as int) =~= goal);
    }
    let mut out: Vec<char> = Vec::new();
    push_lit(&mut out, "{\"ok\":");
    push_dec(&mut out, count_results(v, true) as u128);
    push_lit(&mut out, ",\"fail\":");
    push_dec(&mut out, count_results(v, false) as u128);
    match written {
        None => {
            push_lit(&mut out, ",\"wrote\":false,\"results\":[");
        },
        Some((path, bytes)) => {
            push_lit(&mut out, ",\"wrote\":true,\"out\":");
            push_json(&mut out, path.as_str());
            push_lit(&mut out, ",\"bytes\":");
            push_dec(&mut out, *bytes as u128);
            push_lit(&mut out, ",\"results\":[");
        },
    }
    push_joined(&mut out, &parts);
    push_lit(&mut out, "]}");
    proof {
        assert(out@ =~= apply_json(
            v@,
            match *written {
                Some((out, bytes)) => Some((out@, bytes as nat)),
                None => None,
            },
        ));
    }
    string_of(out.as_slice())
}

/// What came of an edit of the model: it was applied to a flat of that type, there
/// is no such flat, or it cannot be edited so.
pub enum SetOutcome {
    Applied(String),
    NotFound,
    NotEditable { ty: String, reason: String },
}

/// What is said of an edit: whether it went well, and the detail.
pub open spec fn outcome_text(o: SetOutcome) -> (bool, Seq<char>) {
    match o {
        SetOutcome::Applied(ty) => (true, ty@),
        SetOutcome::NotFound => (false, "flat inexistente"@),
        SetOutcome::NotEditable { ty, reason } => (false, ty@ + ": "@ + reason@),
    }
}

/// The result of an edit of a flat.
pub fn edit_result(flat: &str, o: &SetOutcome) -> (r: EditResult)
    ensures
        r.flat@ == flat@,
        (r.ok, r.detail@) == outcome_text(*o),
{
    match o {
        SetOutcome::Applied(ty) => EditResult {
            flat: flat.to_owned(),
            ok: true,
            detail: ty.clone(),
        },
        SetOutcome::NotFound => EditResult {
            flat: flat.to_owned(),
            ok: false,
            detail: "flat inexistente".to_owned(),
        },
        SetOutcome::NotEditable { ty, reason } => {
            let mut d: Vec<char> = Vec::new();
            push_lit(&mut d, ty.as_str());
            push_lit(&mut d, ": ");
            push_lit(&mut d, reason.as_str());
            proof {
                assert(d@ =~= ty@ + ": "@ + reason@);
            }
            EditResult { flat: flat.to_owned(), ok: false, detail: string_of(d.as_slice()) }
        },
    }
}

/// What is known of a request to apply changes: what came of loading the model,
/// of reading a list of edits, the results of the changes, the file that is
/// written, and what came of writing it.
pub struct ApplyState {
    pub is_yaml: bool,
    pub check_only: bool,
    pub model: Option<Result<(), String>>,
    pub edits: Option<Result<(), String>>,
    pub results: Option<Vec<EditResult>>,
    pub out: String,
    pub written: Option<Result<usize, String>>,
}

/// What is to be done next for such a request.
pub enum ApplyStep {
    /// Load the model from the database.
    LoadModel,
    /// Apply the operations of a tweak document to the model.
    ApplyOps(Vec<Op>),
    /// Read the list of edits.
    ReadEdits,
    /// Apply the edits to the model.
    ApplyEdits,
    /// Write the model to the file.
    Write,
    Answer(String),
}

pub enum ApplyStepV {
    LoadModel,
    ApplyOps(Seq<OpV>),
    ReadEdits,
    ApplyEdits,
    Write,
    Answer(Seq<char>),
}

impl View for ApplyStep {
    type V = ApplyStepV;

    open spec fn view(&self) -> ApplyStepV {
        match self {
            ApplyStep::LoadModel => ApplyStepV::LoadModel,
            ApplyStep::ApplyOps(ops) => ApplyStepV::ApplyOps(ops_view(ops@)),
            ApplyStep::ReadEdits => ApplyStepV::ReadEdits,
            ApplyStep::ApplyEdits => ApplyStepV::ApplyEdits,
            ApplyStep::Write => ApplyStepV::Write,
            ApplyStep::Answer(s) => ApplyStepV::Answer(s@),
        }
    }
}

/// The step once the changes were applied: nothing is written on a check, nor
/// where one of them failed.
pub open spec fn report_step(st: ApplyState, v: Seq<EditResult>) -> ApplyStepV {
    if st.check_only || result_count(v, false) > 0 {
        ApplyStepV::Answer(apply_json(v, None))
    } else {
        match st.written {
            None => ApplyStepV::Write,
            Some(Err(e)) => ApplyStepV::Answer(error_json("gravando "@ + st.out@ + ": "@ + e@)),
            Some(Ok(n)) => ApplyStepV::Answer(apply_json(v, Some((st.out@, n as nat)))),
        }
    }
}

/// The next step of a request to apply changes.
pub open spec fn apply_step(body: Seq<char>, st: ApplyState) -> ApplyStepV {
    match st.model {
        None => ApplyStepV::LoadModel,
        Some(Err(e)) => ApplyStepV::Answer(error_json("modelo: "@ + e@)),
        Some(Ok(_)) => if st.is_yaml {
            match sent_ops(body) {
                Err(a) => ApplyStepV::Answer(a),
                Ok(ops) => match st.results {
                    None => ApplyStepV::ApplyOps(ops),
                    Some(v) => report_step(st, v@),
                },
            }
        } else {
            match st.edits {
                None => ApplyStepV::ReadEdits,
                Some(Err(e)) => ApplyStepV::Answer(error_json(e@)),
                Some(Ok(_)) => match st.results {
                    None => ApplyStepV::ApplyEdits,
                    Some(v) => report_step(st, v@),
                },
            }
        },
    }
}

fn end_apply(st: &ApplyState, v: &Vec<EditResult>) -> (r: ApplyStep)
    ensures
        r@ == report_step(*st, v@),
{
    if !must_write(v, st.check_only) {
        return ApplyStep::Answer(apply_report(v, &None));
    }
    match &st.written {
        None => ApplyStep::Write,
        Some(Err(e)) => {
            let mut m: Vec<char> = Vec::new();
            push_lit(&mut m, "gravando ");
            push_lit(&mut m, st.out.as_str());
            push_lit(&mut m, ": ");
            push_lit(&mut m, e.as_str());
            proof {
                assert(m@ =~= "gravando "@ + st.out@ + ": "@ + e@);
            }
            let t = string_of(m.as_slice());
            ApplyStep::Answer(jerror(t.as_str()))
        },
        Some(Ok(n)) => ApplyStep::Answer(apply_report(v, &Some((st.out.clone(), *n)))),
    }
}

/// Decides the next step of a request to apply changes.
pub fn api_apply(body: &str, st: &ApplyState) -> (r: ApplyStep)
    ensures
        r@ == apply_step(body@, *st),
{
    match &st.model {
        None => {
            return ApplyStep::LoadModel;
        },
        Some(Err(e)) => {
            let mut m: Vec<char> = Vec::new();
            push_lit(&mut m, "modelo: ");
            push_lit(&mut m, e.as_str());
            proof {
                assert(m@ =~= "modelo: "@ + e@);
            }
            let t = string_of(m.as_slice());
            return ApplyStep::Answer(jerror(t.as_str()));
        },
        Some(Ok(_)) => {},
    }
    if st.is_yaml {
        match read_ops(body) {
            Err(a) => ApplyStep::Answer(a),
            Ok(ops) => match &st.results {
                None => ApplyStep::ApplyOps(ops),
                Some(v) => end_apply(st, v),
            },
        }
    } else {
        match &st.edits {
            None => ApplyStep::ReadEdits,
            Some(Err(e)) => ApplyStep::Answer(jerror(e.as_str())),
            Some(Ok(_)) => match &st.results {
                None => ApplyStep::ApplyEdits,
                Some(v) => end_apply(st, v),
            },
        }
    }
}

/// A file is only written, and only said to be, where it is no check and every
/// change went well.
pub proof fn only_whole_changes_are_written(body: Seq<char>, st: ApplyState)
    ensures
        apply_step(body, st) is Write ==> st.results is Some && !st.check_only && result_count(
            (st.results->0)@,
            false,
        ) == 0,
        st.model is Some && st.model->0 is Ok && (st.is_yaml ==> sent_ops(body) is Ok) && (
        !st.is_yaml ==> st.edits is Some && st.edits->0 is Ok) && st.results is Some && (
        st.check_only || result_count((st.results->0)@, false) > 0) ==> apply_step(body, st)
            == ApplyStepV::Answer(apply_json((st.results->0)@, None)),
{
}

// ---- installing ------------------------------------------------------------

/// What is to be done next to install a patched file.
pub enum InstallStep {
    /// Check the patched file.
    Check,
    /// Keep a copy of the original first.
    SavePristine,
    /// Copy the patched file over the target.
    Copy,
    /// Answer, and stop.
    Answer(String),
}

/// What is known of an installation so far. `checked` holds what the check of
/// the patched file said, `saved` and `copied` what came of the copies.
pub struct InstallState {
    pub patched: bool,
    pub target: bool,
    pub checked: Option<Result<(), String>>,
    pub pristine: bool,
    pub saved: Option<Result<(), String>>,
    pub copied: Option<Result<(), String>>,
}

pub enum InstallStepV {
    Check,
    SavePristine,
    Copy,
    Answer(Seq<char>),
}

impl View for InstallStep {
    type V = InstallStepV;

    open spec fn view(&self) -> InstallStepV {
        match self {
            InstallStep::Check => InstallStepV::Check,
            InstallStep::SavePristine => InstallStepV::SavePristine,
            InstallStep::Copy => InstallStepV::Copy,
            InstallStep::Answer(s) => InstallStepV::Answer(s@),
        }
    }
}

/// The pristine copy is made before the target is ever overwritten, and only a
/// patched file that was found valid is installed.
pub open spec fn install_step_of(st: InstallState) -> InstallStepV {
    if !st.patched {
        InstallStepV::Answer(error_json("nada para instalar — aplique um tweak primeiro"@))
    } else if !st.target {
        InstallStepV::Answer(error_json("alvo do jogo não encontrado (CP77_DIR?)"@))
    } else {
        match st.checked {
            None => InstallStepV::Check,
            Some(Err(e)) => InstallStepV::Answer(
                error_json("arquivo a instalar inválido: "@ + e@),
            ),
            Some(Ok(_)) => match st.saved {
                Some(Err(e)) => InstallStepV::Answer(error_json("salvando pristino: "@ + e@)),
                None if !st.pristine => InstallStepV::SavePristine,
                _ => match st.copied {
                    None => InstallStepV::Copy,
                    Some(Ok(_)) => InstallStepV::Answer(
                        ok_json("instalado — lance o jogo e valide; 'Desfazer' volta ao vanilla"@),
                    ),
                    Some(Err(e)) => InstallStepV::Answer(error_json("instalando: "@ + e@)),
                },
            },
        }
    }
}

fn failed(what: &str, e: &String) -> (r: InstallStep)
    ensures
        r@ == InstallStepV::Answer(error_json(what@ + e@)),
{
    let mut m: Vec<char> = Vec::new();
    push_lit(&mut m, what);
    push_lit(&mut m, e.as_str());
    proof {
        assert(m@ =~= what@ + e@);
    }
    let s = string_of(m.as_slice());
    InstallStep::Answer(jerror(s.as_str()))
}

/// The next step of an installation.
pub fn api_install(st: &InstallState) -> (r: InstallStep)
    ensures
        r@ == install_step_of(*st),
{
    if !st.patched {
        return InstallStep::Answer(jerror("nada para instalar — aplique um tweak primeiro"));
    }
    if !st.target {
        return InstallStep::Answer(jerror("alvo do jogo não encontrado (CP77_DIR?)"));
    }
    match &st.checked {
        None => {
            return InstallStep::Check;
        },
        Some(Err(e)) => {
            return failed("arquivo a instalar inválido: ", e);
        },
        Some(Ok(_)) => {},
    }
    match &st.saved {
        Some(Err(e)) => {
            return failed("salvando pristino: ", e);
        },
        None => {
            if !st.pristine {
                return InstallStep::SavePristine;
            }
        },
        Some(Ok(_)) => {},
    }
    match &st.copied {
        None => InstallStep::Copy,
        Some(Ok(_)) => InstallStep::Answer(
            jok("instalado — lance o jogo e valide; 'Desfazer' volta ao vanilla"),
        ),
        Some(Err(e)) => failed("instalando: ", e),
    }
}

/// The answer to an uninstallation: `copied` holds what came of the copy, which
/// is only made where a pristine copy was kept.
pub fn api_uninstall(pristine: bool, copied: &Option<Result<(), String>>) -> (r: InstallStep)
    ensures
        r@ == (if !pristine {
            InstallStepV::Answer(
                error_json("sem pristino — nada foi instalado por esta ferramenta"@),
            )
        } else {
            match *copied {
                None => InstallStepV::Copy,
                Some(Ok(_)) => InstallStepV::Answer(ok_json("vanilla restaurado"@)),
                Some(Err(e)) => InstallStepV::Answer(error_json("restaurando: "@ + e@)),
            }
        }),
{
    if !pristine {
        return InstallStep::Answer(
            jerror("sem pristino — nada foi instalado por esta ferramenta"),
        );
    }
    match copied {
        None => InstallStep::Copy,
        Some(Ok(_)) => InstallStep::Answer(jok("vanilla restaurado")),
        Some(Err(e)) => failed("restaurando: ", e),
    }
}

/// The answer to a backup into the file `path`.
pub fn api_backup(target: bool, path: &str, copied: &Option<Result<(), String>>) -> (r: InstallStep)
    ensures
        r@ == (if !target {
            InstallStepV::Answer(error_json("alvo não existe"@))
        } else {
            match *copied {
                None => InstallStepV::Copy,
                Some(Ok(_)) => InstallStepV::Answer(ok_json("backup: "@ + path@)),
                Some(Err(e)) => InstallStepV::Answer(error_json("backup: "@ + e@)),
            }
        }),
{
    if !target {
        return InstallStep::Answer(jerror("alvo não existe"));
    }
    match copied {
        None => InstallStep::Copy,
        Some(Ok(_)) => {
            let mut m: Vec<char> = Vec::new();
            push_lit(&mut m, "backup: ");
            push_lit(&mut m, path);
            proof {
                assert(m@ =~= "backup: "@ + path@);
            }
            let s = string_of(m.as_slice());
            InstallStep::Answer(jok(s.as_str()))
        },
        Some(Err(e)) => failed("backup: ", e),
    }
}

/// The target is only overwritten once a pristine copy of it exists or was
/// made, and only by a file that was found valid.
pub proof fn install_copies_only_over_a_saved_target(st: InstallState)
    requires
        install_step_of(st) is Copy,
    ensures
        st.pristine || st.saved is Some && st.saved->0 is Ok,
        st.checked is Some && st.checked->0 is Ok,
        st.patched && st.target,
{
}

} // verus!
