//! From ids to names: the list of all record, flat and query names.
use std::collections::HashMap;
use vstd::prelude::*;

use crate::cursor::{int_at, string_at, Cursor};
use crate::encode::{lowercase, to_lowercase};
use crate::hashes::{id_of, tweak_db_id};
use crate::text::{chars_of, find, next_occurrence};

verus! {

pub const STR_MAGIC: u32 = 0x0BB1_DB57;

/// The names in their order, each id once.
pub struct NameDb {
    names: Vec<(u64, String)>,
    by_id: HashMap<u64, usize>,
    pub records: usize,
    pub flats: usize,
    pub queries: usize,
}

pub open spec fn entries_view(v: Seq<(u64, String)>) -> Seq<(u64, Seq<char>)> {
    v.map_values(|e: (u64, String)| (e.0, e.1@))
}

/// Where the id first occurs from `i` on, or the length.
pub open spec fn id_index(entries: Seq<(u64, Seq<char>)>, id: u64, i: int) -> int
    decreases entries.len() - i,
{
    if i >= entries.len() {
        entries.len() as int
    } else if entries[i].0 == id {
        i
    } else {
        id_index(entries, id, i + 1)
    }
}

/// The name of an id.
pub open spec fn name_of(entries: Seq<(u64, Seq<char>)>, id: u64) -> Option<Seq<char>> {
    let i = id_index(entries, id, 0);
    if 0 <= i < entries.len() {
        Some(entries[i].1)
    } else {
        None
    }
}

proof fn lemma_id_index(entries: Seq<(u64, Seq<char>)>, id: u64, i: int)
    requires
        0 <= i <= entries.len(),
    ensures
        i <= id_index(entries, id, i) <= entries.len(),
        forall|k: int| i <= k < id_index(entries, id, i) ==> (#[trigger] entries[k]).0 != id,
        id_index(entries, id, i) < entries.len() ==> entries[id_index(entries, id, i)].0 == id,
    decreases entries.len() - i,
{
    if i < entries.len() && entries[i].0 != id {
        lemma_id_index(entries, id, i + 1);
    }
}

/// Each id once.
pub open spec fn distinct_ids(entries: Seq<(u64, Seq<char>)>) -> bool {
    forall|i: int, j: int|
        0 <= i < entries.len() && 0 <= j < entries.len() && i != j ==> (#[trigger] entries[i]).0
            != (#[trigger] entries[j]).0
}

impl View for NameDb {
    type V = NamesV;

    closed spec fn view(&self) -> NamesV {
        NamesV {
            records: self.records as nat,
            flats: self.flats as nat,
            queries: self.queries as nat,
            entries: entries_view(self.names@),
        }
    }
}

impl NameDb {
    #[verifier::type_invariant]
    spec fn inv(self) -> bool {
        &&& distinct_ids(self@.entries)
        &&& forall|id: u64| #[trigger]
            self.by_id@.contains_key(id) ==> self.by_id@[id] < self.names@.len()
                && self.names@[self.by_id@[id] as int].0 == id
        &&& forall|i: int|
            0 <= i < self.names@.len() ==> self.by_id@.contains_key((#[trigger] self.names@[i]).0)
        &&& self.by_id@.len() == self.names@.len()
    }
}

/// The entries after one more name, which counts only where its id is new.
pub open spec fn with_name(entries: Seq<(u64, Seq<char>)>, name: Seq<char>) -> Seq<
    (u64, Seq<char>),
> {
    if name_of(entries, id_of(name)) is Some {
        entries
    } else {
        entries.push((id_of(name), name))
    }
}

/// The entries of `n` names from `pos` on, added to those before; none where a
/// string is cut off.
pub open spec fn names_at(data: Seq<u8>, pos: int, n: nat, before: Seq<(u64, Seq<char>)>) -> Option<
    Seq<(u64, Seq<char>)>,
>
    decreases n,
{
    if n == 0 {
        Some(before)
    } else {
        match string_at(data, pos) {
            Err(_) => None,
            Ok((s, next)) => names_at(data, next, (n - 1) as nat, with_name(before, s)),
        }
    }
}

/// What a list of names holds: the three counts and the entries.
pub struct NamesV {
    pub records: nat,
    pub flats: nat,
    pub queries: nat,
    pub entries: Seq<(u64, Seq<char>)>,
}

/// The list of names in a file: magic, version, three counts, then the names.
pub open spec fn parsed(data: Seq<u8>) -> Result<NamesV, Seq<char>> {
    if data.len() < 4 {
        Err("truncado"@)
    } else if (int_at(data, 0, 4)->Ok_0).0 != STR_MAGIC {
        Err("magic da lista de nomes inválido (esperado 0x0BB1DB57)"@)
    } else if data.len() < 20 {
        Err("truncado"@)
    } else {
        let records = (int_at(data, 8, 4)->Ok_0).0;
        let flats = (int_at(data, 12, 4)->Ok_0).0;
        let queries = (int_at(data, 16, 4)->Ok_0).0;
        match names_at(data, 20, records + flats + queries, Seq::empty()) {
            None => Err("string truncada na lista de nomes"@),
            Some(entries) => Ok(NamesV { records, flats, queries, entries }),
        }
    }
}

/// Does the name contain the text, whatever the case of ASCII letters?
pub open spec fn mentions(name: Seq<char>, needle: Seq<char>) -> bool {
    next_occurrence(lowercase(name), lowercase(needle), 0) is Some
}

/// The entries that contain the text, in their order.
pub open spec fn matching(entries: Seq<(u64, Seq<char>)>, needle: Seq<char>) -> Seq<
    (u64, Seq<char>),
>
    decreases entries.len(),
{
    if entries.len() == 0 {
        Seq::empty()
    } else if mentions(entries.last().1, needle) {
        matching(entries.drop_last(), needle).push(entries.last())
    } else {
        matching(entries.drop_last(), needle)
    }
}

impl NameDb {
    fn empty(records: usize, flats: usize, queries: usize) -> (r: NameDb)
        ensures
            r@.entries == Seq::<(u64, Seq<char>)>::empty(),
            r@.records == records,
            r@.flats == flats,
            r@.queries == queries,
    {
        let names: Vec<(u64, String)> = Vec::new();
        proof {
            assert(entries_view(names@) =~= Seq::empty());
        }
        NameDb { names, by_id: HashMap::new(), records, flats, queries }
    }

    /// Adds a name whose id is new.
    fn with(self, name: String) -> (r: NameDb)
        ensures
            r@ == (NamesV { entries: with_name(self@.entries, name@), ..self@ }),
    {
        let id: u64 = tweak_db_id(name.as_str());
        proof {
            use_type_invariant(&self);
            lemma_id_index(self@.entries, id, 0);
        }
        if self.by_id.contains_key(&id) {
            proof {
                let k = self.by_id@[id] as int;
                assert(self@.entries[k].0 == id);
            }
            return self;
        }
        proof {
            assert forall|k: int| 0 <= k < self@.entries.len() implies (#[trigger] self@.entries[k]).0 != id by {
                assert(self.by_id@.contains_key(self.names@[k].0));
            }
        }
        let ghost old_names = self.names@;
        let ghost old_map = self.by_id@;
        let ghost old_view = self@.entries;
        let NameDb { mut names, mut by_id, records, flats, queries } = self;
        let at: usize = names.len();
        names.push((id, name));
        by_id.insert(id, at);
        proof {
            assert(entries_view(names@) =~= old_view.push((id, name@)));
            assert forall|x: u64| #[trigger] by_id@.contains_key(x) implies by_id@[x]
                < names@.len() && names@[by_id@[x] as int].0 == x by {
                if x != id {
                    assert(old_map.contains_key(x));
                    assert(old_map[x] < old_names.len());
                }
            }
            assert forall|i: int| 0 <= i < names@.len() implies by_id@.contains_key(
                (#[trigger] names@[i]).0,
            ) by {
                if i < old_names.len() {
                    assert(old_map.contains_key(old_names[i].0));
                }
            }
        }
        NameDb { names, by_id, records, flats, queries }
    }

    /// Reads the list of names from its unpacked bytes.
    pub fn load(data: &[u8]) -> (r: Result<NameDb, String>)
        ensures
            match r {
                Ok(db) => parsed(data@) == Ok::<NamesV, Seq<char>>(db@),
                Err(e) => parsed(data@) == Err::<NamesV, Seq<char>>(e@),
            },
    {
        let mut c = Cursor::new(data);
        let magic: u32 = match c.u32() {
            Ok(v) => v,
            Err(_) => {
                return Err("truncado".to_owned());
            },
        };
        if magic != STR_MAGIC {
            return Err("magic da lista de nomes inválido (esperado 0x0BB1DB57)".to_owned());
        }
        if data.len() < 20 {
            return Err("truncado".to_owned());
        }
        match c.u32() {
            Ok(_) => {},
            Err(_) => {
                return Err("truncado".to_owned());
            },
        }
        let records: u32 = match c.u32() {
            Ok(v) => v,
            Err(_) => {
                return Err("truncado".to_owned());
            },
        };
        let flats: u32 = match c.u32() {
            Ok(v) => v,
            Err(_) => {
                return Err("truncado".to_owned());
            },
        };
        let queries: u32 = match c.u32() {
            Ok(v) => v,
            Err(_) => {
                return Err("truncado".to_owned());
            },
        };
        let total: u64 = records as u64 + flats as u64 + queries as u64;
        let mut db = NameDb::empty(records as usize, flats as usize, queries as usize);
        let ghost goal = names_at(data@, 20, total as nat, Seq::empty());
        let mut i: u64 = 0;
        while i < total
            invariant
                i <= total,
                data@.len() >= 20,
                c.data@ == data@,
                total == records + flats + queries,
                (int_at(data@, 0, 4)->Ok_0).0 == STR_MAGIC,
                (int_at(data@, 8, 4)->Ok_0).0 == records,
                (int_at(data@, 12, 4)->Ok_0).0 == flats,
                (int_at(data@, 16, 4)->Ok_0).0 == queries,
                db@.records == records,
                db@.flats == flats,
                db@.queries == queries,
                goal == names_at(data@, 20, total as nat, Seq::empty()),
                goal == names_at(data@, c.pos as int, (total - i) as nat, db@.entries),
            decreases total - i,
        {
            let name = match c.lp_string() {
                Ok(s) => s,
                Err(_) => {
                    return Err("string truncada na lista de nomes".to_owned());
                },
            };
            db = db.with(name);
            i += 1;
        }
        Ok(db)
    }

    /// The name of an id.
    pub fn resolve(&self, id: u64) -> (r: Option<&str>)
        ensures
            match r {
                Some(s) => name_of(self@.entries, id) == Some(s@),
                None => name_of(self@.entries, id) is None,
            },
    {
        proof {
            use_type_invariant(self);
            lemma_id_index(self@.entries, id, 0);
        }
        match self.by_id.get(&id) {
            Some(i) => {
                proof {
                    let k = id_index(self@.entries, id, 0);
                    assert(self@.entries[*i as int].0 == id);
                    assert(k == *i);
                }
                Some(self.names[*i].1.as_str())
            },
            None => {
                proof {
                    let k = id_index(self@.entries, id, 0);
                    if k < self@.entries.len() {
                        assert(self.by_id@.contains_key(self.names@[k].0));
                    }
                }
                None
            },
        }
    }

    /// How many names there are.
    pub fn len(&self) -> (r: usize)
        ensures
            r == self@.entries.len(),
    {
        self.names.len()
    }

    /// The ids and names that contain the text, whatever the case of ASCII
    /// letters.
    pub fn search(&self, needle: &str) -> (r: Vec<(u64, String)>)
        ensures
            entries_view(r@) == matching(self@.entries, needle@),
    {
        let n = chars_of(needle);
        let low = to_lowercase(n.as_slice());
        let ghost all = self@.entries;
        let mut out: Vec<(u64, String)> = Vec::new();
        let mut i: usize = 0;
        proof {
            assert(entries_view(out@) =~= Seq::empty());
        }
        while i < self.names.len()
            invariant
                i <= self.names.len(),
                all == entries_view(self.names@),
                low@ == lowercase(needle@),
                entries_view(out@) == matching(all.take(i as int), needle@),
            decreases self.names.len() - i,
        {
            let name = chars_of(self.names[i].1.as_str());
            let lname = to_lowercase(name.as_slice());
            proof {
                assert(all.take(i + 1).drop_last() =~= all.take(i as int));
                assert(all.take(i + 1).last() == all[i as int]);
            }
            if find(lname.as_slice(), low.as_slice(), 0).is_some() {
                let ghost before = out@;
                let copy = self.names[i].1.clone();
                out.push((self.names[i].0, copy));
                proof {
                    assert(entries_view(out@) =~= entries_view(before).push(all[i as int]));
                }
            }
            i += 1;
        }
        proof {
            assert(all.take(i as int) =~= all);
        }
        out
    }
}

// ---- laws ------------------------------------------------------------------

/// Every name that was listed first under its id is found again by that id.
pub proof fn listed_names_resolve(data: Seq<u8>, pos: int, n: nat, before: Seq<(u64, Seq<char>)>)
    requires
        names_at(data, pos, n, before) is Some,
        distinct_ids(before),
        forall|i: int| 0 <= i < before.len() ==> (#[trigger] before[i]).0 == id_of(before[i].1),
    ensures
        ({
            let all = names_at(data, pos, n, before)->0;
            &&& distinct_ids(all)
            &&& before.is_prefix_of(all)
            &&& forall|i: int|
                0 <= i < all.len() ==> (#[trigger] all[i]).0 == id_of(all[i].1) && name_of(
                    all,
                    id_of(all[i].1),
                ) == Some(all[i].1)
        }),
    decreases n,
{
    let all = names_at(data, pos, n, before)->0;
    if n == 0 {
        assert forall|i: int| 0 <= i < all.len() implies (#[trigger] all[i]).0 == id_of(all[i].1)
            && name_of(all, id_of(all[i].1)) == Some(all[i].1) by {
            lemma_id_index(all, all[i].0, 0);
            let k = id_index(all, all[i].0, 0);
            assert(all[i].0 == id_of(all[i].1));
            if k < i {
                assert(all[k].0 == all[i].0);
            }
            assert(k == i);
        }
    } else {
        let (s, next) = string_at(data, pos)->Ok_0;
        lemma_id_index(before, id_of(s), 0);
        listed_names_resolve(data, next, (n - 1) as nat, with_name(before, s));
    }
}

/// The `n` names from `pos` on, in their order; none where a string is cut off.
pub open spec fn listed(data: Seq<u8>, pos: int, n: nat) -> Option<Seq<Seq<char>>>
    decreases n,
{
    if n == 0 {
        Some(Seq::empty())
    } else {
        match string_at(data, pos) {
            Err(_) => None,
            Ok((s, next)) => match listed(data, next, (n - 1) as nat) {
                None => None,
                Some(rest) => Some(seq![s] + rest),
            },
        }
    }
}

/// Is the name at `i` the first one with that id?
pub open spec fn first_with_id(ns: Seq<Seq<char>>, id: u64, i: int) -> bool {
    &&& 0 <= i < ns.len()
    &&& id_of(ns[i]) == id
    &&& forall|j: int| 0 <= j < i ==> id_of(#[trigger] ns[j]) != id
}

/// The ids of the names.
pub open spec fn ids_listed(ns: Seq<Seq<char>>) -> Set<u64>
    decreases ns.len(),
{
    if ns.len() == 0 {
        Set::empty()
    } else {
        ids_listed(ns.drop_last()).insert(id_of(ns.last()))
    }
}

/// The entries that names give, one after another.
spec fn entries_of(ns: Seq<Seq<char>>) -> Seq<(u64, Seq<char>)>
    decreases ns.len(),
{
    if ns.len() == 0 {
        Seq::empty()
    } else {
        with_name(entries_of(ns.drop_last()), ns.last())
    }
}

proof fn lemma_names_at(data: Seq<u8>, pos: int, n: nat, prev: Seq<Seq<char>>)
    requires
        names_at(data, pos, n, entries_of(prev)) is Some,
    ensures
        listed(data, pos, n) is Some,
        names_at(data, pos, n, entries_of(prev))->0 == entries_of(prev + listed(data, pos, n)->0),
    decreases n,
{
    if n == 0 {
        assert(prev + Seq::<Seq<char>>::empty() =~= prev);
    } else {
        let (s, next) = string_at(data, pos)->Ok_0;
        assert(prev.push(s).drop_last() =~= prev);
        lemma_names_at(data, next, (n - 1) as nat, prev.push(s));
        let rest = listed(data, next, (n - 1) as nat)->0;
        assert(prev.push(s) + rest =~= prev + (seq![s] + rest));
    }
}

/// An entry more is found, and the others stay.
proof fn lemma_name_push(es: Seq<(u64, Seq<char>)>, e: (u64, Seq<char>), id: u64, i: int)
    requires
        0 <= i <= es.len(),
    ensures
        id_index(es.push(e), id, i) == (if id_index(es, id, i) < es.len() {
            id_index(es, id, i)
        } else if e.0 == id {
            es.len() as int
        } else {
            es.len() as int + 1
        }),
    decreases es.len() - i,
{
    let all = es.push(e);
    if i < es.len() {
        assert(all[i] == es[i]);
        lemma_id_index(es, id, i);
        lemma_name_push(es, e, id, i + 1);
    } else {
        assert(all[i] == e);
        assert(id_index(all, id, i + 1) == all.len());
    }
}

proof fn lemma_entries_of(ns: Seq<Seq<char>>, id: u64)
    ensures
        match name_of(entries_of(ns), id) {
            Some(n) => exists|i: int| first_with_id(ns, id, i) && #[trigger] ns[i] == n,
            None => forall|j: int| 0 <= j < ns.len() ==> id_of(#[trigger] ns[j]) != id,
        },
        ids_listed(ns).finite(),
        ids_listed(ns).len() == entries_of(ns).len(),
        ids_listed(ns).contains(id) <==> name_of(entries_of(ns), id) is Some,
    decreases ns.len(),
{
    if ns.len() > 0 {
        let front = ns.drop_last();
        let last = ns.last();
        let es = entries_of(front);
        lemma_entries_of(front, id);
        lemma_entries_of(front, id_of(last));
        lemma_id_index(es, id, 0);
        lemma_name_push(es, (id_of(last), last), id, 0);
        assert forall|j: int| 0 <= j < front.len() implies front[j] == #[trigger] ns[j] by {}
        if name_of(es, id) is Some {
            let i = choose|i: int| first_with_id(front, id, i) && #[trigger] front[i] == name_of(
                es,
                id,
            )->0;
            assert(first_with_id(ns, id, i)) by {
                assert forall|j: int| 0 <= j < i implies id_of(#[trigger] ns[j]) != id by {
                    assert(id_of(front[j]) != id);
                }
            }
            assert(ns[i] == front[i]);
        } else if id_of(last) == id {
            let i = ns.len() - 1;
            assert(first_with_id(ns, id, i)) by {
                assert forall|j: int| 0 <= j < i implies id_of(#[trigger] ns[j]) != id by {
                    assert(id_of(front[j]) != id);
                }
            }
            assert(ns[i] == last);
        } else {
            assert forall|j: int| 0 <= j < ns.len() implies id_of(#[trigger] ns[j]) != id by {
                if j < front.len() {
                    assert(id_of(front[j]) != id);
                }
            }
        }
    }
}

/// An id leads to the first name that was listed with it, an id with which none
/// was listed leads nowhere, and there are as many names as ids.
pub proof fn the_first_name_counts(data: Seq<u8>, id: u64)
    requires
        parsed(data) is Ok,
    ensures
        ({
            let db = parsed(data)->Ok_0;
            let all = listed(data, 20, db.records + db.flats + db.queries);
            &&& all is Some
            &&& match name_of(db.entries, id) {
                Some(n) => exists|i: int| first_with_id(all->0, id, i) && #[trigger] (all->0)[i] == n,
                None => forall|j: int|
                    0 <= j < (all->0).len() ==> id_of(#[trigger] (all->0)[j]) != id,
            }
            &&& ids_listed(all->0).finite()
            &&& db.entries.len() == ids_listed(all->0).len()
        }),
{
    let db = parsed(data)->Ok_0;
    let n = db.records + db.flats + db.queries;
    assert(entries_of(Seq::empty()) =~= Seq::empty());
    lemma_names_at(data, 20, n, Seq::empty());
    let all = listed(data, 20, n)->0;
    assert(Seq::<Seq<char>>::empty() + all =~= all);
    lemma_entries_of(all, id);
}

/// An ASCII letter in upper case; other characters stay.
pub open spec fn ascii_upper(c: char) -> char {
    if 'a' <= c <= 'z' {
        ((c as u8) - 32) as u8 as char
    } else {
        c
    }
}

/// The text with its ASCII letters in upper case.
pub open spec fn uppercase(s: Seq<char>) -> Seq<char> {
    s.map_values(|c: char| ascii_upper(c))
}

/// A search finds the same whatever the case of the letters in the needle, and
/// the empty needle finds everything.
pub proof fn searches_ignore_case(entries: Seq<(u64, Seq<char>)>, needle: Seq<char>)
    ensures
        matching(entries, uppercase(needle)) == matching(entries, needle),
        matching(entries, lowercase(needle)) == matching(entries, needle),
        matching(entries, Seq::empty()) == entries,
{
    assert(lowercase(uppercase(needle)) =~= lowercase(needle));
    assert(lowercase(lowercase(needle)) =~= lowercase(needle));
    lemma_same_needle(entries, uppercase(needle), needle);
    lemma_same_needle(entries, lowercase(needle), needle);
    lemma_empty_needle(entries);
}

proof fn lemma_same_needle(entries: Seq<(u64, Seq<char>)>, a: Seq<char>, b: Seq<char>)
    requires
        lowercase(a) == lowercase(b),
    ensures
        matching(entries, a) == matching(entries, b),
    decreases entries.len(),
{
    if entries.len() > 0 {
        lemma_same_needle(entries.drop_last(), a, b);
    }
}

proof fn lemma_empty_needle(entries: Seq<(u64, Seq<char>)>)
    ensures
        matching(entries, Seq::empty()) == entries,
    decreases entries.len(),
{
    if entries.len() > 0 {
        lemma_empty_needle(entries.drop_last());
        let name = lowercase(entries.last().1);
        let none = lowercase(Seq::empty());
        assert(none =~= Seq::empty());
        assert(name.subrange(0, 0) =~= none);
        assert(next_occurrence(name, none, 0) == Some(0int));
        assert(entries.drop_last().push(entries.last()) =~= entries);
    }
}

/// A search finds exactly the names that contain the needle, each with its id and
/// each once.
pub proof fn searches_find_what_resolves(
    entries: Seq<(u64, Seq<char>)>,
    needle: Seq<char>,
    id: u64,
    name: Seq<char>,
)
    requires
        distinct_ids(entries),
    ensures
        matching(entries, needle).contains((id, name)) <==> name_of(entries, id) == Some(name)
            && mentions(name, needle),
        distinct_ids(matching(entries, needle)),
{
    lemma_matching(entries, needle, (id, name));
    lemma_matching_distinct(entries, needle);
    lemma_id_index(entries, id, 0);
    let k = id_index(entries, id, 0);
    if entries.contains((id, name)) {
        let i = choose|i: int| 0 <= i < entries.len() && entries[i] == (id, name);
        if k < i {
            assert(entries[k].0 == entries[i].0);
        }
        assert(k == i);
    }
    if name_of(entries, id) == Some(name) {
        assert(entries[k] == (id, name));
    }
}

proof fn lemma_matching(entries: Seq<(u64, Seq<char>)>, needle: Seq<char>, e: (u64, Seq<char>))
    ensures
        matching(entries, needle).contains(e) <==> entries.contains(e) && mentions(e.1, needle),
    decreases entries.len(),
{
    if entries.len() > 0 {
        let front = entries.drop_last();
        let last = entries.last();
        lemma_matching(front, needle, e);
        let m = matching(front, needle);
        assert(front.push(last) =~= entries);
        if front.contains(e) {
            let i = choose|i: int| 0 <= i < front.len() && front[i] == e;
            assert(entries[i] == e);
        }
        if entries.contains(e) && e != last {
            let i = choose|i: int| 0 <= i < entries.len() && entries[i] == e;
            assert(front[i] == e);
        }
        if mentions(last.1, needle) {
            let all = m.push(last);
            assert(all[m.len() as int] == last);
            if m.contains(e) {
                let i = choose|i: int| 0 <= i < m.len() && m[i] == e;
                assert(all[i] == e);
            }
            if all.contains(e) && e != last {
                let i = choose|i: int| 0 <= i < all.len() && all[i] == e;
                assert(m[i] == e);
            }
        }
        assert(entries[entries.len() - 1] == last);
    }
}

proof fn lemma_matching_distinct(entries: Seq<(u64, Seq<char>)>, needle: Seq<char>)
    requires
        distinct_ids(entries),
    ensures
        distinct_ids(matching(entries, needle)),
    decreases entries.len(),
{
    if entries.len() > 0 {
        let front = entries.drop_last();
        let last = entries.last();
        assert(distinct_ids(front)) by {
            assert forall|i: int, j: int|
                0 <= i < front.len() && 0 <= j < front.len() && i != j implies (
            #[trigger] front[i]).0 != (#[trigger] front[j]).0 by {
                assert(entries[i].0 != entries[j].0);
            }
        }
        lemma_matching_distinct(front, needle);
        let m = matching(front, needle);
        if mentions(last.1, needle) {
            let all = m.push(last);
            assert forall|i: int, j: int|
                0 <= i < all.len() && 0 <= j < all.len() && i != j implies (#[trigger] all[i]).0
                != (#[trigger] all[j]).0 by {
                if i < m.len() {
                    lemma_matching(front, needle, m[i]);
                    assert(m.contains(m[i]));
                    let a = choose|a: int| 0 <= a < front.len() && front[a] == m[i];
                    assert(entries[a].0 != entries[entries.len() - 1].0);
                }
                if j < m.len() {
                    lemma_matching(front, needle, m[j]);
                    assert(m.contains(m[j]));
                    let b = choose|b: int| 0 <= b < front.len() && front[b] == m[j];
                    assert(entries[b].0 != entries[entries.len() - 1].0);
                }
            }
        }
    }
}

} // verus!
