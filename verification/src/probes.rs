//! Looking at a running program: who called what and how often, which words of a
//! structure may be arrays, texts in memory, and whether code is what it is
//! taken for.
use vstd::prelude::*;

use crate::cursor::{le_value, Cursor};
use crate::memory::{readable, word, word_or_zero, Memory, RegionV};
use crate::order::{sorted_positions, sorts, Rank};
use crate::text::{chars_of, contains_char, find, next_occurrence, push_chars, push_lit, string_of};

verus! {

// ---- hashes of paths -------------------------------------------------------

/// Does a number look like the hash of a path: more than 40 bits, and not in a
/// range where pointers lie?
pub open spec fn looks_like_path(v: u64) -> bool {
    let hi = v as int / 0x100_0000_0000;
    v > 0xffff_ffff && hi != 0 && !(0x10 <= hi <= 0x16) && !(0x60 <= hi <= 0x7f)
}

pub fn dprobe_pathlike(v: u64) -> (r: bool)
    ensures
        r == looks_like_path(v),
{
    let hi: u64 = v / 0x100_0000_0000;
    v > 0xffff_ffff && hi != 0 && !(0x10 <= hi && hi <= 0x16) && !(0x60 <= hi && hi <= 0x7f)
}

/// The path that a number is or leads to.
pub open spec fn path_behind(m: Seq<RegionV>, v: u64) -> Option<u64> {
    let d = word_or_zero(m, v as int, 8) as u64;
    if looks_like_path(v) {
        Some(v)
    } else if v > 0x1000 && word(m, v as int, 8) is Some && looks_like_path(d) {
        Some(d)
    } else {
        None
    }
}

fn find_path(m: &Memory, v: u64) -> (r: Option<u64>)
    ensures
        r == path_behind(m@, v),
{
    if dprobe_pathlike(v) {
        return Some(v);
    }
    if v > 0x1000 {
        match m.read_u64(v as u128) {
            Some(d) => {
                if dprobe_pathlike(d) {
                    return Some(d);
                }
            },
            None => {},
        }
    }
    None
}

// ---- tallies ---------------------------------------------------------------

/// How often a value occurs.
pub open spec fn occurrences(values: Seq<u64>, v: u64) -> nat
    decreases values.len(),
{
    if values.len() == 0 {
        0
    } else {
        occurrences(values.drop_last(), v) + (if values.last() == v {
            1nat
        } else {
            0nat
        })
    }
}

/// A value with its count: the greater count comes first, then the lesser value.
#[derive(Clone, Copy)]
pub struct Tally {
    pub value: u64,
    pub count: u64,
}

impl Rank for Tally {
    open spec fn precedes(&self, other: &Tally) -> bool {
        self.count > other.count || (self.count == other.count && self.value < other.value)
    }

    proof fn order_laws(a: &Tally, b: &Tally, c: &Tally) {
    }

    fn is_before(&self, other: &Tally) -> (r: bool) {
        self.count > other.count || (self.count == other.count && self.value < other.value)
    }
}

/// Is a value counted: any but zero, or only what looks like the hash of a path?
pub open spec fn counted(v: u64, paths_only: bool) -> bool {
    if paths_only {
        looks_like_path(v)
    } else {
        v != 0
    }
}

/// Is this a tally of the values: each counted value once, with the number of
/// times it occurs?
pub open spec fn tallies(values: Seq<u64>, paths_only: bool, t: Seq<Tally>) -> bool {
    &&& forall|i: int|
        0 <= i < t.len() ==> counted((#[trigger] t[i]).value, paths_only) && t[i].count
            == occurrences(values, t[i].value) && t[i].count > 0
    &&& forall|i: int, j: int|
        0 <= i < j < t.len() ==> (#[trigger] t[i]).value != (#[trigger] t[j]).value
    &&& forall|k: int|
        0 <= k < values.len() && counted(#[trigger] values[k], paths_only) ==> exists|i: int|
            0 <= i < t.len() && (#[trigger] t[i]).value == values[k]
}

pub open spec fn tally_before(a: Tally, b: Tally) -> bool {
    a.precedes(&b)
}

/// Is each entry before the next?
pub open spec fn falling(t: Seq<Tally>) -> bool {
    forall|i: int, j: int| 0 <= i < j < t.len() ==> tally_before(#[trigger] t[i], #[trigger] t[j])
}

fn position_of(t: &Vec<Tally>, v: u64) -> (r: Option<usize>)
    ensures
        match r {
            Some(i) => i < t@.len() && t@[i as int].value == v,
            None => forall|i: int| 0 <= i < t@.len() ==> (#[trigger] t@[i]).value != v,
        },
{
    let mut i: usize = 0;
    while i < t.len()
        invariant
            i <= t@.len(),
            forall|k: int| 0 <= k < i ==> (#[trigger] t@[k]).value != v,
        decreases t@.len() - i,
    {
        if t[i].value == v {
            return Some(i);
        }
        i += 1;
    }
    None
}

proof fn lemma_occurrences_bound(values: Seq<u64>, v: u64)
    ensures
        occurrences(values, v) <= values.len(),
        occurrences(values, v) == 0 ==> !values.contains(v),
    decreases values.len(),
{
    if values.len() > 0 {
        let rest = values.drop_last();
        lemma_occurrences_bound(rest, v);
        if occurrences(values, v) == 0 && values.contains(v) {
            let k = choose|k: int| 0 <= k < values.len() && values[k] == v;
            if k < rest.len() {
                assert(rest[k] == v);
            }
        }
    }
}

fn tally(values: &[u64], paths_only: bool) -> (r: Vec<Tally>)
    ensures
        tallies(values@, paths_only, r@),
{
    let mut out: Vec<Tally> = Vec::new();
    let mut n: usize = 0;
    while n < values.len()
        invariant
            n <= values@.len(),
            tallies(values@.take(n as int), paths_only, out@),
        decreases values@.len() - n,
    {
        let v: u64 = values[n];
        let ghost seen = values@.take(n as int);
        let ghost next = values@.take(n + 1);
        let ghost before = out@;
        proof {
            assert(next.drop_last() =~= seen);
            assert(next.last() == v);
            assert forall|w: u64| w != v implies #[trigger] occurrences(next, w) == occurrences(
                seen,
                w,
            ) by {}
            lemma_occurrences_bound(seen, v);
        }
        let wanted: bool = if paths_only {
            dprobe_pathlike(v)
        } else {
            v != 0
        };
        if wanted {
            match position_of(&out, v) {
                Some(i) => {
                    let c: u64 = out[i].count;
                    proof {
                        assert(c == occurrences(seen, v));
                        assert(c <= n);
                    }
                    out.set(i, Tally { value: v, count: c + 1 });
                    proof {
                        assert forall|k: int|
                            0 <= k < next.len() && counted(
                                #[trigger] next[k],
                                paths_only,
                            ) implies exists|q: int|
                            0 <= q < out@.len() && (#[trigger] out@[q]).value == next[k] by {
                            if k < seen.len() {
                                assert(seen[k] == next[k]);
                                let q = choose|q: int|
                                    0 <= q < before.len() && (#[trigger] before[q]).value
                                        == seen[k];
                                assert(out@[q].value == next[k]);
                            } else {
                                assert(out@[i as int].value == next[k]);
                            }
                        }
                    }
                },
                None => {
                    proof {
                        if seen.contains(v) {
                            let k = choose|k: int| 0 <= k < seen.len() && seen[k] == v;
                            assert(counted(seen[k], paths_only));
                        }
                        lemma_absent(seen, v);
                    }
                    out.push(Tally { value: v, count: 1 });
                    proof {
                        assert forall|k: int|
                            0 <= k < next.len() && counted(
                                #[trigger] next[k],
                                paths_only,
                            ) implies exists|q: int|
                            0 <= q < out@.len() && (#[trigger] out@[q]).value == next[k] by {
                            if k < seen.len() {
                                assert(seen[k] == next[k]);
                                let q = choose|q: int|
                                    0 <= q < before.len() && (#[trigger] before[q]).value
                                        == seen[k];
                                assert(out@[q].value == next[k]);
                            } else {
                                assert(out@[before.len() as int].value == next[k]);
                            }
                        }
                    }
                },
            }
        } else {
            proof {
                assert forall|k: int|
                    0 <= k < next.len() && counted(#[trigger] next[k], paths_only) implies exists|
                    q: int,
                |
                    0 <= q < out@.len() && (#[trigger] out@[q]).value == next[k] by {
                    assert(seen[k] == next[k]);
                }
            }
        }
        n += 1;
    }
    proof {
        assert(values@.take(n as int) =~= values@);
    }
    out
}

proof fn lemma_absent(values: Seq<u64>, v: u64)
    requires
        !values.contains(v),
    ensures
        occurrences(values, v) == 0,
    decreases values.len(),
{
    if values.len() > 0 {
        let rest = values.drop_last();
        assert forall|i: int| 0 <= i < rest.len() implies rest[i] != v by {
            assert(values.contains(values[i]));
        }
        lemma_absent(rest, v);
        assert(values.contains(values[values.len() - 1]));
    }
}

/// Is `r` the head of the tally in its order, with at most `limit` entries?
pub open spec fn most_frequent(values: Seq<u64>, paths_only: bool, limit: nat, r: Seq<Tally>) -> bool {
    exists|t: Seq<Tally>| #[trigger]
        tallies(values, paths_only, t) && falling(t) && r == (if t.len() <= limit {
            t
        } else {
            t.take(limit as int)
        })
}

/// The most frequent values of a ring, the most frequent first; and how many
/// different ones there are.
pub fn drain_ring(values: &[u64], paths_only: bool, limit: usize) -> (r: (usize, Vec<Tally>))
    ensures
        most_frequent(values@, paths_only, limit as nat, r.1@),
        exists|t: Seq<Tally>| #[trigger]
            tallies(values@, paths_only, t) && falling(t) && r.0 == t.len(),
{
    let items = tally(values, paths_only);
    let p = sorted_positions(&items);
    let mut sorted: Vec<Tally> = Vec::new();
    let mut i: usize = 0;
    while i < p.len()
        invariant
            i <= p@.len(),
            sorts(items@, p@),
            sorted@.len() == i,
            forall|k: int| 0 <= k < i ==> sorted@[k] == items@[#[trigger] p@[k] as int],
        decreases p@.len() - i,
    {
        let q: usize = p[i];
        sorted.push(items[q]);
        i += 1;
    }
    let total: usize = items.len();
    proof {
        assert(items@.len() == total);
        lemma_sorted_tally(values@, paths_only, items@, p@, sorted@);
    }
    let ghost t = sorted@;
    let n: usize = sorted.len();
    let take: usize = if n <= limit {
        n
    } else {
        limit
    };
    let mut out: Vec<Tally> = Vec::new();
    let mut j: usize = 0;
    while j < take
        invariant
            j <= take <= sorted@.len(),
            out@ == sorted@.take(j as int),
        decreases take - j,
    {
        out.push(sorted[j]);
        j += 1;
        proof {
            assert(out@ =~= sorted@.take(j as int));
        }
    }
    proof {
        assert(t.take(t.len() as int) =~= t);
        assert(tallies(values@, paths_only, t) && falling(t));
    }
    (n, out)
}

proof fn lemma_sorted_tally(
    values: Seq<u64>,
    paths_only: bool,
    items: Seq<Tally>,
    p: Seq<usize>,
    t: Seq<Tally>,
)
    requires
        tallies(values, paths_only, items),
        sorts(items, p),
        items.len() <= usize::MAX,
        t.len() == p.len(),
        forall|k: int| 0 <= k < p.len() ==> t[k] == items[#[trigger] p[k] as int],
    ensures
        tallies(values, paths_only, t),
        falling(t),
{
    assert forall|i: int| 0 <= i < t.len() implies counted(
        (#[trigger] t[i]).value,
        paths_only,
    ) && t[i].count == occurrences(values, t[i].value) && t[i].count > 0 by {
        assert(t[i] == items[p[i] as int]);
    }
    assert forall|i: int, j: int| 0 <= i < j < t.len() implies tally_before(
        #[trigger] t[i],
        #[trigger] t[j],
    ) && t[i].value != t[j].value by {
        let a = p[i] as int;
        let b = p[j] as int;
        assert(crate::order::position_less(items, a, b));
        if a == b {
            Tally::order_laws(&items[a], &items[a], &items[a]);
        }
        if a < b {
            assert(items[a].value != items[b].value);
        } else {
            assert(items[b].value != items[a].value);
        }
    }
    assert forall|k: int|
        0 <= k < values.len() && counted(#[trigger] values[k], paths_only) implies exists|i: int|
        0 <= i < t.len() && (#[trigger] t[i]).value == values[k] by {
        let q = choose|q: int| 0 <= q < items.len() && (#[trigger] items[q]).value == values[k];
        assert(p.contains(q as usize));
        let i = choose|i: int| 0 <= i < p.len() && p[i] == q as usize;
        assert(t[i] == items[p[i] as int]);
    }
}

/// What is counted at a watched function: how often it was called, and three of
/// the arguments of the last call.
#[derive(Clone, Copy, PartialEq, Eq, Structural)]
pub struct SweepSlot {
    pub index: usize,
    pub count: u64,
    pub x0: u64,
    pub x1: u64,
    pub x2: u64,
}

impl Rank for SweepSlot {
    open spec fn precedes(&self, other: &SweepSlot) -> bool {
        self.count > other.count
    }

    proof fn order_laws(a: &SweepSlot, b: &SweepSlot, c: &SweepSlot) {
    }

    fn is_before(&self, other: &SweepSlot) -> (r: bool) {
        self.count > other.count
    }
}

/// The functions that were called at all.
pub open spec fn called(slots: Seq<SweepSlot>) -> Seq<SweepSlot>
    decreases slots.len(),
{
    if slots.len() == 0 {
        Seq::empty()
    } else {
        let front = called(slots.drop_last());
        if slots.last().count == 0 {
            front
        } else {
            front.push(slots.last())
        }
    }
}

/// Which argument a path was found behind.
#[derive(Clone, Copy, PartialEq, Eq, Structural, Debug)]
pub enum PathIn {
    X2(u64),
    X1(u64),
    Nowhere,
}

/// A line of the report on watched functions.
#[derive(Clone, Copy, PartialEq, Eq, Structural)]
pub struct SweepLine {
    pub slot: SweepSlot,
    pub is_depot: bool,
    pub path: PathIn,
}

pub open spec fn sweep_line(m: Seq<RegionV>, depot: u64, s: SweepSlot) -> SweepLine {
    SweepLine {
        slot: s,
        is_depot: depot != 0 && s.x0 == depot,
        path: match path_behind(m, s.x2) {
            Some(p) => PathIn::X2(p),
            None => match path_behind(m, s.x1) {
                Some(p) => PathIn::X1(p),
                None => PathIn::Nowhere,
            },
        },
    }
}

fn make_line(m: &Memory, depot: u64, s: SweepSlot) -> (r: SweepLine)
    ensures
        r == sweep_line(m@, depot, s),
{
    let path: PathIn = match find_path(m, s.x2) {
        Some(p) => PathIn::X2(p),
        None => match find_path(m, s.x1) {
            Some(p) => PathIn::X1(p),
            None => PathIn::Nowhere,
        },
    };
    SweepLine { slot: s, is_depot: depot != 0 && s.x0 == depot, path }
}

/// The report on watched functions: those that were called, the most frequent
/// first, and in their order where they were called as often.
pub fn drain_sweep(m: &Memory, depot: u64, slots: &Vec<SweepSlot>) -> (r: Vec<SweepLine>)
    ensures
        r@.len() == called(slots@).len(),
        exists|p: Seq<usize>| #[trigger]
            sorts(called(slots@), p) && forall|i: int|
                0 <= i < r@.len() ==> #[trigger] r@[i] == sweep_line(
                    m@,
                    depot,
                    called(slots@)[p[i] as int],
                ),
{
    let mut rows: Vec<SweepSlot> = Vec::new();
    let mut n: usize = 0;
    while n < slots.len()
        invariant
            n <= slots@.len(),
            rows@ == called(slots@.take(n as int)),
        decreases slots@.len() - n,
    {
        let s: SweepSlot = slots[n];
        if s.count != 0 {
            rows.push(s);
        }
        n += 1;
        proof {
            assert(slots@.take(n as int).drop_last() =~= slots@.take(n - 1));
            assert(slots@.take(n as int).last() == s);
        }
    }
    proof {
        assert(slots@.take(n as int) =~= slots@);
    }
    let p = sorted_positions(&rows);
    let mut out: Vec<SweepLine> = Vec::new();
    let mut i: usize = 0;
    while i < p.len()
        invariant
            i <= p@.len(),
            sorts(rows@, p@),
            out@.len() == i,
            forall|k: int|
                0 <= k < i ==> #[trigger] out@[k] == sweep_line(m@, depot, rows@[p@[k] as int]),
        decreases p@.len() - i,
    {
        let q: usize = p[i];
        out.push(make_line(m, depot, rows[q]));
        i += 1;
    }
    proof {
        assert(sorts(called(slots@), p@));
    }
    out
}

// ---- arrays in a structure -------------------------------------------------

/// A place in a structure that may be an array.
#[derive(Clone, Copy, PartialEq, Eq, Structural)]
pub struct ArrayAt {
    pub off: u64,
    pub ptr: u64,
    pub cap: u32,
    pub count: u32,
}

/// What stands at an offset, where it may be an array: a pointer outside the
/// program's own image that can be read, and a count within a plausible
/// capacity.
pub open spec fn array_at(m: Seq<RegionV>, base: int, off: nat) -> Option<ArrayAt> {
    let ptr = word_or_zero(m, base + off, 8);
    let cap = word_or_zero(m, base + off + 8, 4);
    let count = word_or_zero(m, base + off + 12, 4);
    if ptr != 0 && !(0x1_0000_0000 <= ptr < 0x1_1000_0000) && count > 0 && count <= cap && cap
        < 100_000 && readable(m, ptr as int, 8) {
        Some(ArrayAt { off: off as u64, ptr: ptr as u64, cap: cap as u32, count: count as u32 })
    } else {
        None
    }
}

/// The first arrays of a structure of 0x400 bytes from offset `off` on, at most
/// `room` of them.
pub open spec fn arrays_from(m: Seq<RegionV>, base: int, off: nat, room: nat) -> Seq<ArrayAt>
    decreases 0x400 - off,
{
    if off + 16 > 0x400 || room == 0 {
        Seq::empty()
    } else {
        match array_at(m, base, off) {
            Some(a) => seq![a] + arrays_from(m, base, off + 4, (room - 1) as nat),
            None => arrays_from(m, base, off + 4, room),
        }
    }
}

/// The index that is looked at: the one that was pinned when the tables were
/// loaded, else the one that was seen last, which other loads overwrite.
pub open spec fn chosen_index(pinned: u64, last: u64) -> u64 {
    if pinned != 0 {
        pinned
    } else {
        last
    }
}

/// The places of an index that may be arrays, at most 24; none where the index
/// is not known or cannot be read.
pub fn dump_factory_index(m: &Memory, pinned: u64, last: u64) -> (r: Option<Vec<ArrayAt>>)
    ensures
        ({
            let index = chosen_index(pinned, last);
            match r {
                Some(v) => index != 0 && readable(m@, index as int, 0x400) && v@ == arrays_from(
                    m@,
                    index as int,
                    0,
                    24,
                ),
                None => index == 0 || !readable(m@, index as int, 0x400),
            }
        }),
{
    let index: u64 = if pinned != 0 {
        pinned
    } else {
        last
    };
    if index == 0 || !m.is_readable(index as u128, 0x400) {
        return None;
    }
    let mut out: Vec<ArrayAt> = Vec::new();
    let mut off: u64 = 0;
    let ghost all = arrays_from(m@, index as int, 0, 24);
    proof {
        assert(out@ + all =~= all);
    }
    while off + 16 <= 0x400 && out.len() < 24
        invariant
            off <= 0x400,
            out@.len() <= 24,
            all == arrays_from(m@, index as int, 0, 24),
            out@ + arrays_from(m@, index as int, off as nat, (24 - out@.len()) as nat) == all,
        decreases 0x400 - off,
    {
        let base: u128 = index as u128 + off as u128;
        let ptr: u64 = m.u64_or_zero(base);
        let cap: u32 = m.u32_or_zero(base + 8);
        let count: u32 = m.u32_or_zero(base + 12);
        let ghost before = out@;
        let ghost rest = arrays_from(m@, index as int, (off + 4) as nat, (23 - before.len()) as nat);
        if ptr != 0 && !(0x1_0000_0000 <= ptr && ptr < 0x1_1000_0000) && count > 0 && count <= cap
            && cap < 100_000 && m.is_readable(ptr as u128, 8) {
            out.push(ArrayAt { off, ptr, cap, count });
            proof {
                let a = ArrayAt { off, ptr, cap, count };
                assert(array_at(m@, index as int, off as nat) == Some(a));
                assert(before + (seq![a] + rest) =~= out@ + rest);
            }
        }
        off += 4;
    }
    proof {
        assert(out@ + Seq::empty() =~= out@);
    }
    Some(out)
}

// ---- texts in memory -------------------------------------------------------

/// Is the byte a visible character or a space?
pub open spec fn printable(b: nat) -> bool {
    0x20 <= b <= 0x7e
}

/// The visible characters from an address on, from the `i`th up to 256.
pub open spec fn text_at(m: Seq<RegionV>, addr: int, i: nat) -> Seq<char>
    decreases 256 - i,
{
    if i >= 256 {
        Seq::empty()
    } else {
        match word(m, addr + i, 1) {
            None => Seq::empty(),
            Some(b) => if printable(b) {
                seq![(b as u8) as char] + text_at(m, addr, i + 1)
            } else {
                Seq::empty()
            },
        }
    }
}

fn read_text(m: &Memory, addr: u64) -> (r: Vec<char>)
    ensures
        r@ == text_at(m@, addr as int, 0),
{
    let mut out: Vec<char> = Vec::new();
    let mut i: u64 = 0;
    let ghost all = text_at(m@, addr as int, 0);
    proof {
        assert(out@ + all =~= all);
    }
    while i < 256
        invariant
            i <= 256,
            all == text_at(m@, addr as int, 0),
            out@ + text_at(m@, addr as int, i as nat) == all,
        decreases 256 - i,
    {
        match m.read_u8(addr as u128 + i as u128) {
            None => {
                proof {
                    assert(out@ + Seq::empty() =~= out@);
                }
                return out;
            },
            Some(b) => {
                if b < 0x20 || b > 0x7e {
                    proof {
                        assert(out@ + Seq::empty() =~= out@);
                    }
                    return out;
                }
                let ghost before = out@;
                out.push(b as char);
                proof {
                    let rest = text_at(m@, addr as int, (i + 1) as nat);
                    assert(before + (seq![b as char] + rest) =~= out@ + rest);
                }
            },
        }
        i += 1;
    }
    proof {
        assert(out@ + Seq::empty() =~= out@);
    }
    out
}

/// The text that an argument is or points to; at least three characters make a
/// text.
pub open spec fn argument_text(m: Seq<RegionV>, x: u64) -> Seq<char> {
    let direct = text_at(m, x as int, 0);
    let inner = word_or_zero(m, x as int, 8);
    let behind = text_at(m, inner as int, 0);
    if x == 0 || !readable(m, x as int, 8) {
        "<null>"@
    } else if direct.len() >= 3 {
        direct
    } else if inner != 0 && readable(m, inner as int, 1) && behind.len() >= 3 {
        "(via ptr) "@ + behind
    } else {
        "<não-string>"@
    }
}

pub fn read_path_arg(m: &Memory, x: u64) -> (r: String)
    ensures
        r@ == argument_text(m@, x),
{
    let mut out: Vec<char> = Vec::new();
    if x == 0 || !m.is_readable(x as u128, 8) {
        push_lit(&mut out, "<null>");
        proof {
            assert(out@ =~= "<null>"@);
        }
        return string_of(out.as_slice());
    }
    let direct = read_text(m, x);
    if direct.len() >= 3 {
        return string_of(direct.as_slice());
    }
    let inner: u64 = m.u64_or_zero(x as u128);
    if inner != 0 && m.is_readable(inner as u128, 1) {
        let behind = read_text(m, inner);
        if behind.len() >= 3 {
            push_lit(&mut out, "(via ptr) ");
            push_chars(&mut out, behind.as_slice());
            proof {
                assert(out@ =~= "(via ptr) "@ + behind@);
            }
            return string_of(out.as_slice());
        }
    }
    push_lit(&mut out, "<não-string>");
    proof {
        assert(out@ =~= "<não-string>"@);
    }
    string_of(out.as_slice())
}

/// Does a text look like the name of a file: long enough, with one of the signs
/// that names of files have?
pub open spec fn looks_like_file(t: Seq<char>) -> bool {
    t.len() >= 6 && (next_occurrence(t, ".archive"@, 0) is Some || t.contains('/') || t.contains(
        '_',
    ))
}

/// The offsets of the first `n` words of a structure that look like names of
/// files, each with the text.
pub open spec fn file_names_in(m: Seq<RegionV>, base: u64, n: nat) -> Seq<(int, Seq<char>)>
    decreases n,
{
    if n == 0 {
        Seq::empty()
    } else {
        let front = file_names_in(m, base, (n - 1) as nat);
        let t = argument_text(m, (base + 8 * (n - 1)) as u64);
        if looks_like_file(t) {
            front.push((8 * (n - 1), t))
        } else {
            front
        }
    }
}

pub open spec fn found_view(v: Seq<(u64, String)>) -> Seq<(int, Seq<char>)> {
    v.map_values(|e: (u64, String)| (e.0 as int, e.1@))
}

/// The names of files in the first 0x80 bytes of a structure, none where they
/// cannot be read.
pub fn scan_file_names(m: &Memory, base: u64) -> (r: Vec<(u64, String)>)
    ensures
        found_view(r@) == (if base == 0 || base > u64::MAX - 0x80 || !readable(
            m@,
            base as int,
            0x80,
        ) {
            Seq::empty()
        } else {
            file_names_in(m@, base, 16)
        }),
{
    let mut out: Vec<(u64, String)> = Vec::new();
    proof {
        assert(found_view(out@) =~= Seq::empty());
    }
    if base == 0 || base > u64::MAX - 0x80 || !m.is_readable(base as u128, 0x80) {
        return out;
    }
    let pattern = chars_of(".archive");
    let mut i: u64 = 0;
    while i < 16
        invariant
            i <= 16,
            base <= u64::MAX - 0x80,
            pattern@ == ".archive"@,
            found_view(out@) == file_names_in(m@, base, i as nat),
        decreases 16 - i,
    {
        let t = read_path_arg(m, base + 8 * i);
        let v = chars_of(t.as_str());
        let ghost before = out@;
        if v.len() >= 6 && (find(v.as_slice(), pattern.as_slice(), 0).is_some() || contains_char(
            v.as_slice(),
            '/',
        ) || contains_char(v.as_slice(), '_')) {
            let ghost tv = t@;
            out.push((8 * i, t));
            proof {
                assert(found_view(out@) =~= found_view(before).push(((8 * i) as int, tv)));
            }
        }
        i += 1;
    }
    out
}

/// Is a pattern one that finds our archives?
pub open spec fn ours(t: Seq<char>) -> bool {
    next_occurrence(t, "content"@, 0) is Some || next_occurrence(t, "zzbwms"@, 0) is Some
}

/// The pattern that archives are looked for with, at 0x78 of its structure, and
/// whether it is one that finds ours; none where the text is too short.
pub fn opened_pattern(m: &Memory, base: u64) -> (r: Option<(String, bool)>)
    requires
        base <= u64::MAX - 0x78,
    ensures
        ({
            let t = argument_text(m@, (base + 0x78) as u64);
            match r {
                Some((s, b)) => t.len() >= 6 && s@ == t && b == ours(t),
                None => t.len() < 6,
            }
        }),
{
    let t = read_path_arg(m, base + 0x78);
    let v = chars_of(t.as_str());
    if v.len() < 6 {
        return None;
    }
    let a = chars_of("content");
    let b = chars_of("zzbwms");
    let found: bool = find(v.as_slice(), a.as_slice(), 0).is_some() || find(
        v.as_slice(),
        b.as_slice(),
        0,
    ).is_some();
    Some((t, found))
}

// ---- archives --------------------------------------------------------------

/// The sets of archives of a depot: where they lie, how many there are, and the
/// first two words of those that are shown.
pub struct ArchiveSets {
    pub entries: u64,
    pub count: u32,
    pub heads: Vec<(u64, u64)>,
}

/// The first two words of the sets from `i` on, up to `n`; the first that cannot
/// be read ends them.
pub open spec fn heads_from(m: Seq<RegionV>, entries: int, n: nat, i: nat) -> Seq<(u64, u64)>
    decreases n - i,
{
    if i >= n || !readable(m, entries + 0x140 * i, 0x10) {
        Seq::empty()
    } else {
        seq![
            (
                word_or_zero(m, entries + 0x140 * i, 8) as u64,
                word_or_zero(m, entries + 0x140 * i + 8, 8) as u64,
            ),
        ] + heads_from(m, entries, n, i + 1)
    }
}

/// The heads that are shown: three at most, none where the list cannot be read.
pub open spec fn shown_heads(m: Seq<RegionV>, entries: u64, count: nat) -> Seq<(u64, u64)> {
    if entries == 0 || !readable(m, entries as int, 0x10) {
        Seq::empty()
    } else {
        heads_from(
            m,
            entries as int,
            if count < 3 {
                count
            } else {
                3
            },
            0,
        )
    }
}

/// Looks at the sets of archives of a depot; none where it cannot be read.
pub fn initarch_replacement(m: &Memory, depot: u64) -> (r: Option<ArchiveSets>)
    ensures
        match r {
            Some(s) => {
                &&& depot != 0 && readable(m@, depot as int, 0x80)
                &&& s.entries == word_or_zero(m@, depot as int + 0x68, 8)
                &&& s.count == word_or_zero(m@, depot as int + 0x74, 4)
                &&& s.heads@ == shown_heads(m@, s.entries, s.count as nat)
            },
            None => depot == 0 || !readable(m@, depot as int, 0x80),
        },
{
    if depot == 0 || !m.is_readable(depot as u128, 0x80) {
        return None;
    }
    let entries: u64 = m.u64_or_zero(depot as u128 + 0x68);
    let count: u32 = m.u32_or_zero(depot as u128 + 0x74);
    let mut heads: Vec<(u64, u64)> = Vec::new();
    if entries == 0 || !m.is_readable(entries as u128, 0x10) {
        return Some(ArchiveSets { entries, count, heads });
    }
    let n: u32 = if count < 3 {
        count
    } else {
        3
    };
    let mut i: u32 = 0;
    let ghost all = heads_from(m@, entries as int, n as nat, 0);
    proof {
        assert(heads@ + all =~= all);
    }
    while i < n && m.is_readable(entries as u128 + 0x140 * (i as u128), 0x10)
        invariant
            i <= n <= 3,
            all == heads_from(m@, entries as int, n as nat, 0),
            heads@ + heads_from(m@, entries as int, n as nat, i as nat) == all,
        decreases n - i,
    {
        let at: u128 = entries as u128 + 0x140 * (i as u128);
        let q0: u64 = m.u64_or_zero(at);
        let q1: u64 = m.u64_or_zero(at + 8);
        let ghost before = heads@;
        heads.push((q0, q1));
        proof {
            let rest = heads_from(m@, entries as int, n as nat, (i + 1) as nat);
            assert(before + (seq![(q0, q1)] + rest) =~= heads@ + rest);
        }
        i += 1;
    }
    proof {
        assert(heads@ + Seq::empty() =~= heads@);
    }
    Some(ArchiveSets { entries, count, heads })
}

// ---- code ------------------------------------------------------------------

/// Is the code at a place the four instructions that are expected there?
pub open spec fn starts_as(code: Seq<u8>, expected: Seq<u32>) -> bool {
    &&& code.len() >= 16
    &&& forall|i: int|
        0 <= i < 4 ==> le_value(code.subrange(4 * i, 4 * i + 4)) == #[trigger] expected[i]
}

pub fn prologue_matches(code: &[u8], expected: &[u32; 4]) -> (r: bool)
    ensures
        r == starts_as(code@, expected@),
{
    if code.len() < 16 {
        return false;
    }
    let mut i: usize = 0;
    while i < 4
        invariant
            i <= 4,
            code@.len() >= 16,
            forall|k: int|
                0 <= k < i ==> le_value(code@.subrange(4 * k, 4 * k + 4)) == #[trigger] expected@[k],
        decreases 4 - i,
    {
        let mut c = Cursor { data: code, pos: 4 * i };
        let got: u32 = match c.u32() {
            Ok(v) => v,
            Err(_) => 0,
        };
        if got != expected[i] {
            proof {
                assert(le_value(code@.subrange(4 * i as int, 4 * i as int + 4))
                    != expected@[i as int]);
            }
            return false;
        }
        i += 1;
    }
    true
}

/// Is the instruction a move of a constant that clears the rest?
pub open spec fn movz(insn: u32) -> bool {
    insn & 0xFF80_0000 == 0xD280_0000
}

pub fn is_movz(insn: u32) -> (r: bool)
    ensures
        r == movz(insn),
{
    insn & 0xFF80_0000 == 0xD280_0000
}

/// Is the instruction a branch on a register that is not zero?
pub open spec fn cbnz(insn: u32) -> bool {
    insn & 0x7E00_0000 == 0x3400_0000 && insn & 0x0100_0000 != 0
}

pub fn is_cbnz(insn: u32) -> (r: bool)
    ensures
        r == cbnz(insn),
{
    insn & 0x7E00_0000 == 0x3400_0000 && insn & 0x0100_0000 != 0
}

/// What came of hooking a function and taking the hook out again: the first
/// instruction of what runs in its place, and the code afterwards.
pub struct HookCycle {
    pub first: u32,
    pub after: Vec<u8>,
}

/// The verdict on the relocation of code.
#[derive(Clone, Copy, PartialEq, Eq, Structural, Debug)]
pub enum RelocVerdict {
    /// The code cannot be read; nothing was hooked.
    Unreadable,
    /// The code is not what was expected; nothing was hooked.
    Changed,
    /// The hook was refused.
    NotHooked,
    /// Was the first instruction relocated, is the code as it was, and what came
    /// of a second hook on the same code, where it was accepted?
    Done { relocated: bool, restored: bool, again: Option<bool> },
}

/// Is the relocated instruction of the kind that the test looks for?
pub open spec fn relocated(insn: u32, branch: bool) -> bool {
    if branch {
        cbnz(insn)
    } else {
        movz(insn)
    }
}

pub open spec fn cycle_view(c: Option<HookCycle>) -> Option<(u32, Seq<u8>)> {
    match c {
        Some(x) => Some((x.first, x.after@)),
        None => None,
    }
}

pub open spec fn reloc_verdict(
    code: Option<Seq<u8>>,
    expected: Seq<u32>,
    branch: bool,
    first: Option<(u32, Seq<u8>)>,
    second: Option<(u32, Seq<u8>)>,
) -> RelocVerdict {
    match code {
        None => RelocVerdict::Unreadable,
        Some(original) => if !starts_as(original, expected) {
            RelocVerdict::Changed
        } else {
            match first {
                None => RelocVerdict::NotHooked,
                Some((insn, after)) => RelocVerdict::Done {
                    relocated: relocated(insn, branch),
                    restored: after == original,
                    again: match second {
                        Some((i2, a2)) => Some(relocated(i2, branch) && a2 == original),
                        None => None,
                    },
                },
            }
        },
    }
}

fn same_bytes(a: &[u8], b: &[u8]) -> (r: bool)
    ensures
        r == (a@ == b@),
{
    if a.len() != b.len() {
        return false;
    }
    let mut i: usize = 0;
    while i < a.len()
        invariant
            i <= a@.len(),
            a@.len() == b@.len(),
            forall|k: int| 0 <= k < i ==> a@[k] == b@[k],
        decreases a@.len() - i,
    {
        if a[i] != b[i] {
            return false;
        }
        i += 1;
    }
    proof {
        assert(a@ =~= b@);
    }
    true
}

fn is_relocated(insn: u32, branch: bool) -> (r: bool)
    ensures
        r == relocated(insn, branch),
{
    if branch {
        is_cbnz(insn)
    } else {
        is_movz(insn)
    }
}

pub open spec fn code_view(c: Option<Vec<u8>>) -> Option<Seq<u8>> {
    match c {
        Some(v) => Some(v@),
        None => None,
    }
}

/// The verdict on hooking a function twice and taking the hook out each time.
pub fn test_relocator(
    code: &Option<Vec<u8>>,
    expected: &[u32; 4],
    branch: bool,
    first: &Option<HookCycle>,
    second: &Option<HookCycle>,
) -> (r: RelocVerdict)
    ensures
        r == reloc_verdict(
            code_view(*code),
            expected@,
            branch,
            cycle_view(*first),
            cycle_view(*second),
        ),
{
    match code {
        None => RelocVerdict::Unreadable,
        Some(original) => {
            if !prologue_matches(original.as_slice(), expected) {
                return RelocVerdict::Changed;
            }
            match first {
                None => RelocVerdict::NotHooked,
                Some(f) => {
                    let again: Option<bool> = match second {
                        Some(s) => Some(
                            is_relocated(s.first, branch) && same_bytes(
                                s.after.as_slice(),
                                original.as_slice(),
                            ),
                        ),
                        None => None,
                    };
                    RelocVerdict::Done {
                        relocated: is_relocated(f.first, branch),
                        restored: same_bytes(f.after.as_slice(), original.as_slice()),
                        again,
                    }
                },
            }
        },
    }
}

/// What the swap of one entry of a function table showed: the old entry came
/// back, the new one stood there, the old one stands there again, and the entry
/// beside it never changed.
pub fn test_vtable_pool(
    original: u64,
    replacement: u64,
    returned: Option<u64>,
    while_hooked: u64,
    afterwards: u64,
    beside_before: u64,
    beside_after: u64,
) -> (r: bool)
    ensures
        r == (returned == Some(original) && while_hooked == replacement && afterwards == original
            && beside_before == beside_after),
{
    let given: bool = match returned {
        Some(p) => p == original,
        None => false,
    };
    given && while_hooked == replacement && afterwards == original && beside_before
        == beside_after
}

} // verus!
