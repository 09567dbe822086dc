//! The database of the running game in memory: where a flat's value lies, and the
//! search for tables by their plausible counts.
use vstd::prelude::*;

use crate::flats::{dump_line, dump_line_of, flat_key, flat_offset, hex_literal, push_hex_literal};
use crate::hashes::{id_of, tweak_db_id};
use crate::memory::{readable, word, word_or_zero, Memory, RegionV};
use crate::text::{dec, push_dec, push_lit, string_of, strings_view};

verus! {

// ---- a flat ----------------------------------------------------------------

/// The entry that a search by halving between `lo` and `hi` finds for the key;
/// none where an entry on the way cannot be read.
pub open spec fn entry_between(m: Seq<RegionV>, entries: int, key: int, lo: int, hi: int) -> Option<
    nat,
>
    decreases hi - lo,
{
    if lo >= hi {
        None
    } else {
        let mid = lo + (hi - lo) / 2;
        match word(m, entries + 8 * mid, 8) {
            None => None,
            Some(e) => if flat_key(e as u64) < key {
                entry_between(m, entries, key, mid + 1, hi)
            } else if flat_key(e as u64) > key {
                entry_between(m, entries, key, lo, mid)
            } else {
                Some(e)
            },
        }
    }
}

/// How much of the table must be readable before it is searched.
pub open spec fn head_size(n: nat) -> int {
    if n < 64 {
        8 * n as int
    } else {
        512
    }
}

/// Where the value of a flat lies in the database at `t`. A table that is absent,
/// empty or implausibly large is not searched, and a value that cannot be read is
/// not found.
pub open spec fn flat_address(m: Seq<RegionV>, t: int, name: Seq<char>) -> Option<int> {
    let entries = word_or_zero(m, t + 0x40, 8);
    let size = word_or_zero(m, t + 0x48, 4);
    let buffer = word_or_zero(m, t + 0x148, 8);
    if entries == 0 || size == 0 || size > 10_000_000 || !readable(
        m,
        entries as int,
        head_size(size),
    ) {
        None
    } else {
        match entry_between(m, entries as int, flat_key(id_of(name)), 0, size as int) {
            None => None,
            Some(e) => {
                let at = buffer + flat_offset(e as u64);
                if buffer == 0 || !readable(m, at, 0x18) {
                    None
                } else {
                    Some(at)
                }
            },
        }
    }
}

fn key_of(e: u64) -> (r: u64)
    ensures
        r == flat_key(e),
{
    (e % 0x1_0000_0000) * 256 + (e / 0x1_0000_0000) % 256
}

fn offset_of(e: u64) -> (r: u64)
    ensures
        r == flat_offset(e),
        r < 0x100_0000,
{
    (e / 0x100_0000_0000) % 256 * 65536 + (e / 0x1_0000_0000_0000) % 256 * 256 + (e
        / 0x100_0000_0000_0000) % 256
}

/// Where the value of a flat lies.
pub fn live_flat(m: &Memory, t: u64, name: &str) -> (r: Option<u128>)
    ensures
        match r {
            Some(a) => flat_address(m@, t as int, name@) == Some(a as int),
            None => flat_address(m@, t as int, name@) is None,
        },
        r is Some ==> r->0 < u64::MAX + 0x100_0001,
{
    let entries: u64 = m.u64_or_zero(t as u128 + 0x40);
    let size: u32 = m.u32_or_zero(t as u128 + 0x48);
    if entries == 0 || size == 0 || size > 10_000_000 {
        return None;
    }
    let head: u64 = if size < 64 {
        8 * (size as u64)
    } else {
        512
    };
    if !m.is_readable(entries as u128, head) {
        return None;
    }
    let key: u64 = key_of(tweak_db_id(name));
    let mut lo: u32 = 0;
    let mut hi: u32 = size;
    while lo < hi
        invariant
            lo <= hi <= size <= 10_000_000,
            size > 0,
            entries != 0,
            entries == word_or_zero(m@, t as int + 0x40, 8),
            size == word_or_zero(m@, t as int + 0x48, 4),
            readable(m@, entries as int, head_size(size as nat)),
            key == flat_key(id_of(name@)),
            entry_between(m@, entries as int, key as int, 0, size as int) == entry_between(
                m@,
                entries as int,
                key as int,
                lo as int,
                hi as int,
            ),
        decreases hi - lo,
    {
        let mid: u32 = lo + (hi - lo) / 2;
        let e: u64 = match m.read_u64(entries as u128 + 8 * (mid as u128)) {
            None => {
                return None;
            },
            Some(v) => v,
        };
        let k: u64 = key_of(e);
        if k < key {
            lo = mid + 1;
        } else if k > key {
            hi = mid;
        } else {
            let buffer: u64 = m.u64_or_zero(t as u128 + 0x148);
            if buffer == 0 {
                return None;
            }
            let at: u128 = buffer as u128 + offset_of(e) as u128;
            return if m.is_readable(at, 0x18) {
                Some(at)
            } else {
                None
            };
        }
    }
    None
}

/// In a table that is in order and can be read, a flat that is there is found.
pub proof fn readable_flats_are_found(m: Seq<RegionV>, entries: int, key: int, lo: int, hi: int, k: int)
    requires
        0 <= lo <= k < hi,
        forall|i: int| lo <= i < hi ==> word(m, #[trigger] at_index(entries, i), 8) is Some,
        forall|i: int, j: int|
            lo <= i < j < hi ==> flat_key(
                word_or_zero(m, #[trigger] at_index(entries, i), 8) as u64,
            ) < flat_key(word_or_zero(m, #[trigger] at_index(entries, j), 8) as u64),
        flat_key(word_or_zero(m, at_index(entries, k), 8) as u64) == key,
    ensures
        entry_between(m, entries, key, lo, hi) == Some(word_or_zero(m, at_index(entries, k), 8)),
    decreases hi - lo,
{
    let mid = lo + (hi - lo) / 2;
    let a = at_index(entries, mid);
    let b = at_index(entries, k);
    assert(word(m, a, 8) is Some);
    if flat_key(word_or_zero(m, a, 8) as u64) < key {
        if k < mid {
            assert(flat_key(word_or_zero(m, b, 8) as u64) < flat_key(word_or_zero(m, a, 8) as u64));
        }
        readable_flats_are_found(m, entries, key, mid + 1, hi, k);
    } else if flat_key(word_or_zero(m, a, 8) as u64) > key {
        if k > mid {
            assert(flat_key(word_or_zero(m, a, 8) as u64) < flat_key(word_or_zero(m, b, 8) as u64));
        }
        readable_flats_are_found(m, entries, key, lo, mid, k);
    } else {
        if k < mid {
            assert(flat_key(word_or_zero(m, b, 8) as u64) < flat_key(word_or_zero(m, a, 8) as u64));
        }
        if k > mid {
            assert(flat_key(word_or_zero(m, a, 8) as u64) < flat_key(word_or_zero(m, b, 8) as u64));
        }
    }
}

/// The address of an entry.
pub open spec fn at_index(entries: int, i: int) -> int {
    entries + 8 * i
}

/// What a look at a flat shows: where its value lies, and three of its words.
#[derive(Clone, Copy, PartialEq, Eq, Structural)]
pub struct FlatProbe {
    pub at: u128,
    pub vtable: u64,
    pub at8: u32,
    pub at16: u32,
}

/// Looks at the value of a flat.
pub fn probe_flat(m: &Memory, t: u64, name: &str) -> (r: Option<FlatProbe>)
    ensures
        match r {
            Some(p) => {
                &&& flat_address(m@, t as int, name@) == Some(p.at as int)
                &&& p.vtable == word_or_zero(m@, p.at as int, 8)
                &&& p.at8 == word_or_zero(m@, p.at as int + 0x08, 4)
                &&& p.at16 == word_or_zero(m@, p.at as int + 0x10, 4)
            },
            None => flat_address(m@, t as int, name@) is None,
        },
{
    match live_flat(m, t, name) {
        None => None,
        Some(at) => {
            Some(
                FlatProbe {
                    at,
                    vtable: m.u64_or_zero(at),
                    at8: m.u32_or_zero(at + 0x08),
                    at16: m.u32_or_zero(at + 0x10),
                },
            )
        },
    }
}

/// Where four bytes of a flat's value are to be written: only where writing is
/// switched on, and the flat is found.
pub fn write_flat(m: &Memory, on: bool, t: u64, name: &str, data_off: u32) -> (r: Option<u128>)
    ensures
        match r {
            Some(a) => on && flat_address(m@, t as int, name@) is Some && a == flat_address(
                m@,
                t as int,
                name@,
            )->0 + data_off,
            None => !on || flat_address(m@, t as int, name@) is None,
        },
{
    if !on {
        return None;
    }
    match live_flat(m, t, name) {
        None => None,
        Some(at) => {
            Some(at + data_off as u128)
        },
    }
}

/// Is something done that is done once, and only where its file is there?
pub fn once_if_marked(done: &mut bool, marked: bool) -> (r: bool)
    ensures
        r == (!*old(done) && marked),
        *final(done) == (*old(done) || marked),
{
    if *done || !marked {
        return false;
    }
    *done = true;
    true
}

// ---- the search for tables -------------------------------------------------

/// Could the number be a count of records or flats?
pub open spec fn plausible(v: nat) -> bool {
    150_000 <= v <= 500_000
}

/// A plausible count: the offset in the database that leads to it, the offset in
/// what that leads to where one more step was taken, and where it lies there.
#[derive(Clone, Copy, PartialEq, Eq, Structural, Debug)]
pub struct CountAt {
    pub root: u64,
    pub inner: Option<u64>,
    pub off: u64,
    pub count: u32,
}

/// The plausible counts among the first `n` numbers of a region.
pub open spec fn counts_in(m: Seq<RegionV>, base: int, root: u64, inner: Option<u64>, n: nat) -> Seq<
    CountAt,
>
    decreases n,
{
    if n == 0 {
        Seq::empty()
    } else {
        let front = counts_in(m, base, root, inner, (n - 1) as nat);
        let v = word_or_zero(m, base + 4 * (n - 1), 4);
        if plausible(v) {
            front.push(CountAt { root, inner, off: (4 * (n - 1)) as u64, count: v as u32 })
        } else {
            front
        }
    }
}

/// Does a number lead to a region that can be searched?
pub open spec fn leads_on(m: Seq<RegionV>, p: nat) -> bool {
    p > 0x1_0000 && readable(m, p as int, 0x140)
}

/// The counts in the regions that the first `n` words of a region lead to.
pub open spec fn counts_behind(m: Seq<RegionV>, base: int, root: u64, n: nat) -> Seq<CountAt>
    decreases n,
{
    if n == 0 {
        Seq::empty()
    } else {
        let front = counts_behind(m, base, root, (n - 1) as nat);
        let p = word_or_zero(m, base + 8 * (n - 1), 8);
        if leads_on(m, p) {
            front + counts_in(m, p as int, root, Some((8 * (n - 1)) as u64), 80)
        } else {
            front
        }
    }
}

/// The counts within two steps of the first `n` words of the database.
pub open spec fn counts_from(m: Seq<RegionV>, t: int, n: nat) -> Seq<CountAt>
    decreases n,
{
    if n == 0 {
        Seq::empty()
    } else {
        let front = counts_from(m, t, (n - 1) as nat);
        let root = (8 * (n - 1)) as u64;
        let p = word_or_zero(m, t + 8 * (n - 1), 8);
        if leads_on(m, p) {
            front + (counts_in(m, p as int, root, None, 80) + counts_behind(
                m,
                p as int,
                root,
                40,
            ))
        } else {
            front
        }
    }
}

fn push_counts(out: &mut Vec<CountAt>, m: &Memory, base: u64, root: u64, inner: Option<u64>)
    ensures
        final(out)@ == old(out)@ + counts_in(m@, base as int, root, inner, 80),
{
    let ghost start = out@;
    let mut i: u64 = 0;
    proof {
        assert(out@ =~= start + counts_in(m@, base as int, root, inner, 0));
    }
    while i < 80
        invariant
            i <= 80,
            out@ == start + counts_in(m@, base as int, root, inner, i as nat),
        decreases 80 - i,
    {
        let v: u32 = m.u32_or_zero(base as u128 + 4 * (i as u128));
        let ghost before = out@;
        if 150_000 <= v && v <= 500_000 {
            out.push(CountAt { root, inner, off: 4 * i, count: v });
        }
        i += 1;
        proof {
            assert(out@ =~= start + counts_in(m@, base as int, root, inner, i as nat));
        }
    }
}

fn push_behind(out: &mut Vec<CountAt>, m: &Memory, base: u64, root: u64)
    ensures
        final(out)@ == old(out)@ + counts_behind(m@, base as int, root, 40),
{
    let ghost start = out@;
    let mut i: u64 = 0;
    proof {
        assert(out@ =~= start + counts_behind(m@, base as int, root, 0));
    }
    while i < 40
        invariant
            i <= 40,
            out@ == start + counts_behind(m@, base as int, root, i as nat),
        decreases 40 - i,
    {
        let p: u64 = m.u64_or_zero(base as u128 + 8 * (i as u128));
        if p > 0x1_0000 && m.is_readable(p as u128, 0x140) {
            push_counts(out, m, p, root, Some(8 * i));
        }
        i += 1;
        proof {
            assert(out@ =~= start + counts_behind(m@, base as int, root, i as nat));
        }
    }
}

/// Searches two steps from the database for plausible counts.
fn scan_counts(m: &Memory, t: u64) -> (r: Vec<CountAt>)
    ensures
        r@ == counts_from(m@, t as int, 45),
{
    let mut out: Vec<CountAt> = Vec::new();
    let mut i: u64 = 0;
    while i < 45
        invariant
            i <= 45,
            out@ == counts_from(m@, t as int, i as nat),
        decreases 45 - i,
    {
        let p: u64 = m.u64_or_zero(t as u128 + 8 * (i as u128));
        let ghost before = out@;
        if p > 0x1_0000 && m.is_readable(p as u128, 0x140) {
            push_counts(&mut out, m, p, 8 * i, None);
            push_behind(&mut out, m, p, 8 * i);
        }
        i += 1;
        proof {
            assert(out@ =~= counts_from(m@, t as int, i as nat));
        }
    }
    out
}

/// The word at an address, where it can be read.
pub open spec fn word_at(m: Seq<RegionV>, a: int) -> Option<u64> {
    match word(m, a, 8) {
        Some(v) => Some(v as u64),
        None => None,
    }
}

/// The dump of the database at `t`: a line for each of its words, and the counts
/// within two steps of it.
pub fn dump_singleton(m: &Memory, t: u64) -> (r: (Vec<String>, Vec<CountAt>))
    ensures
        r.0@.len() == 45,
        forall|i: int|
            0 <= i < 45 ==> (#[trigger] r.0@[i])@ == dump_line_of(
                (8 * i) as nat,
                word_at(m@, t + 8 * i),
            ),
        r.1@ == counts_from(m@, t as int, 45),
{
    let mut lines: Vec<String> = Vec::new();
    let mut i: u64 = 0;
    while i < 45
        invariant
            i <= 45,
            lines@.len() == i,
            forall|k: int|
                0 <= k < i ==> (#[trigger] lines@[k])@ == dump_line_of(
                    (8 * k) as nat,
                    word_at(m@, t + 8 * k),
                ),
        decreases 45 - i,
    {
        let w: Option<u64> = m.read_u64(t as u128 + 8 * (i as u128));
        lines.push(dump_line(8 * i, w));
        i += 1;
    }
    (lines, scan_counts(m, t))
}

/// The line on a plausible count: the way that leads to it, and the count.
pub open spec fn count_text(c: CountAt) -> Seq<char> {
    "[tdb] L2 s+"@ + hex_literal(c.root as nat, 3) + "->P1"@ + (match c.inner {
        Some(j) => "+"@ + hex_literal(j as nat, 0) + "->P2"@,
        None => Seq::empty(),
    }) + "+"@ + hex_literal(c.off as nat, 0) + " = "@ + dec(c.count as nat)
        + " (contagem? records/flats)"@
}

pub fn count_line(c: CountAt) -> (r: String)
    ensures
        r@ == count_text(c),
{
    let mut out: Vec<char> = Vec::new();
    push_lit(&mut out, "[tdb] L2 s+");
    push_hex_literal(&mut out, c.root, 3);
    push_lit(&mut out, "->P1");
    let ghost head = out@;
    if let Some(j) = c.inner {
        push_lit(&mut out, "+");
        push_hex_literal(&mut out, j, 0);
        push_lit(&mut out, "->P2");
    }
    let ghost way = match c.inner {
        Some(j) => "+"@ + hex_literal(j as nat, 0) + "->P2"@,
        None => Seq::empty(),
    };
    proof {
        assert(out@ =~= head + way);
    }
    push_lit(&mut out, "+");
    push_hex_literal(&mut out, c.off, 0);
    push_lit(&mut out, " = ");
    push_dec(&mut out, c.count as u128);
    push_lit(&mut out, " (contagem? records/flats)");
    proof {
        assert(out@ =~= count_text(c));
    }
    string_of(out.as_slice())
}

/// The lines of a dump: one on the database, one for each of its words, one for
/// each plausible count, and those between them.
pub open spec fn dump_texts(m: Seq<RegionV>, t: Option<u64>) -> Seq<Seq<char>> {
    match t {
        None => seq!["[tdb] singleton indisponível (TweakDB não carregada ainda?)"@],
        Some(t) => seq![
            "[tdb] singleton @ "@ + hex_literal(t as nat, 0) + " — dump 0x00..0x168:"@,
        ] + Seq::new(45, |i: int| dump_line_of((8 * i) as nat, word_at(m, t + 8 * i))) + seq![
            "[tdb] dump fim L1. L2: scan recursivo (2 níveis) por contagem em [150k,500k]:"@,
        ] + counts_from(m, t as int, 45).map_values(|c: CountAt| count_text(c)) + seq![
            "[tdb] dump fim L2."@,
        ],
    }
}

/// The whole dump of the database, where it is there.
pub fn dump_report(m: &Memory, t: Option<u64>) -> (r: Vec<String>)
    ensures
        strings_view(r@) == dump_texts(m@, t),
{
    let mut out: Vec<String> = Vec::new();
    let at: u64 = match t {
        None => {
            out.push("[tdb] singleton indisponível (TweakDB não carregada ainda?)".to_owned());
            proof {
                assert(strings_view(out@) =~= dump_texts(m@, t));
            }
            return out;
        },
        Some(v) => v,
    };
    let mut head: Vec<char> = Vec::new();
    push_lit(&mut head, "[tdb] singleton @ ");
    push_hex_literal(&mut head, at, 0);
    push_lit(&mut head, " — dump 0x00..0x168:");
    out.push(string_of(head.as_slice()));
    let ghost first = "[tdb] singleton @ "@ + hex_literal(at as nat, 0)
        + " — dump 0x00..0x168:"@;
    let ghost words = Seq::new(
        45,
        |i: int| dump_line_of((8 * i) as nat, word_at(m@, at + 8 * i)),
    );
    proof {
        assert(head@ =~= first);
    }
    let (lines, counts) = dump_singleton(m, at);
    let mut i: usize = 0;
    proof {
        assert(strings_view(out@) =~= seq![first] + words.take(0));
    }
    while i < lines.len()
        invariant
            i <= lines@.len(),
            lines@.len() == 45,
            words.len() == 45,
            forall|k: int| 0 <= k < 45 ==> (#[trigger] lines@[k])@ == words[k],
            strings_view(out@) == seq![first] + words.take(i as int),
        decreases lines@.len() - i,
    {
        let ghost before = out@;
        out.push(lines[i].clone());
        i += 1;
        proof {
            assert(words.take(i as int) =~= words.take(i - 1).push(words[i - 1]));
            assert(strings_view(out@) =~= strings_view(before).push(words[i - 1]));
            assert(strings_view(out@) =~= seq![first] + words.take(i as int));
        }
    }
    let ghost before = out@;
    out.push(
        "[tdb] dump fim L1. L2: scan recursivo (2 níveis) por contagem em [150k,500k]:".to_owned(),
    );
    let ghost mid =
        "[tdb] dump fim L1. L2: scan recursivo (2 níveis) por contagem em [150k,500k]:"@;
    let ghost upper = seq![first] + words + seq![mid];
    let ghost tail = counts@.map_values(|c: CountAt| count_text(c));
    proof {
        assert(words.take(45) =~= words);
        assert(strings_view(out@) =~= strings_view(before).push(mid));
        assert(strings_view(out@) =~= upper + tail.take(0));
    }
    let mut j: usize = 0;
    while j < counts.len()
        invariant
            j <= counts@.len(),
            tail == counts@.map_values(|c: CountAt| count_text(c)),
            strings_view(out@) == upper + tail.take(j as int),
        decreases counts@.len() - j,
    {
        let ghost was = out@;
        out.push(count_line(counts[j]));
        j += 1;
        proof {
            assert(tail.take(j as int) =~= tail.take(j - 1).push(tail[j - 1]));
            assert(strings_view(out@) =~= strings_view(was).push(tail[j - 1]));
            assert(strings_view(out@) =~= upper + tail.take(j as int));
        }
    }
    let ghost was = out@;
    out.push("[tdb] dump fim L2.".to_owned());
    proof {
        assert(tail.take(j as int) =~= tail);
        assert(strings_view(out@) =~= strings_view(was).push("[tdb] dump fim L2."@));
        assert(strings_view(out@) =~= dump_texts(m@, t));
    }
    out
}

} // verus!
