//! Where things are found: in a baked file, in the table of flats, and in the list of
//! names.
use vstd::arithmetic::div_mod::lemma_fundamental_div_mod_converse;
use vstd::prelude::*;
use vstd::utf8::encode_utf8;

use crate::bake::{has_magic, is_baked, record_count, record_id, record_tag, record_value};
use crate::cursor::{
    le_bytes, le_round_trip, lemma_le_bytes_len, pow256, string_bytes, string_round_trip,
};
use crate::database_laws::stands;
use crate::flats::{flat_key, flat_offset, hex_short, zero_padded};
use crate::hashes::{crc32_of, id_of};
use crate::live::{counts_in, CountAt};
use crate::memory::{word_or_zero, RegionV};
use crate::names::{matching, mentions, name_of, names_at, parsed, with_name};
use crate::number_laws::digits_count;
use crate::numbers::digits_value;

verus! {

proof fn lemma_pows()
    ensures
        pow256(4) == 0x1_0000_0000,
        pow256(8) == 0x1_0000_0000_0000_0000,
{
    reveal_with_fuel(pow256, 9);
}

// ---- baked files -----------------------------------------------------------

/// A baked file starts with the eight bytes of its mark, `BWTDB01` and a zero, and
/// with the number of its records; a file that is shorter than they are is none.
pub proof fn baked_files_start_with_their_mark(data: Seq<u8>, n: nat)
    requires
        n < 0x1_0000_0000_0000_0000,
        stands(
            data,
            0,
            seq![0x42u8, 0x57u8, 0x54u8, 0x44u8, 0x42u8, 0x30u8, 0x31u8, 0u8] + le_bytes(n, 8),
        ),
    ensures
        has_magic(data),
        record_count(data) == n,
        is_baked(data) <==> 16 + 17 * n <= data.len(),
{
    let mark = seq![0x42u8, 0x57u8, 0x54u8, 0x44u8, 0x42u8, 0x30u8, 0x31u8, 0u8];
    let all = mark + le_bytes(n, 8);
    lemma_pows();
    lemma_le_bytes_len(n, 8);
    le_round_trip(n, 8);
    assert(all.len() == 16);
    assert forall|k: int| 0 <= k < 8 implies data[k] == #[trigger] mark[k] by {
        assert(data.subrange(0, 16)[k] == all[k]);
    }
    assert(data[0] == mark[0] && data[1] == mark[1] && data[2] == mark[2] && data[3] == mark[3]
        && data[4] == mark[4] && data[5] == mark[5] && data[6] == mark[6] && data[7] == mark[7]);
    assert(data.subrange(8, 16) =~= all.subrange(8, 16)) by {
        assert(data.subrange(0, 16).subrange(8, 16) =~= data.subrange(8, 16));
    }
    assert(all.subrange(8, 16) =~= le_bytes(n, 8));
}

/// A record is its id, its value and its tag, each record behind the one before it.
pub proof fn baked_records_are_their_parts(data: Seq<u8>, k: int, id: nat, v: nat, tag: u8)
    requires
        0 <= k,
        id < 0x1_0000_0000_0000_0000,
        v < 0x1_0000_0000_0000_0000,
        stands(data, 16 + 17 * k, le_bytes(id, 8) + le_bytes(v, 8) + seq![tag]),
    ensures
        record_id(data, k) == id,
        record_value(data, k) == v,
        record_tag(data, k) == tag,
{
    let all = le_bytes(id, 8) + le_bytes(v, 8) + seq![tag];
    let at = 16 + 17 * k;
    lemma_pows();
    lemma_le_bytes_len(id, 8);
    lemma_le_bytes_len(v, 8);
    le_round_trip(id, 8);
    le_round_trip(v, 8);
    assert(all.len() == 17);
    let whole = data.subrange(at, at + 17);
    assert(data.subrange(at, at + 8) =~= whole.subrange(0, 8));
    assert(data.subrange(at + 8, at + 16) =~= whole.subrange(8, 16));
    assert(all.subrange(0, 8) =~= le_bytes(id, 8));
    assert(all.subrange(8, 16) =~= le_bytes(v, 8));
    assert(whole[16] == data[at + 16]);
}

// ---- flats -----------------------------------------------------------------

/// The parts of a flat's entry: its hash, its length, and the three bytes of its
/// offset, of which the lowest comes last.
pub proof fn entries_are_their_parts(hash: nat, length: nat, a: nat, b: nat, c: nat)
    requires
        hash < 0x1_0000_0000,
        length < 256,
        a < 256,
        b < 256,
        c < 256,
    ensures
        ({
            let e = (hash + 0x1_0000_0000 * length + 0x100_0000_0000 * a + 0x1_0000_0000_0000 * b
                + 0x100_0000_0000_0000 * c) as u64;
            &&& flat_key(e) == 256 * hash + length
            &&& flat_offset(e) == 65536 * a + 256 * b + c
        }),
{
    let e = hash + 0x1_0000_0000 * length + 0x100_0000_0000 * a + 0x1_0000_0000_0000 * b
        + 0x100_0000_0000_0000 * c;
    let q1 = length + 256 * a + 65536 * b + 0x100_0000 * c;
    let q2 = a + 256 * b + 65536 * c;
    let q3 = b + 256 * c;
    lemma_parts(e as int, 0x1_0000_0000, q1 as int, hash as int);
    lemma_parts(
        e as int,
        0x100_0000_0000,
        q2 as int,
        hash as int + 0x1_0000_0000 * length as int,
    );
    lemma_parts(
        e as int,
        0x1_0000_0000_0000,
        q3 as int,
        hash as int + 0x1_0000_0000 * length as int + 0x100_0000_0000 * a as int,
    );
    lemma_parts(
        e as int,
        0x100_0000_0000_0000,
        c as int,
        hash as int + 0x1_0000_0000 * length as int + 0x100_0000_0000 * a as int
            + 0x1_0000_0000_0000 * b as int,
    );
    lemma_parts(q1 as int, 256, (a + 256 * b + 65536 * c) as int, length as int);
    lemma_parts(q2 as int, 256, (b + 256 * c) as int, a as int);
    lemma_parts(q3 as int, 256, c as int, b as int);
    lemma_parts(c as int, 256, 0, c as int);
}

proof fn lemma_parts(x: int, d: int, q: int, r: int)
    requires
        d > 0,
        0 <= r < d,
        x == q * d + r,
    ensures
        x / d == q,
        x % d == r,
{
    lemma_fundamental_div_mod_converse(x, d, q, r);
}

/// An id holds the hash of its name in its lower half, and the length of the name
/// above it.
pub proof fn ids_hold_hash_and_length(name: Seq<char>)
    requires
        encode_utf8(name).len() < 0x1_0000_0000,
    ensures
        id_of(name) == crc32_of(encode_utf8(name)) + 0x1_0000_0000 * encode_utf8(name).len(),
{
    let h = crc32_of(encode_utf8(name)) as u64;
    let n = encode_utf8(name).len() as u64;
    assert(h | (n << 32) == h + 0x1_0000_0000 * n) by (bit_vector)
        requires
            h < 0x1_0000_0000,
            n < 0x1_0000_0000,
    ;
}

/// A number in short hexadecimal is the number that its digits denote, filled with
/// zeros in front as far as is asked for.
pub proof fn short_hexadecimal_reads_back(n: nat, width: nat)
    ensures
        digits_value(zero_padded(hex_short(n), width), 16) == n,
        zero_padded(hex_short(n), width).len() >= width,
        hex_short(n).len() > 0,
        hex_short(n).len() >= width ==> zero_padded(hex_short(n), width) == hex_short(n),
{
    lemma_short(n);
    lemma_padded(hex_short(n), width);
}

proof fn lemma_short(n: nat)
    ensures
        hex_short(n).len() > 0,
        digits_value(hex_short(n), 16) == n,
    decreases n,
{
    let s = hex_short(n);
    digits_count(n % 16);
    if n < 16 {
        assert(s.drop_last() =~= Seq::empty());
        assert(digits_value(s.drop_last(), 16) == 0);
    } else {
        lemma_short(n / 16);
        assert(s.drop_last() =~= hex_short(n / 16));
    }
}

proof fn lemma_padded(s: Seq<char>, width: nat)
    ensures
        digits_value(zero_padded(s, width), 16) == digits_value(s, 16),
        zero_padded(s, width).len() >= width,
    decreases width - s.len(),
{
    if s.len() < width {
        lemma_zero(s);
        lemma_padded(seq!['0'] + s, width);
    }
}

proof fn lemma_zero(s: Seq<char>)
    ensures
        digits_value(seq!['0'] + s, 16) == digits_value(s, 16),
    decreases s.len(),
{
    let t = seq!['0'] + s;
    if s.len() == 0 {
        assert(t =~= seq!['0']);
        assert(t.drop_last() =~= Seq::empty());
        assert(digits_value(t.drop_last(), 16) == 0);
    } else {
        assert(t.drop_last() =~= seq!['0'] + s.drop_last());
        assert(t.last() == s.last());
        lemma_zero(s.drop_last());
    }
}

/// The counts that are found are the plausible words, each with its place.
pub proof fn plausible_counts_are_listed(
    m: Seq<RegionV>,
    base: int,
    root: u64,
    inner: Option<u64>,
    n: nat,
)
    requires
        n > 0,
    ensures
        150_000 <= word_or_zero(m, base + 4 * (n - 1), 4) <= 500_000 ==> counts_in(
            m,
            base,
            root,
            inner,
            n,
        ) == counts_in(m, base, root, inner, (n - 1) as nat).push(
            CountAt {
                root,
                inner,
                off: (4 * (n - 1)) as u64,
                count: word_or_zero(m, base + 4 * (n - 1), 4) as u32,
            },
        ),
        !(150_000 <= word_or_zero(m, base + 4 * (n - 1), 4) <= 500_000) ==> counts_in(
            m,
            base,
            root,
            inner,
            n,
        ) == counts_in(m, base, root, inner, (n - 1) as nat),
{
}

// ---- names -----------------------------------------------------------------

/// The bytes of texts, one after another.
pub open spec fn texts_bytes(ns: Seq<Seq<char>>) -> Seq<u8>
    decreases ns.len(),
{
    if ns.len() == 0 {
        Seq::empty()
    } else {
        string_bytes(ns[0]) + texts_bytes(ns.skip(1))
    }
}

/// The entries after these names were added, the first name of an id counting.
pub open spec fn names_added(before: Seq<(u64, Seq<char>)>, ns: Seq<Seq<char>>) -> Seq<
    (u64, Seq<char>),
>
    decreases ns.len(),
{
    if ns.len() == 0 {
        before
    } else if name_of(before, id_of(ns[0])) is Some {
        names_added(before, ns.skip(1))
    } else {
        names_added(before.push((id_of(ns[0]), ns[0])), ns.skip(1))
    }
}

pub open spec fn short_texts(ns: Seq<Seq<char>>) -> bool {
    forall|i: int| 0 <= i < ns.len() ==> encode_utf8(#[trigger] ns[i]).len() <= i32::MAX
}

proof fn lemma_names(data: Seq<u8>, pos: int, ns: Seq<Seq<char>>, before: Seq<(u64, Seq<char>)>)
    requires
        short_texts(ns),
        stands(data, pos, texts_bytes(ns)),
    ensures
        names_at(data, pos, ns.len(), before) == Some(names_added(before, ns)),
    decreases ns.len(),
{
    if ns.len() > 0 {
        let s = ns[0];
        let b = string_bytes(s);
        let rest = ns.skip(1);
        let more = texts_bytes(rest);
        assert(encode_utf8(s).len() <= i32::MAX);
        let all = data.subrange(pos, pos + b.len() + more.len());
        assert(all =~= b + more);
        assert(all.subrange(0, b.len() as int) =~= b);
        assert(all.subrange(b.len() as int, b.len() as int + more.len()) =~= more);
        assert(data.subrange(pos, pos + b.len()) =~= b);
        assert(data.subrange(pos + b.len(), pos + b.len() + more.len()) =~= more);
        let front = data.take(pos);
        let tail = data.skip(pos + b.len());
        string_round_trip(front, s, tail);
        assert(front + b + tail =~= data);
        assert forall|i: int| 0 <= i < rest.len() implies encode_utf8(#[trigger] rest[i]).len()
            <= i32::MAX by {
            assert(encode_utf8(ns[i + 1]).len() <= i32::MAX);
        }
        lemma_names(data, pos + b.len(), rest, with_name(before, s));
    }
}

/// A list of names is its mark, a version, the numbers of records, flats and queries,
/// and as many texts: it is read with these numbers and these names.
pub proof fn lists_of_names_are_read_as_written(
    version: nat,
    records: nat,
    flats: nat,
    queries: nat,
    ns: Seq<Seq<char>>,
)
    requires
        version < 0x1_0000_0000,
        records < 0x1_0000_0000,
        flats < 0x1_0000_0000,
        queries < 0x1_0000_0000,
        ns.len() == records + flats + queries,
        short_texts(ns),
    ensures
        ({
            let data = le_bytes(0x0BB1_DB57, 4) + le_bytes(version, 4) + le_bytes(records, 4)
                + le_bytes(flats, 4) + le_bytes(queries, 4) + texts_bytes(ns);
            &&& parsed(data) is Ok
            &&& (parsed(data)->Ok_0).records == records
            &&& (parsed(data)->Ok_0).flats == flats
            &&& (parsed(data)->Ok_0).queries == queries
            &&& (parsed(data)->Ok_0).entries == names_added(Seq::empty(), ns)
        }),
{
    let m = le_bytes(0x0BB1_DB57, 4);
    let v = le_bytes(version, 4);
    let r = le_bytes(records, 4);
    let f = le_bytes(flats, 4);
    let q = le_bytes(queries, 4);
    let t = texts_bytes(ns);
    let data = m + v + r + f + q + t;
    lemma_pows();
    lemma_le_bytes_len(0x0BB1_DB57, 4);
    lemma_le_bytes_len(version, 4);
    lemma_le_bytes_len(records, 4);
    lemma_le_bytes_len(flats, 4);
    lemma_le_bytes_len(queries, 4);
    le_round_trip(0x0BB1_DB57, 4);
    le_round_trip(records, 4);
    le_round_trip(flats, 4);
    le_round_trip(queries, 4);
    assert(data.subrange(0, 4) =~= m);
    assert(data.subrange(8, 12) =~= r);
    assert(data.subrange(12, 16) =~= f);
    assert(data.subrange(16, 20) =~= q);
    assert(data.subrange(20, 20 + t.len() as int) =~= t);
    lemma_names(data, 20, ns, Seq::empty());
}

/// A search finds the names that hold what is asked for, in any case of letters, in
/// their order.
pub proof fn searches_keep_what_matches(
    entries: Seq<(u64, Seq<char>)>,
    e: (u64, Seq<char>),
    needle: Seq<char>,
)
    ensures
        mentions(e.1, needle) ==> matching(entries.push(e), needle) == matching(
            entries,
            needle,
        ).push(e),
        !mentions(e.1, needle) ==> matching(entries.push(e), needle) == matching(entries, needle),
        matching(Seq::empty(), needle) == Seq::<(u64, Seq<char>)>::empty(),
{
    assert(entries.push(e).drop_last() =~= entries);
}

} // verus!
