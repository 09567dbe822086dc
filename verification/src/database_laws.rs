//! What the bytes of a database mean: which value stands where which bytes stand,
//! for every type, every group and every section.
use vstd::prelude::*;
use vstd::utf8::encode_utf8;

use crate::cursor::{
    i32_at, int_at, le_bytes, le_round_trip, le_value, lemma_le_bytes_len, pow256, string_at,
    string_bytes, string_round_trip, units_of, utf16_text, vlq_at, vlq_bytes, vlq_round_trip,
};
use crate::encode::concatenated;
use crate::tweakdb::{
    blobs_at, flat_types_at, floats_at, group_raw, group_tags_of, group_values, header_of, ids_at,
    key_at, keyed_at, keys_at, opened, queries_at, queries_of, query_at, records_at, scalar_at,
    scalars_at, tag_at, tags_at, type_with_hash, value_at, values_at, FlatType, FlatValueV, Record,
    ResolvedType,
};

verus! {

// ---- bytes -----------------------------------------------------------------

/// Do these bytes stand at that place?
pub open spec fn stands(data: Seq<u8>, pos: int, bytes: Seq<u8>) -> bool {
    &&& 0 <= pos
    &&& pos + bytes.len() <= data.len()
    &&& data.subrange(pos, pos + bytes.len()) == bytes
}

proof fn lemma_stands_both(data: Seq<u8>, pos: int, a: Seq<u8>, b: Seq<u8>)
    requires
        stands(data, pos, a + b),
    ensures
        stands(data, pos, a),
        stands(data, pos + a.len(), b),
{
    let all = data.subrange(pos, pos + a.len() + b.len());
    assert(all.subrange(0, a.len() as int) =~= a);
    assert(all.subrange(a.len() as int, a.len() as int + b.len()) =~= b);
    assert(data.subrange(pos, pos + a.len()) =~= a);
    assert(data.subrange(pos + a.len(), pos + a.len() + b.len()) =~= b);
}

/// Numbers are written low byte first: each byte counts 256 times the one before
/// it.
pub proof fn the_low_byte_comes_first(v: nat, n: nat)
    requires
        n > 0,
    ensures
        le_bytes(v, n)[0] == v % 256,
        le_bytes(v, n).skip(1) == le_bytes(v / 256, (n - 1) as nat),
        le_value(le_bytes(v, n)) == (v % 256) + 256 * le_value(
            le_bytes(v / 256, (n - 1) as nat),
        ),
{
    assert(le_bytes(v, n).skip(1) =~= le_bytes(v / 256, (n - 1) as nat));
}

proof fn lemma_int(data: Seq<u8>, pos: int, v: nat, n: nat)
    requires
        stands(data, pos, le_bytes(v, n)),
        v < pow256(n),
    ensures
        int_at(data, pos, n) == Ok::<(nat, int), Seq<char>>((v, pos + n)),
{
    le_round_trip(v, n);
}

proof fn lemma_pows()
    ensures
        pow256(1) == 0x100,
        pow256(2) == 0x1_0000,
        pow256(4) == 0x1_0000_0000,
        pow256(8) == 0x1_0000_0000_0000_0000,
{
    reveal_with_fuel(pow256, 9);
}

/// The bytes of a signed number: negative ones count back from the end.
pub open spec fn signed_bytes(v: int, n: nat) -> Seq<u8> {
    le_bytes(
        (if v < 0 {
            v + pow256(n)
        } else {
            v
        }) as nat,
        n,
    )
}

// ---- values ----------------------------------------------------------------

/// Every type of whole numbers, and a float by its bit pattern, is read from its
/// bytes as the very number they stand for.
pub proof fn numbers_are_read_as_written(data: Seq<u8>, pos: int, x: nat)
    ensures
        x < 0x1_0000_0000 && stands(data, pos, le_bytes(x, 4)) ==> {
            &&& scalar_at(data, pos, 4) == Ok::<(FlatValueV, int), Seq<char>>(
                (FlatValueV::Float(x), pos + 4),
            )
            &&& scalar_at(data, pos, 8) == Ok::<(FlatValueV, int), Seq<char>>(
                (FlatValueV::U32(x), pos + 4),
            )
        },
        x < 0x100 && stands(data, pos, le_bytes(x, 1)) ==> {
            &&& scalar_at(data, pos, 5) == Ok::<(FlatValueV, int), Seq<char>>(
                (FlatValueV::Bool(x != 0), pos + 1),
            )
            &&& scalar_at(data, pos, 6) == Ok::<(FlatValueV, int), Seq<char>>(
                (FlatValueV::U8(x), pos + 1),
            )
        },
        x < 0x1_0000 && stands(data, pos, le_bytes(x, 2)) ==> scalar_at(data, pos, 7) == Ok::<
            (FlatValueV, int),
            Seq<char>,
        >((FlatValueV::U16(x), pos + 2)),
        x < 0x1_0000_0000_0000_0000 && stands(data, pos, le_bytes(x, 8)) ==> {
            &&& scalar_at(data, pos, 9) == Ok::<(FlatValueV, int), Seq<char>>(
                (FlatValueV::U64(x), pos + 8),
            )
            &&& scalar_at(data, pos, 2) == Ok::<(FlatValueV, int), Seq<char>>(
                (FlatValueV::Id(x), pos + 8),
            )
            &&& scalar_at(data, pos, 3) == Ok::<(FlatValueV, int), Seq<char>>(
                (FlatValueV::Id(x), pos + 8),
            )
            &&& scalar_at(data, pos, 19) == Ok::<(FlatValueV, int), Seq<char>>(
                (FlatValueV::Id(x), pos + 8),
            )
        },
{
    lemma_pows();
    if x < 0x1_0000_0000 && stands(data, pos, le_bytes(x, 4)) {
        lemma_int(data, pos, x, 4);
    }
    if x < 0x100 && stands(data, pos, le_bytes(x, 1)) {
        lemma_int(data, pos, x, 1);
    }
    if x < 0x1_0000 && stands(data, pos, le_bytes(x, 2)) {
        lemma_int(data, pos, x, 2);
    }
    if x < 0x1_0000_0000_0000_0000 && stands(data, pos, le_bytes(x, 8)) {
        lemma_int(data, pos, x, 8);
    }
}

/// Signed numbers keep their sign: each is read from its bytes in two's complement
/// as itself.
pub proof fn signed_numbers_are_read_as_written(data: Seq<u8>, pos: int, v: int)
    ensures
        -0x80 <= v < 0x80 && stands(data, pos, signed_bytes(v, 1)) ==> scalar_at(data, pos, 10)
            == Ok::<(FlatValueV, int), Seq<char>>((FlatValueV::I8(v), pos + 1)),
        -0x8000 <= v < 0x8000 && stands(data, pos, signed_bytes(v, 2)) ==> scalar_at(data, pos, 11)
            == Ok::<(FlatValueV, int), Seq<char>>((FlatValueV::I16(v), pos + 2)),
        -0x8000_0000 <= v < 0x8000_0000 && stands(data, pos, signed_bytes(v, 4)) ==> scalar_at(
            data,
            pos,
            12,
        ) == Ok::<(FlatValueV, int), Seq<char>>((FlatValueV::I32(v), pos + 4)),
        -0x8000_0000_0000_0000 <= v < 0x8000_0000_0000_0000 && stands(
            data,
            pos,
            signed_bytes(v, 8),
        ) ==> scalar_at(data, pos, 13) == Ok::<(FlatValueV, int), Seq<char>>(
            (FlatValueV::I64(v), pos + 8),
        ),
{
    lemma_pows();
    if -0x80 <= v < 0x80 && stands(data, pos, signed_bytes(v, 1)) {
        lemma_int(data, pos, (if v < 0 { v + 0x100 } else { v }) as nat, 1);
    }
    if -0x8000 <= v < 0x8000 && stands(data, pos, signed_bytes(v, 2)) {
        lemma_int(data, pos, (if v < 0 { v + 0x1_0000 } else { v }) as nat, 2);
    }
    if -0x8000_0000 <= v < 0x8000_0000 && stands(data, pos, signed_bytes(v, 4)) {
        lemma_int(data, pos, (if v < 0 { v + 0x1_0000_0000 } else { v }) as nat, 4);
    }
    if -0x8000_0000_0000_0000 <= v < 0x8000_0000_0000_0000 && stands(data, pos, signed_bytes(v, 8)) {
        lemma_int(data, pos, (if v < 0 { v + 0x1_0000_0000_0000_0000 } else { v }) as nat, 8);
    }
}

/// The bytes of floats, by their bit patterns, one after another.
pub open spec fn patterns(bits: Seq<nat>) -> Seq<u8>
    decreases bits.len(),
{
    if bits.len() == 0 {
        Seq::empty()
    } else {
        le_bytes(bits[0], 4) + patterns(bits.skip(1))
    }
}

pub open spec fn all_patterns(bits: Seq<nat>) -> bool {
    forall|i: int| 0 <= i < bits.len() ==> #[trigger] bits[i] < 0x1_0000_0000
}

proof fn lemma_floats(data: Seq<u8>, pos: int, bits: Seq<nat>)
    requires
        all_patterns(bits),
        stands(data, pos, patterns(bits)),
    ensures
        floats_at(data, pos, bits.len()) == Ok::<(Seq<nat>, int), Seq<char>>(
            (bits, pos + 4 * bits.len()),
        ),
    decreases bits.len(),
{
    lemma_pows();
    if bits.len() == 0 {
        assert(bits =~= Seq::empty());
    } else {
        lemma_le_bytes_len(bits[0], 4);
        lemma_stands_both(data, pos, le_bytes(bits[0], 4), patterns(bits.skip(1)));
        lemma_int(data, pos, bits[0], 4);
        let rest = bits.skip(1);
        assert forall|i: int| 0 <= i < rest.len() implies #[trigger] rest[i] < 0x1_0000_0000 by {
            assert(bits[i + 1] < 0x1_0000_0000);
        }
        lemma_floats(data, pos + 4, rest);
        assert(seq![bits[0]] + rest =~= bits);
    }
}

/// Vectors, angles and quaternions are read with all their components, in order and
/// by their bit patterns; a colour as its four bytes.
pub proof fn structures_are_read_as_written(data: Seq<u8>, pos: int, bits: Seq<nat>, c: Seq<u8>)
    requires
        all_patterns(bits),
    ensures
        stands(data, pos, patterns(bits)) ==> {
            &&& bits.len() == 3 ==> scalar_at(data, pos, 15) == Ok::<
                (FlatValueV, int),
                Seq<char>,
            >((FlatValueV::Floats(bits), pos + 12)) && scalar_at(data, pos, 18) == Ok::<
                (FlatValueV, int),
                Seq<char>,
            >((FlatValueV::Floats(bits), pos + 12))
            &&& bits.len() == 4 ==> scalar_at(data, pos, 16) == Ok::<
                (FlatValueV, int),
                Seq<char>,
            >((FlatValueV::Floats(bits), pos + 16))
            &&& bits.len() == 2 ==> scalar_at(data, pos, 17) == Ok::<
                (FlatValueV, int),
                Seq<char>,
            >((FlatValueV::Floats(bits), pos + 8))
        },
        c.len() == 4 && stands(data, pos, c) ==> scalar_at(data, pos, 14) == Ok::<
            (FlatValueV, int),
            Seq<char>,
        >((FlatValueV::Color(c), pos + 4)),
{
    if stands(data, pos, patterns(bits)) {
        lemma_floats(data, pos, bits);
    }
}

/// Texts are read as written, both kinds: those in UTF-8, whose length is negative,
/// and those in UTF-16, whose length is positive.
pub proof fn texts_are_read_as_written(data: Seq<u8>, pos: int, s: Seq<char>, units: Seq<u8>, n: nat)
    ensures
        encode_utf8(s).len() <= i32::MAX && stands(data, pos, string_bytes(s)) ==> {
            &&& scalar_at(data, pos, 0) == Ok::<(FlatValueV, int), Seq<char>>(
                (FlatValueV::Str(s), pos + string_bytes(s).len()),
            )
            &&& scalar_at(data, pos, 1) == Ok::<(FlatValueV, int), Seq<char>>(
                (FlatValueV::Str(s), pos + string_bytes(s).len()),
            )
        },
        0 < n <= i32::MAX && units.len() == 2 * n && stands(
            data,
            pos,
            vlq_bytes(n as int) + units,
        ) ==> {
            &&& scalar_at(data, pos, 0) == Ok::<(FlatValueV, int), Seq<char>>(
                (
                    FlatValueV::Str(utf16_text(units_of(units))),
                    pos + vlq_bytes(n as int).len() + 2 * n,
                ),
            )
            &&& scalar_at(data, pos, 1) == scalar_at(data, pos, 0)
        },
{
    if encode_utf8(s).len() <= i32::MAX && stands(data, pos, string_bytes(s)) {
        lemma_text(data, pos, s);
    }
    if 0 < n <= i32::MAX && units.len() == 2 * n && stands(data, pos, vlq_bytes(n as int) + units) {
        lemma_units(data, pos, units, n);
    }
}

proof fn lemma_count(data: Seq<u8>, pos: int, n: i32)
    requires
        stands(data, pos, vlq_bytes(n as int)),
    ensures
        vlq_at(data, pos) == Ok::<(int, int), Seq<char>>(
            (n as int, pos + vlq_bytes(n as int).len()),
        ),
{
    let head = vlq_bytes(n as int);
    let front = data.take(pos);
    let rest = data.skip(pos + head.len());
    vlq_round_trip(front, n, rest);
    assert(front + head + rest =~= data) by {
        assert(head =~= data.subrange(pos, pos + head.len()));
    }
}

proof fn lemma_text(data: Seq<u8>, pos: int, s: Seq<char>)
    requires
        encode_utf8(s).len() <= i32::MAX,
        stands(data, pos, string_bytes(s)),
    ensures
        string_at(data, pos) == Ok::<(Seq<char>, int), Seq<char>>(
            (s, pos + string_bytes(s).len()),
        ),
{
    let all = string_bytes(s);
    let front = data.take(pos);
    let rest = data.skip(pos + all.len());
    string_round_trip(front, s, rest);
    assert(front + all + rest =~= data) by {
        assert(all =~= data.subrange(pos, pos + all.len()));
    }
}

proof fn lemma_units(data: Seq<u8>, pos: int, units: Seq<u8>, n: nat)
    requires
        0 < n <= i32::MAX,
        units.len() == 2 * n,
        stands(data, pos, vlq_bytes(n as int) + units),
    ensures
        string_at(data, pos) == Ok::<(Seq<char>, int), Seq<char>>(
            (utf16_text(units_of(units)), pos + vlq_bytes(n as int).len() + 2 * n),
        ),
{
    lemma_stands_both(data, pos, vlq_bytes(n as int), units);
    lemma_count(data, pos, n as i32);
}

// ---- arrays and groups -----------------------------------------------------

/// Do the bytes hold exactly this value of the type, wherever they stand?
pub open spec fn writes(ty: ResolvedType, bytes: Seq<u8>, v: FlatValueV) -> bool {
    forall|data: Seq<u8>, pos: int| #[trigger]
        stands(data, pos, bytes) ==> value_at(data, pos, ty) == Ok::<
            (FlatValueV, int),
            Seq<char>,
        >((v, pos + bytes.len()))
}

pub open spec fn writes_all(ty: ResolvedType, es: Seq<Seq<u8>>, vs: Seq<FlatValueV>) -> bool {
    es.len() == vs.len() && forall|i: int|
        0 <= i < es.len() ==> writes(ty, #[trigger] es[i], vs[i])
}

proof fn lemma_front(es: Seq<Seq<u8>>)
    requires
        es.len() > 0,
    ensures
        concatenated(es) == es[0] + concatenated(es.skip(1)),
    decreases es.len(),
{
    if es.len() == 1 {
        assert(es.drop_last() =~= Seq::empty());
        assert(es.skip(1) =~= Seq::empty());
        assert(concatenated(es) =~= es[0] + concatenated(es.skip(1)));
    } else {
        lemma_front(es.drop_last());
        assert(es.drop_last().skip(1) =~= es.skip(1).drop_last());
        assert(concatenated(es) =~= es[0] + concatenated(es.skip(1)));
    }
}

proof fn lemma_rest(ty: ResolvedType, es: Seq<Seq<u8>>, vs: Seq<FlatValueV>)
    requires
        writes_all(ty, es, vs),
        es.len() > 0,
    ensures
        writes_all(ty, es.skip(1), vs.skip(1)),
{
    assert forall|i: int| 0 <= i < es.skip(1).len() implies writes(
        ty,
        #[trigger] es.skip(1)[i],
        vs.skip(1)[i],
    ) by {
        assert(writes(ty, es[i + 1], vs[i + 1]));
    }
}

proof fn lemma_values(data: Seq<u8>, pos: int, ty: ResolvedType, es: Seq<Seq<u8>>, vs: Seq<FlatValueV>)
    requires
        writes_all(ty, es, vs),
        stands(data, pos, concatenated(es)),
    ensures
        values_at(data, pos, ty, es.len()) == Ok::<(Seq<FlatValueV>, int), Seq<char>>(
            (vs, pos + concatenated(es).len()),
        ),
        blobs_at(data, pos, ty, es.len()) == Ok::<(Seq<Seq<u8>>, int), Seq<char>>(
            (es, pos + concatenated(es).len()),
        ),
        !ty.is_array ==> scalars_at(data, pos, ty.index as int, es.len()) == Ok::<
            (Seq<FlatValueV>, int),
            Seq<char>,
        >((vs, pos + concatenated(es).len())),
    decreases es.len(),
{
    if es.len() == 0 {
        assert(vs =~= Seq::empty());
        assert(es =~= Seq::empty());
    } else {
        lemma_front(es);
        lemma_stands_both(data, pos, es[0], concatenated(es.skip(1)));
        assert(writes(ty, es[0], vs[0]));
        lemma_rest(ty, es, vs);
        lemma_values(data, pos + es[0].len(), ty, es.skip(1), vs.skip(1));
        assert(seq![vs[0]] + vs.skip(1) =~= vs);
        assert(seq![es[0]] + es.skip(1) =~= es);
        assert(data.subrange(pos, pos + es[0].len()) =~= es[0]);
    }
}

/// An array is its count and its elements: it is read as the values of its
/// elements, all of them and in their order.
pub proof fn arrays_are_their_elements(index: usize, es: Seq<Seq<u8>>, vs: Seq<FlatValueV>)
    requires
        writes_all(ResolvedType { index, is_array: false }, es, vs),
        es.len() <= i32::MAX,
    ensures
        writes(
            ResolvedType { index, is_array: true },
            vlq_bytes(es.len() as int) + concatenated(es),
            FlatValueV::Array(vs),
        ),
{
    let ty = ResolvedType { index, is_array: true };
    let elem = ResolvedType { index, is_array: false };
    let head = vlq_bytes(es.len() as int);
    let all = head + concatenated(es);
    assert forall|data: Seq<u8>, pos: int| #[trigger] stands(data, pos, all) implies value_at(
        data,
        pos,
        ty,
    ) == Ok::<(FlatValueV, int), Seq<char>>((FlatValueV::Array(vs), pos + all.len())) by {
        lemma_stands_both(data, pos, head, concatenated(es));
        lemma_count(data, pos, es.len() as i32);
        lemma_values(data, pos + head.len(), elem, es, vs);
    }
}

/// The bytes of the keys of a group: each with the id and the index of its value.
pub open spec fn key_bytes(keys: Seq<(nat, int)>) -> Seq<u8>
    decreases keys.len(),
{
    if keys.len() == 0 {
        Seq::empty()
    } else {
        le_bytes(keys[0].0, 8) + signed_bytes(keys[0].1, 4) + key_bytes(keys.skip(1))
    }
}

/// Are the keys numbers that such bytes can hold?
pub open spec fn plain_keys(keys: Seq<(nat, int)>) -> bool {
    forall|i: int|
        0 <= i < keys.len() ==> (#[trigger] keys[i]).0 < 0x1_0000_0000_0000_0000 && -0x8000_0000
            <= keys[i].1 < 0x8000_0000
}

proof fn lemma_i32(data: Seq<u8>, pos: int, v: int)
    requires
        -0x8000_0000 <= v < 0x8000_0000,
        stands(data, pos, signed_bytes(v, 4)),
    ensures
        i32_at(data, pos) == Ok::<(int, int), Seq<char>>((v, pos + 4)),
{
    lemma_pows();
    lemma_int(data, pos, (if v < 0 { v + 0x1_0000_0000 } else { v }) as nat, 4);
}

proof fn lemma_key(data: Seq<u8>, pos: int, keys: Seq<(nat, int)>)
    requires
        plain_keys(keys),
        keys.len() > 0,
        stands(data, pos, key_bytes(keys)),
    ensures
        key_at(data, pos) == Ok::<((nat, int), int), Seq<char>>((keys[0], pos + 12)),
        stands(data, pos + 12, key_bytes(keys.skip(1))),
        plain_keys(keys.skip(1)),
{
    lemma_pows();
    assert(plain_keys(keys) && keys[0].0 < 0x1_0000_0000_0000_0000);
    let a = le_bytes(keys[0].0, 8);
    let b = signed_bytes(keys[0].1, 4);
    lemma_le_bytes_len(keys[0].0, 8);
    lemma_le_bytes_len((if keys[0].1 < 0 { keys[0].1 + 0x1_0000_0000 } else { keys[0].1 }) as nat, 4);
    lemma_stands_both(data, pos, a + b, key_bytes(keys.skip(1)));
    lemma_stands_both(data, pos, a, b);
    lemma_int(data, pos, keys[0].0, 8);
    lemma_i32(data, pos + 8, keys[0].1);
    assert forall|i: int| 0 <= i < keys.skip(1).len() implies (#[trigger] keys.skip(1)[i]).0
        < 0x1_0000_0000_0000_0000 && -0x8000_0000 <= keys.skip(1)[i].1 < 0x8000_0000 by {
        assert(keys[i + 1].0 < 0x1_0000_0000_0000_0000);
    }
}

proof fn lemma_keyed(data: Seq<u8>, pos: int, keys: Seq<(nat, int)>, vs: Seq<FlatValueV>)
    requires
        plain_keys(keys),
        stands(data, pos, key_bytes(keys)),
    ensures
        keys_at(data, pos, keys.len()) == Ok::<(Seq<(nat, int)>, int), Seq<char>>(
            (keys, pos + 12 * keys.len()),
        ),
        (forall|i: int| 0 <= i < keys.len() ==> 0 <= (#[trigger] keys[i]).1 < vs.len()) ==> keyed_at(
            data,
            pos,
            vs,
            keys.len(),
        ) == Ok::<(Seq<(nat, FlatValueV)>, int), Seq<char>>(
            (
                Seq::new(keys.len(), |i: int| (keys[i].0, vs[keys[i].1])),
                pos + 12 * keys.len(),
            ),
        ),
        (exists|i: int| 0 <= i < keys.len() && !(0 <= (#[trigger] keys[i]).1 < vs.len())) ==> keyed_at(
            data,
            pos,
            vs,
            keys.len(),
        ) is Err,
    decreases keys.len(),
{
    if keys.len() == 0 {
        assert(keys =~= Seq::empty());
        assert(Seq::new(keys.len(), |i: int| (keys[i].0, vs[keys[i].1])) =~= Seq::empty());
    } else {
        lemma_key(data, pos, keys);
        let rest = keys.skip(1);
        lemma_keyed(data, pos + 12, rest, vs);
        assert(seq![keys[0]] + rest =~= keys);
        if forall|i: int| 0 <= i < keys.len() ==> 0 <= (#[trigger] keys[i]).1 < vs.len() {
            assert(0 <= keys[0].1 < vs.len());
            assert forall|i: int| 0 <= i < rest.len() implies 0 <= (#[trigger] rest[i]).1
                < vs.len() by {
                assert(rest[i] == keys[i + 1]);
            }
            assert(seq![(keys[0].0, vs[keys[0].1])] + Seq::new(
                rest.len(),
                |i: int| (rest[i].0, vs[rest[i].1]),
            ) =~= Seq::new(keys.len(), |i: int| (keys[i].0, vs[keys[i].1])));
        } else {
            let i = choose|i: int| 0 <= i < keys.len() && !(0 <= (#[trigger] keys[i]).1 < vs.len());
            if i > 0 {
                assert(rest[i - 1] == keys[i]);
            }
        }
    }
}

/// A group of flats, at its offset, is the number of its values, the values, the
/// number of its keys, and the keys: every key is read with the value that its
/// index refers to, and one whose index refers to none is an error.
pub proof fn groups_are_their_values_and_keys(
    data: Seq<u8>,
    types: Seq<FlatType>,
    g: int,
    es: Seq<Seq<u8>>,
    vs: Seq<FlatValueV>,
    keys: Seq<(nat, int)>,
)
    requires
        0 <= g < types.len(),
        types[g].resolved is Some,
        writes_all(types[g].resolved->0, es, vs),
        es.len() < 0x1_0000_0000,
        keys.len() < 0x1_0000_0000,
        plain_keys(keys),
        stands(
            data,
            types[g].offset as int,
            le_bytes(es.len(), 4) + concatenated(es) + le_bytes(keys.len(), 4) + key_bytes(keys),
        ),
    ensures
        (forall|i: int| 0 <= i < keys.len() ==> 0 <= (#[trigger] keys[i]).1 < vs.len()) ==> group_values(
            data,
            types,
            g,
        ) == Ok::<Seq<(nat, FlatValueV)>, Seq<char>>(
            Seq::new(keys.len(), |i: int| (keys[i].0, vs[keys[i].1])),
        ),
        (exists|i: int| 0 <= i < keys.len() && !(0 <= (#[trigger] keys[i]).1 < vs.len()))
            ==> group_values(data, types, g) is Err,
        group_raw(data, types, g) is Ok,
        (group_raw(data, types, g)->Ok_0).type_hash == types[g].type_hash,
        (group_raw(data, types, g)->Ok_0).values == es,
        (group_raw(data, types, g)->Ok_0).keys == keys,
{
    lemma_pows();
    let ty = types[g].resolved->0;
    let at = types[g].offset as int;
    let a = le_bytes(es.len(), 4);
    let b = concatenated(es);
    let c = le_bytes(keys.len(), 4);
    let d = key_bytes(keys);
    lemma_le_bytes_len(es.len(), 4);
    lemma_le_bytes_len(keys.len(), 4);
    lemma_stands_both(data, at, a + b + c, d);
    lemma_stands_both(data, at, a + b, c);
    lemma_stands_both(data, at, a, b);
    lemma_int(data, at, es.len(), 4);
    lemma_values(data, at + 4, ty, es, vs);
    lemma_int(data, at + 4 + b.len(), keys.len(), 4);
    lemma_keyed(data, at + 8 + b.len(), keys, vs);
}

// ---- sections --------------------------------------------------------------

/// The header of a file: the magic number, the versions 8 and 4, the checksum, and
/// where the flats, the records, the queries and the tags start.
pub open spec fn header_bytes(checksum: nat, flats: nat, records: nat, queries: nat, tags: nat) -> Seq<u8> {
    le_bytes(0x0BB1_DB47, 4) + le_bytes(8, 4) + le_bytes(4, 4) + le_bytes(checksum, 4) + le_bytes(
        flats,
        4,
    ) + le_bytes(records, 4) + le_bytes(queries, 4) + le_bytes(tags, 4)
}

/// The header is read field by field.
pub proof fn headers_are_read_as_written(
    data: Seq<u8>,
    checksum: nat,
    flats: nat,
    records: nat,
    queries: nat,
    tags: nat,
)
    requires
        checksum < 0x1_0000_0000,
        flats < 0x1_0000_0000,
        records < 0x1_0000_0000,
        queries < 0x1_0000_0000,
        tags < 0x1_0000_0000,
        stands(data, 0, header_bytes(checksum, flats, records, queries, tags)),
    ensures
        header_of(data) is Ok,
        (header_of(data)->Ok_0).checksum == checksum,
        (header_of(data)->Ok_0).flats == flats,
        (header_of(data)->Ok_0).records == records,
        (header_of(data)->Ok_0).queries == queries,
        (header_of(data)->Ok_0).tags == tags,
{
    lemma_pows();
    let m = le_bytes(0x0BB1_DB47, 4);
    let b = le_bytes(8, 4);
    let p = le_bytes(4, 4);
    let c = le_bytes(checksum, 4);
    let f = le_bytes(flats, 4);
    let r = le_bytes(records, 4);
    let q = le_bytes(queries, 4);
    let t = le_bytes(tags, 4);
    assert forall|v: nat| (#[trigger] le_bytes(v, 4)).len() == 4 by {
        lemma_le_bytes_len(v, 4);
    }
    lemma_stands_both(data, 0, m + b + p + c + f + r + q, t);
    lemma_stands_both(data, 0, m + b + p + c + f + r, q);
    lemma_stands_both(data, 0, m + b + p + c + f, r);
    lemma_stands_both(data, 0, m + b + p + c, f);
    lemma_stands_both(data, 0, m + b + p, c);
    lemma_stands_both(data, 0, m + b, p);
    lemma_stands_both(data, 0, m, b);
    lemma_int(data, 0, 0x0BB1_DB47, 4);
    assert(signed_bytes(8, 4) == b && signed_bytes(4, 4) == p);
    lemma_i32(data, 4, 8);
    lemma_i32(data, 8, 4);
    lemma_int(data, 12, checksum, 4);
    lemma_int(data, 16, flats, 4);
    lemma_int(data, 20, records, 4);
    lemma_int(data, 24, queries, 4);
    lemma_int(data, 28, tags, 4);
}

/// A file with another magic number or another version is refused.
pub proof fn other_files_are_refused(data: Seq<u8>, magic: nat, blob: int, parser: int)
    requires
        magic < 0x1_0000_0000,
        -0x8000_0000 <= blob < 0x8000_0000,
        -0x8000_0000 <= parser < 0x8000_0000,
        stands(data, 0, le_bytes(magic, 4) + signed_bytes(blob, 4) + signed_bytes(parser, 4)),
        magic != 0x0BB1_DB47 || blob != 8 || parser != 4,
    ensures
        opened(data) is Err,
{
    lemma_pows();
    let a = le_bytes(magic, 4);
    let b = signed_bytes(blob, 4);
    let c = signed_bytes(parser, 4);
    assert forall|v: nat| (#[trigger] le_bytes(v, 4)).len() == 4 by {
        lemma_le_bytes_len(v, 4);
    }
    lemma_stands_both(data, 0, a + b, c);
    lemma_stands_both(data, 0, a, b);
    lemma_int(data, 0, magic, 4);
    lemma_i32(data, 4, blob);
    lemma_i32(data, 8, parser);
}

/// The bytes of the records: each with its id and the key of its type.
pub open spec fn record_bytes(rs: Seq<Record>) -> Seq<u8>
    decreases rs.len(),
{
    if rs.len() == 0 {
        Seq::empty()
    } else {
        le_bytes(rs[0].id as nat, 8) + le_bytes(rs[0].type_key as nat, 4) + record_bytes(rs.skip(1))
    }
}

proof fn lemma_records(data: Seq<u8>, pos: int, rs: Seq<Record>)
    requires
        stands(data, pos, record_bytes(rs)),
    ensures
        records_at(data, pos, rs.len()) == Ok::<(Seq<Record>, int), Seq<char>>(
            (rs, pos + 12 * rs.len()),
        ),
    decreases rs.len(),
{
    lemma_pows();
    if rs.len() == 0 {
        assert(rs =~= Seq::empty());
    } else {
        let a = le_bytes(rs[0].id as nat, 8);
        let b = le_bytes(rs[0].type_key as nat, 4);
        lemma_le_bytes_len(rs[0].id as nat, 8);
        lemma_le_bytes_len(rs[0].type_key as nat, 4);
        lemma_stands_both(data, pos, a + b, record_bytes(rs.skip(1)));
        lemma_stands_both(data, pos, a, b);
        lemma_int(data, pos, rs[0].id as nat, 8);
        lemma_int(data, pos + 8, rs[0].type_key as nat, 4);
        lemma_records(data, pos + 12, rs.skip(1));
        assert(seq![rs[0]] + rs.skip(1) =~= rs);
    }
}

/// The bytes of the list of groups: each with the hash of its type, how many values
/// and keys it has, and where it starts.
pub open spec fn group_list_bytes(ts: Seq<FlatType>) -> Seq<u8>
    decreases ts.len(),
{
    if ts.len() == 0 {
        Seq::empty()
    } else {
        le_bytes(ts[0].type_hash as nat, 8) + le_bytes(ts[0].value_count as nat, 4) + le_bytes(
            ts[0].key_count as nat,
            4,
        ) + le_bytes(ts[0].offset as nat, 4) + group_list_bytes(ts.skip(1))
    }
}

proof fn lemma_types(data: Seq<u8>, pos: int, ts: Seq<FlatType>)
    requires
        stands(data, pos, group_list_bytes(ts)),
        forall|i: int| 0 <= i < ts.len() ==> (#[trigger] ts[i]).resolved == type_with_hash(ts[i].type_hash, 0),
    ensures
        flat_types_at(data, pos, ts.len()) == Ok::<(Seq<FlatType>, int), Seq<char>>(
            (ts, pos + 20 * ts.len()),
        ),
    decreases ts.len(),
{
    lemma_pows();
    if ts.len() == 0 {
        assert(ts =~= Seq::empty());
    } else {
        let t = ts[0];
        let a = le_bytes(t.type_hash as nat, 8);
        let b = le_bytes(t.value_count as nat, 4);
        let c = le_bytes(t.key_count as nat, 4);
        let d = le_bytes(t.offset as nat, 4);
        lemma_le_bytes_len(t.type_hash as nat, 8);
        lemma_le_bytes_len(t.value_count as nat, 4);
        lemma_le_bytes_len(t.key_count as nat, 4);
        lemma_le_bytes_len(t.offset as nat, 4);
        lemma_stands_both(data, pos, a + b + c + d, group_list_bytes(ts.skip(1)));
        lemma_stands_both(data, pos, a + b + c, d);
        lemma_stands_both(data, pos, a + b, c);
        lemma_stands_both(data, pos, a, b);
        lemma_int(data, pos, t.type_hash as nat, 8);
        lemma_int(data, pos + 8, t.value_count as nat, 4);
        lemma_int(data, pos + 12, t.key_count as nat, 4);
        lemma_int(data, pos + 16, t.offset as nat, 4);
        assert(t.resolved == type_with_hash(t.type_hash, 0));
        assert forall|i: int| 0 <= i < ts.skip(1).len() implies (#[trigger] ts.skip(1)[i]).resolved
            == type_with_hash(ts.skip(1)[i].type_hash, 0) by {
            assert(ts[i + 1].resolved == type_with_hash(ts[i + 1].type_hash, 0));
        }
        lemma_types(data, pos + 20, ts.skip(1));
        assert(seq![t] + ts.skip(1) =~= ts);
    }
}

/// A file whose header leads to a list of groups, a list of records, and counts of
/// queries and tags is opened with exactly these.
pub proof fn files_are_opened_as_written(
    data: Seq<u8>,
    checksum: nat,
    flats: nat,
    records: nat,
    queries: nat,
    tags: nat,
    ts: Seq<FlatType>,
    rs: Seq<Record>,
    qn: int,
    tn: int,
)
    requires
        checksum < 0x1_0000_0000,
        flats < 0x1_0000_0000,
        records < 0x1_0000_0000,
        queries < 0x1_0000_0000,
        tags < 0x1_0000_0000,
        stands(data, 0, header_bytes(checksum, flats, records, queries, tags)),
        ts.len() < 0x8000_0000,
        rs.len() < 0x8000_0000,
        -0x8000_0000 <= qn < 0x8000_0000,
        -0x8000_0000 <= tn < 0x8000_0000,
        forall|i: int| 0 <= i < ts.len() ==> (#[trigger] ts[i]).resolved == type_with_hash(ts[i].type_hash, 0),
        stands(data, flats as int, signed_bytes(ts.len() as int, 4) + group_list_bytes(ts)),
        stands(data, records as int, signed_bytes(rs.len() as int, 4) + record_bytes(rs)),
        stands(data, queries as int, signed_bytes(qn, 4)),
        stands(data, tags as int, signed_bytes(tn, 4)),
    ensures
        opened(data) is Ok,
        (opened(data)->Ok_0).header.checksum == checksum,
        (opened(data)->Ok_0).flat_types == ts,
        (opened(data)->Ok_0).records == rs,
        (opened(data)->Ok_0).query_count == (if qn < 0 {
            0
        } else {
            qn
        }),
        (opened(data)->Ok_0).group_tag_count == (if tn < 0 {
            0
        } else {
            tn
        }),
{
    headers_are_read_as_written(data, checksum, flats, records, queries, tags);
    let a = signed_bytes(ts.len() as int, 4);
    let b = signed_bytes(rs.len() as int, 4);
    assert forall|v: nat| (#[trigger] le_bytes(v, 4)).len() == 4 by {
        lemma_le_bytes_len(v, 4);
    }
    lemma_stands_both(data, flats as int, a, group_list_bytes(ts));
    lemma_stands_both(data, records as int, b, record_bytes(rs));
    lemma_i32(data, flats as int, ts.len() as int);
    lemma_i32(data, records as int, rs.len() as int);
    lemma_i32(data, queries as int, qn);
    lemma_i32(data, tags as int, tn);
    lemma_types(data, flats as int + 4, ts);
    lemma_records(data, records as int + 4, rs);
}

/// The bytes of ids, one after another.
pub open spec fn id_bytes(ids: Seq<nat>) -> Seq<u8>
    decreases ids.len(),
{
    if ids.len() == 0 {
        Seq::empty()
    } else {
        le_bytes(ids[0], 8) + id_bytes(ids.skip(1))
    }
}

pub open spec fn plain_ids(ids: Seq<nat>) -> bool {
    forall|i: int| 0 <= i < ids.len() ==> #[trigger] ids[i] < 0x1_0000_0000_0000_0000
}

proof fn lemma_ids(data: Seq<u8>, pos: int, ids: Seq<nat>)
    requires
        plain_ids(ids),
        stands(data, pos, id_bytes(ids)),
    ensures
        ids_at(data, pos, ids.len()) == Ok::<(Seq<nat>, int), Seq<char>>(
            (ids, pos + 8 * ids.len()),
        ),
    decreases ids.len(),
{
    lemma_pows();
    if ids.len() == 0 {
        assert(ids =~= Seq::empty());
    } else {
        lemma_le_bytes_len(ids[0], 8);
        lemma_stands_both(data, pos, le_bytes(ids[0], 8), id_bytes(ids.skip(1)));
        lemma_int(data, pos, ids[0], 8);
        assert forall|i: int| 0 <= i < ids.skip(1).len() implies #[trigger] ids.skip(1)[i]
            < 0x1_0000_0000_0000_0000 by {
            assert(ids[i + 1] < 0x1_0000_0000_0000_0000);
        }
        lemma_ids(data, pos + 8, ids.skip(1));
        assert(seq![ids[0]] + ids.skip(1) =~= ids);
    }
}

/// A query is its id, the number of its results, and the results; a tag is an id
/// and one byte.
pub proof fn queries_and_tags_are_read_as_written(data: Seq<u8>, pos: int, id: nat, ids: Seq<nat>, tag: nat)
    requires
        id < 0x1_0000_0000_0000_0000,
        plain_ids(ids),
        ids.len() < 0x1_0000_0000,
        tag < 0x100,
    ensures
        stands(data, pos, le_bytes(id, 8) + le_bytes(ids.len(), 4) + id_bytes(ids)) ==> query_at(
            data,
            pos,
        ) == Ok::<((nat, Seq<nat>), int), Seq<char>>(((id, ids), pos + 12 + 8 * ids.len())),
        stands(data, pos, le_bytes(id, 8) + le_bytes(tag, 1)) ==> tag_at(data, pos) == Ok::<
            ((nat, nat), int),
            Seq<char>,
        >(((id, tag), pos + 9)),
{
    lemma_pows();
    lemma_le_bytes_len(id, 8);
    lemma_le_bytes_len(ids.len(), 4);
    lemma_le_bytes_len(tag, 1);
    if stands(data, pos, le_bytes(id, 8) + le_bytes(ids.len(), 4) + id_bytes(ids)) {
        lemma_stands_both(data, pos, le_bytes(id, 8) + le_bytes(ids.len(), 4), id_bytes(ids));
        lemma_stands_both(data, pos, le_bytes(id, 8), le_bytes(ids.len(), 4));
        lemma_int(data, pos, id, 8);
        lemma_int(data, pos + 8, ids.len(), 4);
        lemma_ids(data, pos + 12, ids);
    }
    if stands(data, pos, le_bytes(id, 8) + le_bytes(tag, 1)) {
        lemma_stands_both(data, pos, le_bytes(id, 8), le_bytes(tag, 1));
        lemma_int(data, pos, id, 8);
        lemma_int(data, pos + 8, tag, 1);
    }
}

/// The bytes of queries and of tags, one after another.
pub open spec fn query_bytes(qs: Seq<(nat, Seq<nat>)>) -> Seq<u8>
    decreases qs.len(),
{
    if qs.len() == 0 {
        Seq::empty()
    } else {
        le_bytes(qs[0].0, 8) + le_bytes(qs[0].1.len(), 4) + id_bytes(qs[0].1) + query_bytes(
            qs.skip(1),
        )
    }
}

pub open spec fn tag_bytes(ts: Seq<(nat, nat)>) -> Seq<u8>
    decreases ts.len(),
{
    if ts.len() == 0 {
        Seq::empty()
    } else {
        le_bytes(ts[0].0, 8) + le_bytes(ts[0].1, 1) + tag_bytes(ts.skip(1))
    }
}

pub open spec fn plain_query(q: (nat, Seq<nat>)) -> bool {
    q.0 < 0x1_0000_0000_0000_0000 && plain_ids(q.1) && q.1.len() < 0x1_0000_0000
}

pub open spec fn plain_tag(t: (nat, nat)) -> bool {
    t.0 < 0x1_0000_0000_0000_0000 && t.1 < 0x100
}

proof fn lemma_queries(data: Seq<u8>, pos: int, qs: Seq<(nat, Seq<nat>)>)
    requires
        forall|i: int| 0 <= i < qs.len() ==> plain_query(#[trigger] qs[i]),
        stands(data, pos, query_bytes(qs)),
    ensures
        queries_at(data, pos, qs.len()) == Ok::<(Seq<(nat, Seq<nat>)>, int), Seq<char>>(
            (qs, pos + query_bytes(qs).len()),
        ),
    decreases qs.len(),
{
    if qs.len() == 0 {
        assert(qs =~= Seq::empty());
    } else {
        let q = qs[0];
        let a = le_bytes(q.0, 8) + le_bytes(q.1.len(), 4) + id_bytes(q.1);
        assert(plain_query(q));
        lemma_stands_both(data, pos, a, query_bytes(qs.skip(1)));
        queries_and_tags_are_read_as_written(data, pos, q.0, q.1, 0);
        lemma_le_bytes_len(q.0, 8);
        lemma_le_bytes_len(q.1.len(), 4);
        lemma_ids_len(q.1);
        assert forall|i: int| 0 <= i < qs.skip(1).len() implies plain_query(
            #[trigger] qs.skip(1)[i],
        ) by {
            assert(plain_query(qs[i + 1]));
        }
        lemma_queries(data, pos + a.len(), qs.skip(1));
        assert(seq![q] + qs.skip(1) =~= qs);
    }
}

proof fn lemma_ids_len(ids: Seq<nat>)
    ensures
        id_bytes(ids).len() == 8 * ids.len(),
    decreases ids.len(),
{
    if ids.len() > 0 {
        lemma_le_bytes_len(ids[0], 8);
        lemma_ids_len(ids.skip(1));
    }
}

proof fn lemma_tags(data: Seq<u8>, pos: int, ts: Seq<(nat, nat)>)
    requires
        forall|i: int| 0 <= i < ts.len() ==> plain_tag(#[trigger] ts[i]),
        stands(data, pos, tag_bytes(ts)),
    ensures
        tags_at(data, pos, ts.len()) == Ok::<(Seq<(nat, nat)>, int), Seq<char>>(
            (ts, pos + 9 * ts.len()),
        ),
    decreases ts.len(),
{
    if ts.len() == 0 {
        assert(ts =~= Seq::empty());
    } else {
        let t = ts[0];
        let a = le_bytes(t.0, 8) + le_bytes(t.1, 1);
        assert(plain_tag(t));
        lemma_stands_both(data, pos, a, tag_bytes(ts.skip(1)));
        queries_and_tags_are_read_as_written(data, pos, t.0, Seq::empty(), t.1);
        lemma_le_bytes_len(t.0, 8);
        lemma_le_bytes_len(t.1, 1);
        assert forall|i: int| 0 <= i < ts.skip(1).len() implies plain_tag(
            #[trigger] ts.skip(1)[i],
        ) by {
            assert(plain_tag(ts[i + 1]));
        }
        lemma_tags(data, pos + 9, ts.skip(1));
        assert(seq![t] + ts.skip(1) =~= ts);
    }
}

/// The sections of queries and of tags are their count and their entries, in order;
/// a negative count counts as none.
pub proof fn sections_are_their_entries(
    data: Seq<u8>,
    offset: nat,
    n: int,
    qs: Seq<(nat, Seq<nat>)>,
    ts: Seq<(nat, nat)>,
)
    requires
        -0x8000_0000 <= n < 0x8000_0000,
        forall|i: int| 0 <= i < qs.len() ==> plain_query(#[trigger] qs[i]),
        forall|i: int| 0 <= i < ts.len() ==> plain_tag(#[trigger] ts[i]),
    ensures
        n <= 0 && stands(data, offset as int, signed_bytes(n, 4)) ==> queries_of(data, offset)
            == Ok::<Seq<(nat, Seq<nat>)>, Seq<char>>(Seq::empty()) && group_tags_of(data, offset)
            == Ok::<Seq<(nat, nat)>, Seq<char>>(Seq::empty()),
        n == qs.len() && stands(data, offset as int, signed_bytes(n, 4) + query_bytes(qs))
            ==> queries_of(data, offset) == Ok::<Seq<(nat, Seq<nat>)>, Seq<char>>(qs),
        n == ts.len() && stands(data, offset as int, signed_bytes(n, 4) + tag_bytes(ts))
            ==> group_tags_of(data, offset) == Ok::<Seq<(nat, nat)>, Seq<char>>(ts),
{
    let head = signed_bytes(n, 4);
    assert(head.len() == 4) by {
        lemma_pows();
        lemma_le_bytes_len((if n < 0 { n + 0x1_0000_0000 } else { n }) as nat, 4);
    }
    if n <= 0 && stands(data, offset as int, head) {
        lemma_i32(data, offset as int, n);
    }
    if n == qs.len() && stands(data, offset as int, head + query_bytes(qs)) {
        lemma_stands_both(data, offset as int, head, query_bytes(qs));
        lemma_i32(data, offset as int, n);
        lemma_queries(data, offset as int + 4, qs);
    }
    if n == ts.len() && stands(data, offset as int, head + tag_bytes(ts)) {
        lemma_stands_both(data, offset as int, head, tag_bytes(ts));
        lemma_i32(data, offset as int, n);
        lemma_tags(data, offset as int + 4, ts);
    }
}

} // verus!
