//! What is encoded is read back: the length of every type, and arrays of values
//! that were encoded from texts.
use vstd::prelude::*;
use vstd::utf8::encode_utf8;

use crate::cursor::{le_bytes, lemma_le_bytes_len, pow256, vlq_at};
use crate::encode::{
    array_bytes, channel_values, cname_text, color_value, concatenated, encoded, float_bytes,
    float_count, float_label, float_texts_of,
};
use crate::text::{split_at, trimmed};
use crate::tweakdb::{
    array_round_trip, blobs_at, count_at, elements_of, encoded_floats_read_back,
    encoded_value_reads_back, is_value, raw_values_are_the_bytes, ResolvedType,
};

verus! {

/// The number of bytes of a type; none for the two that are texts, and for what
/// is no type.
pub open spec fn fixed_width(index: int) -> Option<nat> {
    if index == 5 || index == 6 || index == 10 {
        Some(1)
    } else if index == 7 || index == 11 {
        Some(2)
    } else if index == 4 || index == 8 || index == 12 || index == 14 {
        Some(4)
    } else if index == 2 || index == 3 || index == 9 || index == 13 || index == 17 || index == 19 {
        Some(8)
    } else if index == 15 || index == 18 {
        Some(12)
    } else if index == 16 {
        Some(16)
    } else {
        None
    }
}

/// Is a text short enough for its length to be written?
pub open spec fn short_enough(index: int, text: Seq<char>) -> bool {
    &&& index == 0 ==> encode_utf8(cname_text(trimmed(text))).len() <= i32::MAX
    &&& index == 1 ==> encode_utf8(trimmed(text)).len() <= i32::MAX
}

/// Are these the bytes that a text of the type is encoded to?
pub open spec fn encodes(index: int, text: Seq<char>, bytes: Seq<u8>) -> bool {
    &&& float_count(index) == 0
    &&& short_enough(index, text)
    &&& encoded(index, text) == Ok::<Seq<u8>, Seq<char>>(bytes)
}

/// The same for the types of floats, where `bits` are the bit patterns that the
/// parts of the text were read as.
pub open spec fn encodes_floats(
    index: int,
    text: Seq<char>,
    bits: Seq<Option<u32>>,
    bytes: Seq<u8>,
) -> bool {
    &&& float_count(index) > 0
    &&& bits.len() == float_count(index)
    &&& float_texts_of(index, text) is Ok
    &&& float_bytes(float_texts_of(index, text)->Ok_0, bits, float_label(index), 0) == Ok::<
        Seq<u8>,
        Seq<char>,
    >(bytes)
}

/// Do the bytes stand for some text of the type?
pub open spec fn from_text(index: int, bytes: Seq<u8>) -> bool {
    ||| exists|text: Seq<char>| encodes(index, text, bytes)
    ||| exists|text: Seq<char>, bits: Seq<Option<u32>>| encodes_floats(index, text, bits, bytes)
}

proof fn lemma_float_len(
    texts: Seq<Seq<char>>,
    bits: Seq<Option<u32>>,
    label: Seq<char>,
    i: int,
)
    requires
        0 <= i <= texts.len(),
        float_bytes(texts, bits, label, i) is Ok,
    ensures
        float_bytes(texts, bits, label, i)->Ok_0.len() == 4 * (texts.len() - i),
    decreases texts.len() - i,
{
    if i < texts.len() {
        lemma_le_bytes_len(bits[i]->0 as nat, 4);
        lemma_float_len(texts, bits, label, i + 1);
    }
}

proof fn lemma_channels_len(parts: Seq<Seq<char>>, i: int)
    requires
        0 <= i <= parts.len(),
        channel_values(parts, i) is Ok,
    ensures
        channel_values(parts, i)->Ok_0.len() == parts.len() - i,
    decreases parts.len() - i,
{
    if i < parts.len() {
        lemma_channels_len(parts, i + 1);
    }
}

/// A value that was encoded from a text has the length of its type, and a type
/// that there is none of is an error.
pub proof fn encoded_lengths(index: int, text: Seq<char>)
    requires
        index >= 0,
        float_count(index) == 0,
    ensures
        index >= 20 ==> encoded(index, text) is Err,
        encoded(index, text) is Ok && fixed_width(index) is Some ==> encoded(index, text)->Ok_0.len()
            == fixed_width(index)->0,
{
    let t = trimmed(text);
    if encoded(index, text) is Ok {
        if index == 14 {
            if !(t.len() > 0 && t[0] == '#') {
                lemma_channels_len(split_at(t, ','), 0);
            }
            assert(color_value(t)->Ok_0.len() == 4);
        } else if index >= 2 && index != 5 {
            assert forall|v: nat, n: nat| (#[trigger] le_bytes(v, n)).len() == n by {
                lemma_le_bytes_len(v, n);
            }
        }
    }
}

/// The same for the types of floats.
pub proof fn encoded_float_lengths(index: int, text: Seq<char>, bits: Seq<Option<u32>>, b: Seq<u8>)
    requires
        encodes_floats(index, text, bits, b),
    ensures
        fixed_width(index) == Some(b.len()),
{
    let texts = float_texts_of(index, text)->Ok_0;
    assert(texts.len() == float_count(index));
    lemma_float_len(texts, bits, float_label(index), 0);
}

/// What is encoded from a text is exactly one value of its type.
pub proof fn encoded_texts_are_values(index: int, bytes: Seq<u8>)
    requires
        0 <= index < 20,
        from_text(index, bytes),
    ensures
        is_value(bytes, index),
        fixed_width(index) is Some ==> bytes.len() == fixed_width(index)->0,
{
    if exists|text: Seq<char>| encodes(index, text, bytes) {
        let text = choose|text: Seq<char>| encodes(index, text, bytes);
        encoded_value_reads_back(index, text);
        encoded_lengths(index, text);
    } else {
        let (text, bits) = choose|text: Seq<char>, bits: Seq<Option<u32>>|
            encodes_floats(index, text, bits, bytes);
        encoded_float_lengths(index, text, bits, bytes);
        let texts = float_texts_of(index, text)->Ok_0;
        assert(texts.len() == float_count(index));
        if index == 4 {
            reveal_with_fuel(pow256, 5);
            reveal_with_fuel(float_bytes, 3);
            let x = bits[0]->0 as nat;
            crate::cursor::le_round_trip(x, 4);
            assert(bytes =~= le_bytes(x, 4));
            assert(bytes.subrange(0, 4) =~= bytes);
        } else {
            encoded_floats_read_back(index, texts, bits);
        }
    }
}

/// An array of values that were encoded from texts, the types of floats included,
/// is taken apart into the same values.
pub proof fn encoded_arrays_split_back(es: Seq<Seq<u8>>, index: usize)
    requires
        index < 20,
        es.len() <= i32::MAX,
        forall|i: int| 0 <= i < es.len() ==> from_text(index as int, #[trigger] es[i]),
    ensures
        elements_of(array_bytes(es), index) == Ok::<Seq<Seq<u8>>, Seq<char>>(es),
{
    assert forall|i: int| 0 <= i < es.len() implies is_value(#[trigger] es[i], index as int) by {
        encoded_texts_are_values(index as int, es[i]);
    }
    array_round_trip(es, index);
}

/// An array with a negative count is an error. Where one is taken apart, it has as
/// many elements as its count says, and they lie whole in its bytes.
pub proof fn short_arrays_are_errors(raw: Seq<u8>, index: usize)
    ensures
        vlq_at(raw, 0) is Err ==> elements_of(raw, index) is Err,
        vlq_at(raw, 0) is Ok && (vlq_at(raw, 0)->Ok_0).0 < 0 ==> elements_of(raw, index) is Err,
        elements_of(raw, index) is Ok ==> {
            let (n, at) = vlq_at(raw, 0)->Ok_0;
            let es = elements_of(raw, index)->Ok_0;
            &&& vlq_at(raw, 0) is Ok
            &&& es.len() == n
            &&& 0 <= at
            &&& at + concatenated(es).len() <= raw.len()
            &&& concatenated(es) == raw.subrange(at, at + concatenated(es).len())
        },
{
    if elements_of(raw, index) is Ok {
        let (n, at) = count_at(raw, 0)->Ok_0;
        let ty = ResolvedType { index, is_array: false };
        crate::tweakdb::lemma_vlq_extent(raw, 0);
        raw_values_are_the_bytes(raw, at, ty, n);
        let (v, end) = blobs_at(raw, at, ty, n)->Ok_0;
        assert(concatenated(v).len() == end - at);
    }
}

} // verus!
