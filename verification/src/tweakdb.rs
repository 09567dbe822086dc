//! The tweak database file.
//!
//! ```text
//! magic u32
//! blobVersion i32, parserVersion i32, recordChecksum u32,
//! flatsOffset i32, recordsOffset i32, queriesOffset i32, groupTagsOffset i32
//! @flatsOffset     count i32, then {typeHash u64, valueCount u32, keyCount u32, offset u32};
//!                  at each offset: count u32, values, count u32, {keyId u64, valueIndex i32}
//! @recordsOffset   count i32, then {id u64, typeKey u32}
//! @queriesOffset   count i32, then {id u64, count u32, result u64...}
//! @groupTagsOffset count i32, then {id u64, tag u8}
//! ```
use std::collections::HashSet;
use vstd::prelude::*;
use vstd::slice::slice_subrange;
use vstd::utf8::encode_utf8;

use crate::cursor::{copy_bytes, i32_at, int_at, le_bytes, le_round_trip, lemma_bytes_shift,
    lemma_int_shift, lemma_string_shift, pow256, seek_error, string_at, string_bytes,
    string_round_trip, vlq_at};
use crate::encode::{array_bytes, blobs_view, bool_value, channel_values, cname_text, color_value,
    concatenated, encoded, float_bytes, float_count, float_label, id_value};
use crate::hashes::{fnv1a64, fnv64_from};
use crate::numbers::{signed_number, unsigned_number};
use crate::text::{dec_int, hex_lower, push_dec, push_hex_lower, push_lit, split_at, string_of,
    trimmed};

pub use crate::cursor::{vlq_encode, Cursor, Error, Read};
pub use crate::encode::{encode_array, encode_value};

verus! {

pub const MAGIC: u32 = 0x0BB1_DB47;

pub const BLOB_VERSION: i32 = 8;

pub const PARSER_VERSION: i32 = 4;

// ---- types -----------------------------------------------------------------

/// The label of a scalar type.
pub open spec fn label_at(index: int) -> Seq<char> {
    if index == 0 {
        "CName"@
    } else if index == 1 {
        "CString"@
    } else if index == 2 {
        "TweakDBID"@
    } else if index == 3 {
        "CResource"@
    } else if index == 4 {
        "CFloat"@
    } else if index == 5 {
        "CBool"@
    } else if index == 6 {
        "CUint8"@
    } else if index == 7 {
        "CUint16"@
    } else if index == 8 {
        "CUint32"@
    } else if index == 9 {
        "CUint64"@
    } else if index == 10 {
        "CInt8"@
    } else if index == 11 {
        "CInt16"@
    } else if index == 12 {
        "CInt32"@
    } else if index == 13 {
        "CInt64"@
    } else if index == 14 {
        "CColor"@
    } else if index == 15 {
        "CEulerAngles"@
    } else if index == 16 {
        "CQuaternion"@
    } else if index == 17 {
        "CVector2"@
    } else if index == 18 {
        "CVector3"@
    } else {
        "LocKey"@
    }
}

/// The engine's name of a scalar type, which its hash is made from.
pub open spec fn red_name_at(index: int) -> Seq<char> {
    if index == 0 {
        "CName"@
    } else if index == 1 {
        "String"@
    } else if index == 2 {
        "TweakDBID"@
    } else if index == 3 {
        "raRef:CResource"@
    } else if index == 4 {
        "Float"@
    } else if index == 5 {
        "Bool"@
    } else if index == 6 {
        "Uint8"@
    } else if index == 7 {
        "Uint16"@
    } else if index == 8 {
        "Uint32"@
    } else if index == 9 {
        "Uint64"@
    } else if index == 10 {
        "Int8"@
    } else if index == 11 {
        "Int16"@
    } else if index == 12 {
        "Int32"@
    } else if index == 13 {
        "Int64"@
    } else if index == 14 {
        "Color"@
    } else if index == 15 {
        "EulerAngles"@
    } else if index == 16 {
        "Quaternion"@
    } else if index == 17 {
        "Vector2"@
    } else if index == 18 {
        "Vector3"@
    } else {
        "gamedataLocKeyWrapper"@
    }
}

/// The label of a scalar type.
pub fn type_label(index: usize) -> (r: &'static str)
    requires
        index < 20,
    ensures
        r@ == label_at(index as int),
{
    match index {
        0 => "CName",
        1 => "CString",
        2 => "TweakDBID",
        3 => "CResource",
        4 => "CFloat",
        5 => "CBool",
        6 => "CUint8",
        7 => "CUint16",
        8 => "CUint32",
        9 => "CUint64",
        10 => "CInt8",
        11 => "CInt16",
        12 => "CInt32",
        13 => "CInt64",
        14 => "CColor",
        15 => "CEulerAngles",
        16 => "CQuaternion",
        17 => "CVector2",
        18 => "CVector3",
        _ => "LocKey",
    }
}

/// The engine's name of a scalar type.
pub fn red_type_name(index: usize) -> (r: &'static str)
    requires
        index < 20,
    ensures
        r@ == red_name_at(index as int),
{
    match index {
        0 => "CName",
        1 => "String",
        2 => "TweakDBID",
        3 => "raRef:CResource",
        4 => "Float",
        5 => "Bool",
        6 => "Uint8",
        7 => "Uint16",
        8 => "Uint32",
        9 => "Uint64",
        10 => "Int8",
        11 => "Int16",
        12 => "Int32",
        13 => "Int64",
        14 => "Color",
        15 => "EulerAngles",
        16 => "Quaternion",
        17 => "Vector2",
        18 => "Vector3",
        _ => "gamedataLocKeyWrapper",
    }
}

/// What a type hash stands for: a scalar type, or an array of one.
#[derive(Debug, Clone, Copy, PartialEq, Eq, Structural)]
pub struct ResolvedType {
    pub index: usize,
    pub is_array: bool,
}

pub open spec fn array_name(name: Seq<char>) -> Seq<char> {
    "array:"@ + name
}

fn prefixed_array(name: &str) -> (r: String)
    ensures
        r@ == array_name(name@),
{
    let mut out: Vec<char> = Vec::new();
    push_lit(&mut out, "array:");
    push_lit(&mut out, name);
    proof {
        assert(out@ =~= array_name(name@));
    }
    string_of(out.as_slice())
}

impl ResolvedType {
    pub open spec fn label_text(self) -> Seq<char> {
        if self.is_array {
            array_name(label_at(self.index as int))
        } else {
            label_at(self.index as int)
        }
    }

    pub fn label(&self) -> (r: String)
        requires
            self.index < 20,
        ensures
            r@ == self.label_text(),
    {
        let base = type_label(self.index);
        if self.is_array {
            prefixed_array(base)
        } else {
            base.to_owned()
        }
    }
}

/// The hash of a type: even entries are scalars, odd ones arrays of them.
pub open spec fn type_hash_at(k: int) -> u64 {
    let name = if k % 2 == 0 {
        red_name_at(k / 2)
    } else {
        array_name(red_name_at(k / 2))
    };
    fnv64_from(encode_utf8(name), 0xcbf2_9ce4_8422_2325)
}

/// The first type with that hash, searching from entry `k` of forty.
pub open spec fn type_with_hash(h: u64, k: int) -> Option<ResolvedType>
    decreases 40 - k,
{
    if k >= 40 {
        None
    } else if type_hash_at(k) == h {
        Some(ResolvedType { index: (k / 2) as usize, is_array: k % 2 == 1 })
    } else {
        type_with_hash(h, k + 1)
    }
}

/// The forty hashes: of each scalar type and of its array.
pub fn type_hashes() -> (r: Vec<u64>)
    ensures
        r@.len() == 40,
        forall|k: int| 0 <= k < 40 ==> r@[k] == type_hash_at(k),
{
    let mut out: Vec<u64> = Vec::new();
    let mut i: usize = 0;
    while i < 20
        invariant
            i <= 20,
            out@.len() == 2 * i,
            forall|k: int| 0 <= k < 2 * i ==> out@[k] == type_hash_at(k),
        decreases 20 - i,
    {
        let name = red_type_name(i);
        out.push(fnv1a64(name.as_bytes()));
        let arr = prefixed_array(name);
        out.push(fnv1a64(arr.as_str().as_bytes()));
        i += 1;
    }
    out
}

/// The type that a hash stands for.
pub fn resolve_type(hashes: &Vec<u64>, h: u64) -> (r: Option<ResolvedType>)
    requires
        hashes@.len() == 40,
        forall|k: int| 0 <= k < 40 ==> hashes@[k] == type_hash_at(k),
    ensures
        r == type_with_hash(h, 0),
{
    let mut k: usize = 0;
    while k < 40
        invariant
            k <= 40,
            hashes@.len() == 40,
            forall|j: int| 0 <= j < 40 ==> hashes@[j] == type_hash_at(j),
            type_with_hash(h, 0) == type_with_hash(h, k as int),
        decreases 40 - k,
    {
        if hashes[k] == h {
            return Some(ResolvedType { index: k / 2, is_array: k % 2 == 1 });
        }
        k += 1;
    }
    None
}

// ---- values ----------------------------------------------------------------

/// The value of a flat. A float is held by its bit pattern.
#[derive(Debug, PartialEq)]
pub enum FlatValue {
    Bool(bool),
    I8(i8),
    U8(u8),
    I16(i16),
    U16(u16),
    I32(i32),
    U32(u32),
    I64(i64),
    U64(u64),
    Float(u32),
    Str(String),
    /// An id, a resource reference or a localisation key.
    Id(u64),
    Color([u8; 4]),
    /// Vectors, angles and quaternions.
    Floats(Vec<u32>),
    Array(Vec<FlatValue>),
}

pub enum FlatValueV {
    Bool(bool),
    I8(int),
    U8(nat),
    I16(int),
    U16(nat),
    I32(int),
    U32(nat),
    I64(int),
    U64(nat),
    Float(nat),
    Str(Seq<char>),
    Id(nat),
    Color(Seq<u8>),
    Floats(Seq<nat>),
    Array(Seq<FlatValueV>),
}

pub open spec fn value_view(v: FlatValue) -> FlatValueV
    decreases v,
{
    match v {
        FlatValue::Bool(b) => FlatValueV::Bool(b),
        FlatValue::I8(n) => FlatValueV::I8(n as int),
        FlatValue::U8(n) => FlatValueV::U8(n as nat),
        FlatValue::I16(n) => FlatValueV::I16(n as int),
        FlatValue::U16(n) => FlatValueV::U16(n as nat),
        FlatValue::I32(n) => FlatValueV::I32(n as int),
        FlatValue::U32(n) => FlatValueV::U32(n as nat),
        FlatValue::I64(n) => FlatValueV::I64(n as int),
        FlatValue::U64(n) => FlatValueV::U64(n as nat),
        FlatValue::Float(n) => FlatValueV::Float(n as nat),
        FlatValue::Str(s) => FlatValueV::Str(s@),
        FlatValue::Id(n) => FlatValueV::Id(n as nat),
        FlatValue::Color(c) => FlatValueV::Color(c@),
        FlatValue::Floats(v) => FlatValueV::Floats(v@.map_values(|n: u32| n as nat)),
        FlatValue::Array(v) => FlatValueV::Array(values_view(v@)),
    }
}

pub open spec fn values_view(v: Seq<FlatValue>) -> Seq<FlatValueV>
    decreases v,
{
    Seq::new(
        v.len(),
        |i: int|
            if 0 <= i < v.len() {
                value_view(v[i])
            } else {
                arbitrary()
            },
    )
}

impl View for FlatValue {
    type V = FlatValueV;

    open spec fn view(&self) -> FlatValueV {
        value_view(*self)
    }
}

proof fn lemma_values_push(v: Seq<FlatValue>, x: FlatValue)
    ensures
        values_view(v.push(x)) == values_view(v).push(x@),
{
    assert(values_view(v.push(x)) =~= values_view(v).push(x@));
}

/// A copy of a value.
pub fn copy_value(v: &FlatValue) -> (r: FlatValue)
    ensures
        r@ == v@,
    decreases v,
{
    match v {
        FlatValue::Bool(b) => FlatValue::Bool(*b),
        FlatValue::I8(n) => FlatValue::I8(*n),
        FlatValue::U8(n) => FlatValue::U8(*n),
        FlatValue::I16(n) => FlatValue::I16(*n),
        FlatValue::U16(n) => FlatValue::U16(*n),
        FlatValue::I32(n) => FlatValue::I32(*n),
        FlatValue::U32(n) => FlatValue::U32(*n),
        FlatValue::I64(n) => FlatValue::I64(*n),
        FlatValue::U64(n) => FlatValue::U64(*n),
        FlatValue::Float(n) => FlatValue::Float(*n),
        FlatValue::Str(s) => FlatValue::Str(s.clone()),
        FlatValue::Id(n) => FlatValue::Id(*n),
        FlatValue::Color(c) => FlatValue::Color(*c),
        FlatValue::Floats(f) => {
            let mut out: Vec<u32> = Vec::new();
            let mut i: usize = 0;
            while i < f.len()
                invariant
                    i <= f.len(),
                    out@ == f@.take(i as int),
                decreases f.len() - i,
            {
                out.push(f[i]);
                i += 1;
                proof {
                    assert(out@ =~= f@.take(i as int));
                }
            }
            proof {
                assert(f@.take(i as int) =~= f@);
            }
            FlatValue::Floats(out)
        },
        FlatValue::Array(a) => {
            let mut out: Vec<FlatValue> = Vec::new();
            let mut i: usize = 0;
            while i < a.len()
                invariant
                    i <= a.len(),
                    *v == FlatValue::Array(*a),
                    values_view(out@) == values_view(a@).take(i as int),
                decreases a.len() - i,
            {
                proof {
                    assert(decreases_to!(*v => v->Array_0));
                    assert(decreases_to!(*a => a@[i as int]));
                }
                let c = copy_value(&a[i]);
                proof {
                    lemma_values_push(out@, c);
                }
                out.push(c);
                i += 1;
                proof {
                    assert(values_view(out@) =~= values_view(a@).take(i as int));
                }
            }
            proof {
                assert(values_view(a@).take(i as int) =~= values_view(a@));
            }
            FlatValue::Array(out)
        },
    }
}

/// A bit pattern as a two's-complement number, where `half` is the first
/// pattern that is negative.
pub open spec fn signed_of(u: nat, half: int) -> int {
    if u < half {
        u as int
    } else {
        u - 2 * half
    }
}

/// The next `n` floats, by their bit patterns.
pub open spec fn floats_at(data: Seq<u8>, pos: int, n: nat) -> Read<Seq<nat>>
    decreases n,
{
    if n == 0 {
        Ok((Seq::empty(), pos))
    } else {
        match int_at(data, pos, 4) {
            Err(e) => Err(e),
            Ok((b, next)) => match floats_at(data, next, (n - 1) as nat) {
                Err(e) => Err(e),
                Ok((rest, end)) => Ok((seq![b] + rest, end)),
            },
        }
    }
}

pub open spec fn mapped_int(
    r: Read<nat>,
    f: spec_fn(nat) -> FlatValueV,
) -> Read<FlatValueV> {
    match r {
        Ok((n, next)) => Ok((f(n), next)),
        Err(e) => Err(e),
    }
}

pub open spec fn mapped_floats(r: Read<Seq<nat>>) -> Read<FlatValueV> {
    match r {
        Ok((v, next)) => Ok((FlatValueV::Floats(v), next)),
        Err(e) => Err(e),
    }
}

/// The four channels of a colour, each read for itself.
pub open spec fn color_at(data: Seq<u8>, pos: int) -> Read<FlatValueV> {
    if pos + 4 <= data.len() && 0 <= pos {
        Ok((FlatValueV::Color(data.subrange(pos, pos + 4)), pos + 4))
    } else {
        Err(
            crate::cursor::past_end(
                1,
                if pos < data.len() && 0 <= pos {
                    data.len() as int
                } else {
                    pos
                },
            ),
        )
    }
}

/// The scalar value at a position.
pub open spec fn scalar_at(data: Seq<u8>, pos: int, index: int) -> Read<FlatValueV> {
    if index == 0 || index == 1 {
        match string_at(data, pos) {
            Ok((s, next)) => Ok((FlatValueV::Str(s), next)),
            Err(e) => Err(e),
        }
    } else if index == 2 || index == 3 || index == 19 {
        mapped_int(int_at(data, pos, 8), |n: nat| FlatValueV::Id(n))
    } else if index == 4 {
        mapped_int(int_at(data, pos, 4), |n: nat| FlatValueV::Float(n))
    } else if index == 5 {
        mapped_int(int_at(data, pos, 1), |n: nat| FlatValueV::Bool(n != 0))
    } else if index == 6 {
        mapped_int(int_at(data, pos, 1), |n: nat| FlatValueV::U8(n))
    } else if index == 7 {
        mapped_int(int_at(data, pos, 2), |n: nat| FlatValueV::U16(n))
    } else if index == 8 {
        mapped_int(int_at(data, pos, 4), |n: nat| FlatValueV::U32(n))
    } else if index == 9 {
        mapped_int(int_at(data, pos, 8), |n: nat| FlatValueV::U64(n))
    } else if index == 10 {
        mapped_int(int_at(data, pos, 1), |n: nat| FlatValueV::I8(signed_of(n, 0x80)))
    } else if index == 11 {
        mapped_int(int_at(data, pos, 2), |n: nat| FlatValueV::I16(signed_of(n, 0x8000)))
    } else if index == 12 {
        mapped_int(int_at(data, pos, 4), |n: nat| FlatValueV::I32(signed_of(n, 0x8000_0000)))
    } else if index == 13 {
        mapped_int(
            int_at(data, pos, 8),
            |n: nat| FlatValueV::I64(signed_of(n, 0x8000_0000_0000_0000)),
        )
    } else if index == 14 {
        color_at(data, pos)
    } else if index == 15 || index == 18 {
        mapped_floats(floats_at(data, pos, 3))
    } else if index == 16 {
        mapped_floats(floats_at(data, pos, 4))
    } else if index == 17 {
        mapped_floats(floats_at(data, pos, 2))
    } else {
        Err("índice de tipo desconhecido"@)
    }
}

/// The next `n` scalars.
pub open spec fn scalars_at(data: Seq<u8>, pos: int, index: int, n: nat) -> Read<Seq<FlatValueV>>
    decreases n,
{
    if n == 0 {
        Ok((Seq::empty(), pos))
    } else {
        match scalar_at(data, pos, index) {
            Err(e) => Err(e),
            Ok((v, next)) => match scalars_at(data, next, index, (n - 1) as nat) {
                Err(e) => Err(e),
                Ok((rest, end)) => Ok((seq![v] + rest, end)),
            },
        }
    }
}

/// The number of elements of an array.
pub open spec fn count_at(data: Seq<u8>, pos: int) -> Read<nat> {
    match vlq_at(data, pos) {
        Err(e) => Err(e),
        Ok((n, next)) => if n < 0 {
            Err("contagem de array negativa"@)
        } else {
            Ok((n as nat, next))
        },
    }
}

/// The value at a position: a scalar, or an array with its count before it.
pub open spec fn value_at(data: Seq<u8>, pos: int, ty: ResolvedType) -> Read<FlatValueV> {
    if ty.is_array {
        match count_at(data, pos) {
            Err(e) => Err(e),
            Ok((n, next)) => match scalars_at(data, next, ty.index as int, n) {
                Err(e) => Err(e),
                Ok((v, end)) => Ok((FlatValueV::Array(v), end)),
            },
        }
    } else {
        scalar_at(data, pos, ty.index as int)
    }
}

/// The outcome of reading a value with a cursor.
pub open spec fn value_outcome(r: Result<FlatValue, Error>, end: usize) -> Read<FlatValueV> {
    match r {
        Ok(v) => Ok((v@, end as int)),
        Err(e) => Err(e.text()),
    }
}

fn to_i8(v: u8) -> (r: i8)
    ensures
        r == signed_of(v as nat, 0x80),
{
    if v < 0x80 {
        v as i8
    } else {
        -((0xFF - v) as i8) - 1
    }
}

fn to_i16(v: u16) -> (r: i16)
    ensures
        r == signed_of(v as nat, 0x8000),
{
    if v < 0x8000 {
        v as i16
    } else {
        -((0xFFFF - v) as i16) - 1
    }
}

fn to_i64(v: u64) -> (r: i64)
    ensures
        r == signed_of(v as nat, 0x8000_0000_0000_0000),
{
    if v < 0x8000_0000_0000_0000 {
        v as i64
    } else {
        -((0xFFFF_FFFF_FFFF_FFFF - v) as i64) - 1
    }
}

spec fn after_floats(front: Seq<nat>, r: Read<Seq<nat>>) -> Read<Seq<nat>> {
    match r {
        Ok((v, end)) => Ok((front + v, end)),
        Err(e) => Err(e),
    }
}

fn read_floats<'a>(cur: &mut Cursor<'a>, n: usize) -> (r: Result<FlatValue, Error>)
    ensures
        final(cur).data@ == old(cur).data@,
        value_outcome(r, final(cur).pos) == mapped_floats(
            floats_at(old(cur).data@, old(cur).pos as int, n as nat),
        ),
{
    let mut out: Vec<u32> = Vec::new();
    let mut i: usize = 0;
    let ghost goal = floats_at(cur.data@, cur.pos as int, n as nat);
    proof {
        assert(out@.map_values(|x: u32| x as nat) =~= Seq::empty());
        match goal {
            Ok((v, e)) => {
                assert(Seq::<nat>::empty() + v =~= v);
            },
            Err(_) => {},
        }
    }
    while i < n
        invariant
            i <= n,
            cur.data@ == old(cur).data@,
            goal == floats_at(old(cur).data@, old(cur).pos as int, n as nat),
            goal == after_floats(
                out@.map_values(|x: u32| x as nat),
                floats_at(cur.data@, cur.pos as int, (n - i) as nat),
            ),
        decreases n - i,
    {
        let ghost before = out@.map_values(|x: u32| x as nat);
        let b: u32 = match cur.u32() {
            Ok(b) => b,
            Err(e) => {
                return Err(e);
            },
        };
        out.push(b);
        i += 1;
        proof {
            assert(out@.map_values(|x: u32| x as nat) =~= before.push(b as nat));
            match floats_at(cur.data@, cur.pos as int, (n - i) as nat) {
                Ok((v, e)) => {
                    assert(before.push(b as nat) + v =~= before + (seq![b as nat] + v));
                },
                Err(_) => {},
            }
        }
    }
    proof {
        assert(out@.map_values(|x: u32| x as nat) + Seq::empty() =~= out@.map_values(
            |x: u32| x as nat,
        ));
    }
    Ok(FlatValue::Floats(out))
}

proof fn lemma_byte(data: Seq<u8>, pos: int)
    requires
        0 <= pos < data.len(),
    ensures
        int_at(data, pos, 1) == Ok::<(nat, int), Seq<char>>((data[pos] as nat, pos + 1)),
{
    let s = data.subrange(pos, pos + 1);
    assert(s.skip(1) =~= Seq::empty());
    assert(crate::cursor::le_value(s.skip(1)) == 0);
    assert(s[0] == data[pos]);
}

fn read_color<'a>(cur: &mut Cursor<'a>) -> (r: Result<FlatValue, Error>)
    ensures
        final(cur).data@ == old(cur).data@,
        value_outcome(r, final(cur).pos) == color_at(old(cur).data@, old(cur).pos as int),
{
    let mut c: [u8; 4] = [0, 0, 0, 0];
    let mut i: usize = 0;
    let ghost start = cur.pos as int;
    while i < 4
        invariant
            i <= 4,
            cur.data@ == old(cur).data@,
            start == old(cur).pos,
            cur.pos == start + i,
            i > 0 ==> start + i <= cur.data@.len(),
            forall|k: int| 0 <= k < i ==> c@[k] == cur.data@[start + k],
        decreases 4 - i,
    {
        proof {
            if cur.pos < cur.data@.len() {
                lemma_byte(cur.data@, cur.pos as int);
            }
        }
        let b: u8 = match cur.u8() {
            Ok(b) => b,
            Err(e) => {
                return Err(e);
            },
        };
        c[i] = b;
        i += 1;
    }
    proof {
        assert(c@ =~= cur.data@.subrange(start, start + 4));
    }
    Ok(FlatValue::Color(c))
}

/// Reads a scalar of the type with that index.
pub fn read_scalar<'a>(cur: &mut Cursor<'a>, type_index: usize) -> (r: Result<FlatValue, Error>)
    ensures
        final(cur).data@ == old(cur).data@,
        value_outcome(r, final(cur).pos) == scalar_at(
            old(cur).data@,
            old(cur).pos as int,
            type_index as int,
        ),
{
    match type_index {
        0 | 1 => match cur.lp_string() {
            Ok(s) => Ok(FlatValue::Str(s)),
            Err(e) => Err(e),
        },
        2 | 3 | 19 => match cur.u64() {
            Ok(n) => Ok(FlatValue::Id(n)),
            Err(e) => Err(e),
        },
        4 => match cur.u32() {
            Ok(n) => Ok(FlatValue::Float(n)),
            Err(e) => Err(e),
        },
        5 => match cur.u8() {
            Ok(n) => Ok(FlatValue::Bool(n != 0)),
            Err(e) => Err(e),
        },
        6 => match cur.u8() {
            Ok(n) => Ok(FlatValue::U8(n)),
            Err(e) => Err(e),
        },
        7 => match cur.u16() {
            Ok(n) => Ok(FlatValue::U16(n)),
            Err(e) => Err(e),
        },
        8 => match cur.u32() {
            Ok(n) => Ok(FlatValue::U32(n)),
            Err(e) => Err(e),
        },
        9 => match cur.u64() {
            Ok(n) => Ok(FlatValue::U64(n)),
            Err(e) => Err(e),
        },
        10 => match cur.u8() {
            Ok(n) => Ok(FlatValue::I8(to_i8(n))),
            Err(e) => Err(e),
        },
        11 => match cur.u16() {
            Ok(n) => Ok(FlatValue::I16(to_i16(n))),
            Err(e) => Err(e),
        },
        12 => match cur.u32() {
            Ok(n) => Ok(FlatValue::I32(crate::cursor::as_signed(n))),
            Err(e) => Err(e),
        },
        13 => match cur.u64() {
            Ok(n) => Ok(FlatValue::I64(to_i64(n))),
            Err(e) => Err(e),
        },
        14 => read_color(cur),
        15 | 18 => read_floats(cur, 3),
        16 => read_floats(cur, 4),
        17 => read_floats(cur, 2),
        _ => Err(Error::format("índice de tipo desconhecido")),
    }
}

spec fn after_values(front: Seq<FlatValueV>, r: Read<Seq<FlatValueV>>) -> Read<Seq<FlatValueV>> {
    match r {
        Ok((v, end)) => Ok((front + v, end)),
        Err(e) => Err(e),
    }
}

fn read_count<'a>(cur: &mut Cursor<'a>) -> (r: Result<u32, Error>)
    ensures
        final(cur).data@ == old(cur).data@,
        match r {
            Ok(n) => count_at(old(cur).data@, old(cur).pos as int) == Ok::<(nat, int), Seq<char>>(
                (n as nat, final(cur).pos as int),
            ) && n <= i32::MAX,
            Err(e) => count_at(old(cur).data@, old(cur).pos as int) == Err::<
                (nat, int),
                Seq<char>,
            >(e.text()),
        },
{
    match cur.vlq_i32() {
        Err(e) => Err(e),
        Ok(n) => if n < 0 {
            Err(Error::format("contagem de array negativa"))
        } else {
            Ok(n as u32)
        },
    }
}

/// Reads a value: a scalar, or an array with its count before it.
pub fn read_value<'a>(cur: &mut Cursor<'a>, ty: ResolvedType) -> (r: Result<FlatValue, Error>)
    ensures
        final(cur).data@ == old(cur).data@,
        value_outcome(r, final(cur).pos) == value_at(old(cur).data@, old(cur).pos as int, ty),
{
    if !ty.is_array {
        return read_scalar(cur, ty.index);
    }
    let count: u32 = match read_count(cur) {
        Ok(n) => n,
        Err(e) => {
            return Err(e);
        },
    };
    let ghost start = cur.pos as int;
    let ghost goal = scalars_at(cur.data@, start, ty.index as int, count as nat);
    let mut items: Vec<FlatValue> = Vec::new();
    let mut i: u32 = 0;
    proof {
        assert(values_view(items@) =~= Seq::empty());
        match goal {
            Ok((v, e)) => {
                assert(values_view(items@) + v =~= v);
            },
            Err(_) => {},
        }
    }
    while i < count
        invariant
            i <= count,
            ty.is_array,
            cur.data@ == old(cur).data@,
            count_at(old(cur).data@, old(cur).pos as int) == Ok::<(nat, int), Seq<char>>(
                (count as nat, start),
            ),
            goal == scalars_at(old(cur).data@, start, ty.index as int, count as nat),
            goal == after_values(
                values_view(items@),
                scalars_at(cur.data@, cur.pos as int, ty.index as int, (count - i) as nat),
            ),
        decreases count - i,
    {
        let ghost before = values_view(items@);
        let v = match read_scalar(cur, ty.index) {
            Ok(v) => v,
            Err(e) => {
                return Err(e);
            },
        };
        proof {
            lemma_values_push(items@, v);
        }
        items.push(v);
        i += 1;
        proof {
            match scalars_at(cur.data@, cur.pos as int, ty.index as int, (count - i) as nat) {
                Ok((w, e)) => {
                    assert(before.push(v@) + w =~= before + (seq![v@] + w));
                },
                Err(_) => {},
            }
        }
    }
    proof {
        assert(values_view(items@) + Seq::empty() =~= values_view(items@));
    }
    Ok(FlatValue::Array(items))
}

// ---- raw values ------------------------------------------------------------

/// The next `n` values, each by the bytes it takes.
pub open spec fn blobs_at(data: Seq<u8>, pos: int, ty: ResolvedType, n: nat) -> Read<Seq<Seq<u8>>>
    decreases n,
{
    if n == 0 {
        Ok((Seq::empty(), pos))
    } else {
        match value_at(data, pos, ty) {
            Err(e) => Err(e),
            Ok((_, next)) => match blobs_at(data, next, ty, (n - 1) as nat) {
                Err(e) => Err(e),
                Ok((rest, end)) => Ok((seq![data.subrange(pos, next)] + rest, end)),
            },
        }
    }
}

spec fn after_blobs(front: Seq<Seq<u8>>, r: Read<Seq<Seq<u8>>>) -> Read<Seq<Seq<u8>>> {
    match r {
        Ok((v, end)) => Ok((front + v, end)),
        Err(e) => Err(e),
    }
}

/// A value starts before it ends, and ends inside the data.
proof fn lemma_value_extent(data: Seq<u8>, pos: int, ty: ResolvedType)
    requires
        value_at(data, pos, ty) is Ok,
        0 <= pos,
    ensures
        pos <= (value_at(data, pos, ty)->Ok_0).1 <= data.len(),
{
    if ty.is_array {
        lemma_vlq_extent(data, pos);
        let (n, next) = count_at(data, pos)->Ok_0;
        lemma_scalars_extent(data, next, ty.index as int, n);
    } else {
        lemma_scalar_extent(data, pos, ty.index as int);
    }
}

proof fn lemma_vlq_rest_extent(data: Seq<u8>, pos: int, k: nat, scale: nat, total: nat)
    requires
        crate::cursor::vlq_rest(data, pos, k, scale, total) is Ok,
        0 <= pos,
    ensures
        pos <= (crate::cursor::vlq_rest(data, pos, k, scale, total)->Ok_0).1 <= data.len(),
    decreases 4 - k,
{
    let (b, next) = int_at(data, pos, 1)->Ok_0;
    if b >= 128 && k < 3 {
        lemma_vlq_rest_extent(data, next, k + 1, scale * 128, total + (b % 128) * scale);
    }
}

pub proof fn lemma_vlq_extent(data: Seq<u8>, pos: int)
    requires
        vlq_at(data, pos) is Ok,
        0 <= pos,
    ensures
        pos <= (vlq_at(data, pos)->Ok_0).1 <= data.len(),
{
    let (b, next) = int_at(data, pos, 1)->Ok_0;
    if (b / 64) % 2 != 0 {
        lemma_vlq_rest_extent(data, next, 0, 64, b % 64);
    }
}

proof fn lemma_floats_extent(data: Seq<u8>, pos: int, n: nat)
    requires
        floats_at(data, pos, n) is Ok,
        0 <= pos,
        pos <= data.len() || n > 0,
    ensures
        pos <= (floats_at(data, pos, n)->Ok_0).1 <= data.len(),
    decreases n,
{
    if n > 0 {
        lemma_floats_extent(data, (int_at(data, pos, 4)->Ok_0).1, (n - 1) as nat);
    }
}

proof fn lemma_scalar_extent(data: Seq<u8>, pos: int, index: int)
    requires
        scalar_at(data, pos, index) is Ok,
        0 <= pos,
    ensures
        pos <= (scalar_at(data, pos, index)->Ok_0).1 <= data.len(),
{
    if index == 0 || index == 1 {
        lemma_vlq_extent(data, pos);
    } else if index == 15 || index == 18 {
        lemma_floats_extent(data, pos, 3);
    } else if index == 16 {
        lemma_floats_extent(data, pos, 4);
    } else if index == 17 {
        lemma_floats_extent(data, pos, 2);
    }
}

proof fn lemma_scalars_extent(data: Seq<u8>, pos: int, index: int, n: nat)
    requires
        scalars_at(data, pos, index, n) is Ok,
        0 <= pos <= data.len(),
    ensures
        pos <= (scalars_at(data, pos, index, n)->Ok_0).1 <= data.len(),
    decreases n,
{
    if n > 0 {
        lemma_scalar_extent(data, pos, index);
        lemma_scalars_extent(
            data,
            (scalar_at(data, pos, index)->Ok_0).1,
            index,
            (n - 1) as nat,
        );
    }
}

fn read_blobs<'a>(cur: &mut Cursor<'a>, ty: ResolvedType, n: u32) -> (r: Result<
    Vec<Vec<u8>>,
    Error,
>)
    ensures
        final(cur).data@ == old(cur).data@,
        match r {
            Ok(v) => blobs_at(old(cur).data@, old(cur).pos as int, ty, n as nat) == Ok::<
                (Seq<Seq<u8>>, int),
                Seq<char>,
            >((blobs_view(v@), final(cur).pos as int)),
            Err(e) => blobs_at(old(cur).data@, old(cur).pos as int, ty, n as nat) == Err::<
                (Seq<Seq<u8>>, int),
                Seq<char>,
            >(e.text()),
        },
{
    let ghost goal = blobs_at(cur.data@, cur.pos as int, ty, n as nat);
    let mut out: Vec<Vec<u8>> = Vec::new();
    let mut i: u32 = 0;
    proof {
        assert(blobs_view(out@) =~= Seq::empty());
        match goal {
            Ok((v, e)) => {
                assert(blobs_view(out@) + v =~= v);
            },
            Err(_) => {},
        }
    }
    while i < n
        invariant
            i <= n,
            cur.data@ == old(cur).data@,
            goal == blobs_at(old(cur).data@, old(cur).pos as int, ty, n as nat),
            goal == after_blobs(
                blobs_view(out@),
                blobs_at(cur.data@, cur.pos as int, ty, (n - i) as nat),
            ),
        decreases n - i,
    {
        let ghost before = blobs_view(out@);
        let start: usize = cur.pos;
        match read_value(cur, ty) {
            Ok(_) => {},
            Err(e) => {
                return Err(e);
            },
        }
        proof {
            lemma_value_extent(cur.data@, start as int, ty);
        }
        let blob = copy_bytes(slice_subrange(cur.data, start, cur.pos));
        let ghost prior = out@;
        out.push(blob);
        i += 1;
        proof {
            assert(blobs_view(out@) =~= before.push(blob@));
            match blobs_at(cur.data@, cur.pos as int, ty, (n - i) as nat) {
                Ok((w, e)) => {
                    assert(before.push(blob@) + w =~= before + (seq![blob@] + w));
                },
                Err(_) => {},
            }
        }
    }
    proof {
        assert(blobs_view(out@) + Seq::empty() =~= blobs_view(out@));
    }
    Ok(out)
}

/// The elements of an array of that scalar type.
pub open spec fn elements_of(raw: Seq<u8>, index: usize) -> Result<Seq<Seq<u8>>, Seq<char>> {
    match count_at(raw, 0) {
        Err(e) => Err(e),
        Ok((n, next)) => match blobs_at(raw, next, ResolvedType { index, is_array: false }, n) {
            Err(e) => Err(e),
            Ok((v, _)) => Ok(v),
        },
    }
}

/// Takes the raw value of an array apart into its elements.
pub fn split_array_elements(raw: &[u8], element_type_index: usize) -> (r: Result<
    Vec<Vec<u8>>,
    Error,
>)
    ensures
        match r {
            Ok(v) => elements_of(raw@, element_type_index) == Ok::<Seq<Seq<u8>>, Seq<char>>(
                blobs_view(v@),
            ),
            Err(e) => elements_of(raw@, element_type_index) == Err::<Seq<Seq<u8>>, Seq<char>>(
                e.text(),
            ),
        },
{
    let mut cur = Cursor::new(raw);
    let count: u32 = match read_count(&mut cur) {
        Ok(n) => n,
        Err(e) => {
            return Err(e);
        },
    };
    read_blobs(&mut cur, ResolvedType { index: element_type_index, is_array: false }, count)
}

// ---- the file --------------------------------------------------------------

/// A group of flats: the values of one type, and the keys that refer to them.
#[derive(Debug, Clone, Copy)]
pub struct FlatType {
    pub type_hash: u64,
    pub resolved: Option<ResolvedType>,
    pub value_count: u32,
    pub key_count: u32,
    pub offset: u32,
}

/// A record: its id, and the key of its class.
#[derive(Debug, Clone, Copy)]
pub struct Record {
    pub id: u64,
    pub type_key: u32,
}

/// A group of flats with its values as raw bytes, for exact rewriting.
#[derive(Debug)]
pub struct RawGroup {
    pub type_hash: u64,
    pub values: Vec<Vec<u8>>,
    pub keys: Vec<(u64, i32)>,
}

/// The structure of a database, with the bytes it was read from.
pub struct TweakDb {
    pub data: Vec<u8>,
    pub blob_version: i32,
    pub parser_version: i32,
    pub record_checksum: u32,
    pub flats_offset: u32,
    pub records_offset: u32,
    pub queries_offset: u32,
    pub group_tags_offset: u32,
    pub flat_types: Vec<FlatType>,
    pub records: Vec<Record>,
    pub query_count: u32,
    pub group_tag_count: u32,
}

/// The header: the checksum and where the four sections start.
pub struct HeaderV {
    pub checksum: nat,
    pub flats: nat,
    pub records: nat,
    pub queries: nat,
    pub tags: nat,
}

pub open spec fn version_error(blob: int, parser: int) -> Seq<char> {
    "versão não suportada (blob "@ + dec_int(blob) + ", parser "@ + dec_int(parser)
        + "; esperado 8/4)"@
}

/// Checks the magic number and the versions at the start of a file.
pub open spec fn versions_of(data: Seq<u8>) -> Result<(), Seq<char>> {
    match int_at(data, 0, 4) {
        Err(e) => Err(e),
        Ok((magic, _)) => if magic != MAGIC {
            Err("magic não é 0x0BB1DB47"@)
        } else {
            match i32_at(data, 4) {
                Err(e) => Err(e),
                Ok((blob, _)) => match i32_at(data, 8) {
                    Err(e) => Err(e),
                    Ok((parser, _)) => if blob != BLOB_VERSION || parser != PARSER_VERSION {
                        Err(version_error(blob, parser))
                    } else {
                        Ok(())
                    },
                },
            }
        },
    }
}

/// The next four 32-bit numbers, and the one before them.
pub open spec fn five_at(data: Seq<u8>, pos: int) -> Result<HeaderV, Seq<char>> {
    match int_at(data, pos, 4) {
        Err(e) => Err(e),
        Ok((checksum, p1)) => match int_at(data, p1, 4) {
            Err(e) => Err(e),
            Ok((flats, p2)) => match int_at(data, p2, 4) {
                Err(e) => Err(e),
                Ok((records, p3)) => match int_at(data, p3, 4) {
                    Err(e) => Err(e),
                    Ok((queries, p4)) => match int_at(data, p4, 4) {
                        Err(e) => Err(e),
                        Ok((tags, _)) => Ok(HeaderV { checksum, flats, records, queries, tags }),
                    },
                },
            },
        },
    }
}

pub open spec fn header_of(data: Seq<u8>) -> Result<HeaderV, Seq<char>> {
    match versions_of(data) {
        Err(e) => Err(e),
        Ok(_) => five_at(data, 12),
    }
}

/// The signed count at the start of a section.
pub open spec fn section_count(data: Seq<u8>, offset: nat) -> Read<int> {
    if offset > data.len() {
        Err(seek_error(offset))
    } else {
        i32_at(data, offset as int)
    }
}

pub open spec fn flat_type_at(data: Seq<u8>, pos: int) -> Read<FlatType> {
    match int_at(data, pos, 8) {
        Err(e) => Err(e),
        Ok((hash, p1)) => match int_at(data, p1, 4) {
            Err(e) => Err(e),
            Ok((values, p2)) => match int_at(data, p2, 4) {
                Err(e) => Err(e),
                Ok((keys, p3)) => match int_at(data, p3, 4) {
                    Err(e) => Err(e),
                    Ok((offset, end)) => Ok(
                        (
                            FlatType {
                                type_hash: hash as u64,
                                resolved: type_with_hash(hash as u64, 0),
                                value_count: values as u32,
                                key_count: keys as u32,
                                offset: offset as u32,
                            },
                            end,
                        ),
                    ),
                },
            },
        },
    }
}

pub open spec fn flat_types_at(data: Seq<u8>, pos: int, n: nat) -> Read<Seq<FlatType>>
    decreases n,
{
    if n == 0 {
        Ok((Seq::empty(), pos))
    } else {
        match flat_type_at(data, pos) {
            Err(e) => Err(e),
            Ok((t, next)) => match flat_types_at(data, next, (n - 1) as nat) {
                Err(e) => Err(e),
                Ok((rest, end)) => Ok((seq![t] + rest, end)),
            },
        }
    }
}

pub open spec fn record_at(data: Seq<u8>, pos: int) -> Read<Record> {
    match int_at(data, pos, 8) {
        Err(e) => Err(e),
        Ok((id, p1)) => match int_at(data, p1, 4) {
            Err(e) => Err(e),
            Ok((key, end)) => Ok((Record { id: id as u64, type_key: key as u32 }, end)),
        },
    }
}

pub open spec fn records_at(data: Seq<u8>, pos: int, n: nat) -> Read<Seq<Record>>
    decreases n,
{
    if n == 0 {
        Ok((Seq::empty(), pos))
    } else {
        match record_at(data, pos) {
            Err(e) => Err(e),
            Ok((t, next)) => match records_at(data, next, (n - 1) as nat) {
                Err(e) => Err(e),
                Ok((rest, end)) => Ok((seq![t] + rest, end)),
            },
        }
    }
}

pub open spec fn flat_types_of(data: Seq<u8>, offset: nat) -> Result<Seq<FlatType>, Seq<char>> {
    match section_count(data, offset) {
        Err(e) => Err(e),
        Ok((n, pos)) => if n < 0 {
            Err("numFlatTypes negativo"@)
        } else {
            match flat_types_at(data, pos, n as nat) {
                Err(e) => Err(e),
                Ok((v, _)) => Ok(v),
            }
        },
    }
}

pub open spec fn records_of(data: Seq<u8>, offset: nat) -> Result<Seq<Record>, Seq<char>> {
    match section_count(data, offset) {
        Err(e) => Err(e),
        Ok((n, pos)) => if n < 0 {
            Err("numRecords negativo"@)
        } else {
            match records_at(data, pos, n as nat) {
                Err(e) => Err(e),
                Ok((v, _)) => Ok(v),
            }
        },
    }
}

/// The count of a section, where a negative one counts as none.
pub open spec fn entry_count(data: Seq<u8>, offset: nat) -> Result<nat, Seq<char>> {
    match section_count(data, offset) {
        Err(e) => Err(e),
        Ok((n, _)) => Ok(
            if n < 0 {
                0
            } else {
                n as nat
            },
        ),
    }
}

/// The structure that a file holds.
pub struct DbV {
    pub header: HeaderV,
    pub flat_types: Seq<FlatType>,
    pub records: Seq<Record>,
    pub query_count: nat,
    pub group_tag_count: nat,
}

pub open spec fn opened(data: Seq<u8>) -> Result<DbV, Seq<char>> {
    match header_of(data) {
        Err(e) => Err(e),
        Ok(header) => match flat_types_of(data, header.flats) {
            Err(e) => Err(e),
            Ok(flat_types) => match records_of(data, header.records) {
                Err(e) => Err(e),
                Ok(records) => match entry_count(data, header.queries) {
                    Err(e) => Err(e),
                    Ok(query_count) => match entry_count(data, header.tags) {
                        Err(e) => Err(e),
                        Ok(group_tag_count) => Ok(
                            DbV { header, flat_types, records, query_count, group_tag_count },
                        ),
                    },
                },
            },
        },
    }
}

impl TweakDb {
    pub open spec fn structure(self) -> DbV {
        DbV {
            header: HeaderV {
                checksum: self.record_checksum as nat,
                flats: self.flats_offset as nat,
                records: self.records_offset as nat,
                queries: self.queries_offset as nat,
                tags: self.group_tags_offset as nat,
            },
            flat_types: self.flat_types@,
            records: self.records@,
            query_count: self.query_count as nat,
            group_tag_count: self.group_tag_count as nat,
        }
    }
}

fn push_signed(out: &mut Vec<char>, n: i32)
    ensures
        final(out)@ == old(out)@ + dec_int(n as int),
{
    let ghost before = out@;
    if n < 0 {
        out.push('-');
        push_dec(out, (-(n as i64)) as u128);
    } else {
        push_dec(out, n as u128);
    }
    proof {
        assert(out@ =~= before + dec_int(n as int));
    }
}

fn version_message(blob: i32, parser: i32) -> (r: Error)
    ensures
        r.text() == version_error(blob as int, parser as int),
{
    let mut out: Vec<char> = Vec::new();
    push_lit(&mut out, "versão não suportada (blob ");
    push_signed(&mut out, blob);
    push_lit(&mut out, ", parser ");
    push_signed(&mut out, parser);
    push_lit(&mut out, "; esperado 8/4)");
    proof {
        assert(out@ =~= version_error(blob as int, parser as int));
    }
    Error::Format(string_of(out.as_slice()))
}

fn read_versions<'a>(cur: &mut Cursor<'a>) -> (r: Result<(), Error>)
    requires
        old(cur).pos == 0,
    ensures
        final(cur).data@ == old(cur).data@,
        match r {
            Ok(_) => versions_of(old(cur).data@) is Ok && final(cur).pos == 12,
            Err(e) => versions_of(old(cur).data@) == Err::<(), Seq<char>>(e.text()),
        },
{
    let magic: u32 = match cur.u32() {
        Ok(v) => v,
        Err(e) => {
            return Err(e);
        },
    };
    if magic != MAGIC {
        return Err(Error::format("magic não é 0x0BB1DB47"));
    }
    let blob: i32 = match cur.i32() {
        Ok(v) => v,
        Err(e) => {
            return Err(e);
        },
    };
    let parser: i32 = match cur.i32() {
        Ok(v) => v,
        Err(e) => {
            return Err(e);
        },
    };
    if blob != BLOB_VERSION || parser != PARSER_VERSION {
        return Err(version_message(blob, parser));
    }
    Ok(())
}

/// Reads the checksum and the four section offsets.
fn read_header<'a>(cur: &mut Cursor<'a>) -> (r: Result<(u32, u32, u32, u32, u32), Error>)
    requires
        old(cur).pos == 0,
    ensures
        final(cur).data@ == old(cur).data@,
        match r {
            Ok((c, f, rec, q, t)) => header_of(old(cur).data@) == Ok::<HeaderV, Seq<char>>(
                (HeaderV {
                    checksum: c as nat,
                    flats: f as nat,
                    records: rec as nat,
                    queries: q as nat,
                    tags: t as nat,
                }),
            ),
            Err(e) => header_of(old(cur).data@) == Err::<HeaderV, Seq<char>>(e.text()),
        },
{
    match read_versions(cur) {
        Ok(_) => {},
        Err(e) => {
            return Err(e);
        },
    }
    let checksum: u32 = match cur.u32() {
        Ok(v) => v,
        Err(e) => {
            return Err(e);
        },
    };
    let flats: u32 = match cur.u32() {
        Ok(v) => v,
        Err(e) => {
            return Err(e);
        },
    };
    let records: u32 = match cur.u32() {
        Ok(v) => v,
        Err(e) => {
            return Err(e);
        },
    };
    let queries: u32 = match cur.u32() {
        Ok(v) => v,
        Err(e) => {
            return Err(e);
        },
    };
    let tags: u32 = match cur.u32() {
        Ok(v) => v,
        Err(e) => {
            return Err(e);
        },
    };
    Ok((checksum, flats, records, queries, tags))
}

/// Reads the signed count at the start of a section.
fn read_section<'a>(cur: &mut Cursor<'a>, offset: u32) -> (r: Result<i32, Error>)
    ensures
        final(cur).data@ == old(cur).data@,
        match r {
            Ok(n) => section_count(old(cur).data@, offset as nat) == Ok::<(int, int), Seq<char>>(
                (n as int, final(cur).pos as int),
            ),
            Err(e) => section_count(old(cur).data@, offset as nat) == Err::<
                (int, int),
                Seq<char>,
            >(e.text()),
        },
{
    match cur.seek(offset) {
        Ok(_) => {},
        Err(e) => {
            return Err(e);
        },
    }
    cur.i32()
}

fn read_flat_type<'a>(cur: &mut Cursor<'a>, hashes: &Vec<u64>) -> (r: Result<FlatType, Error>)
    requires
        hashes@.len() == 40,
        forall|k: int| 0 <= k < 40 ==> hashes@[k] == type_hash_at(k),
    ensures
        final(cur).data@ == old(cur).data@,
        match r {
            Ok(t) => flat_type_at(old(cur).data@, old(cur).pos as int) == Ok::<
                (FlatType, int),
                Seq<char>,
            >((t, final(cur).pos as int)),
            Err(e) => flat_type_at(old(cur).data@, old(cur).pos as int) == Err::<
                (FlatType, int),
                Seq<char>,
            >(e.text()),
        },
{
    let type_hash: u64 = match cur.u64() {
        Ok(v) => v,
        Err(e) => {
            return Err(e);
        },
    };
    let value_count: u32 = match cur.u32() {
        Ok(v) => v,
        Err(e) => {
            return Err(e);
        },
    };
    let key_count: u32 = match cur.u32() {
        Ok(v) => v,
        Err(e) => {
            return Err(e);
        },
    };
    let offset: u32 = match cur.u32() {
        Ok(v) => v,
        Err(e) => {
            return Err(e);
        },
    };
    let resolved = resolve_type(hashes, type_hash);
    Ok(FlatType { type_hash, resolved, value_count, key_count, offset })
}

spec fn after_flat_types(front: Seq<FlatType>, r: Read<Seq<FlatType>>) -> Read<Seq<FlatType>> {
    match r {
        Ok((v, end)) => Ok((front + v, end)),
        Err(e) => Err(e),
    }
}

fn read_flat_types<'a>(cur: &mut Cursor<'a>, offset: u32) -> (r: Result<Vec<FlatType>, Error>)
    ensures
        final(cur).data@ == old(cur).data@,
        match r {
            Ok(v) => flat_types_of(old(cur).data@, offset as nat) == Ok::<
                Seq<FlatType>,
                Seq<char>,
            >(v@) && v@.len() <= i32::MAX,
            Err(e) => flat_types_of(old(cur).data@, offset as nat) == Err::<
                Seq<FlatType>,
                Seq<char>,
            >(e.text()),
        },
{
    let hashes = type_hashes();
    let count: i32 = match read_section(cur, offset) {
        Ok(n) => n,
        Err(e) => {
            return Err(e);
        },
    };
    if count < 0 {
        return Err(Error::format("numFlatTypes negativo"));
    }
    let ghost start = cur.pos as int;
    let ghost goal = flat_types_at(cur.data@, start, count as nat);
    let mut out: Vec<FlatType> = Vec::new();
    let mut i: i32 = 0;
    proof {
        match goal {
            Ok((v, e)) => {
                assert(out@ + v =~= v);
            },
            Err(_) => {},
        }
    }
    while i < count
        invariant
            0 <= i <= count,
            out@.len() == i,
            hashes@.len() == 40,
            forall|k: int| 0 <= k < 40 ==> hashes@[k] == type_hash_at(k),
            cur.data@ == old(cur).data@,
            section_count(old(cur).data@, offset as nat) == Ok::<(int, int), Seq<char>>(
                (count as int, start),
            ),
            goal == flat_types_at(old(cur).data@, start, count as nat),
            goal == after_flat_types(
                out@,
                flat_types_at(cur.data@, cur.pos as int, (count - i) as nat),
            ),
        decreases count - i,
    {
        let ghost before = out@;
        let t = match read_flat_type(cur, &hashes) {
            Ok(t) => t,
            Err(e) => {
                return Err(e);
            },
        };
        out.push(t);
        i += 1;
        proof {
            match flat_types_at(cur.data@, cur.pos as int, (count - i) as nat) {
                Ok((w, e)) => {
                    assert(before.push(t) + w =~= before + (seq![t] + w));
                },
                Err(_) => {},
            }
        }
    }
    proof {
        assert(out@ + Seq::empty() =~= out@);
    }
    Ok(out)
}

spec fn after_records(front: Seq<Record>, r: Read<Seq<Record>>) -> Read<Seq<Record>> {
    match r {
        Ok((v, end)) => Ok((front + v, end)),
        Err(e) => Err(e),
    }
}

fn read_records<'a>(cur: &mut Cursor<'a>, offset: u32) -> (r: Result<Vec<Record>, Error>)
    ensures
        final(cur).data@ == old(cur).data@,
        match r {
            Ok(v) => records_of(old(cur).data@, offset as nat) == Ok::<Seq<Record>, Seq<char>>(v@),
            Err(e) => records_of(old(cur).data@, offset as nat) == Err::<Seq<Record>, Seq<char>>(
                e.text(),
            ),
        },
{
    let count: i32 = match read_section(cur, offset) {
        Ok(n) => n,
        Err(e) => {
            return Err(e);
        },
    };
    if count < 0 {
        return Err(Error::format("numRecords negativo"));
    }
    let ghost start = cur.pos as int;
    let ghost goal = records_at(cur.data@, start, count as nat);
    let mut out: Vec<Record> = Vec::new();
    let mut i: i32 = 0;
    proof {
        match goal {
            Ok((v, e)) => {
                assert(out@ + v =~= v);
            },
            Err(_) => {},
        }
    }
    while i < count
        invariant
            0 <= i <= count,
            cur.data@ == old(cur).data@,
            section_count(old(cur).data@, offset as nat) == Ok::<(int, int), Seq<char>>(
                (count as int, start),
            ),
            goal == records_at(old(cur).data@, start, count as nat),
            goal == after_records(out@, records_at(cur.data@, cur.pos as int, (count - i) as nat)),
        decreases count - i,
    {
        let ghost before = out@;
        let id: u64 = match cur.u64() {
            Ok(v) => v,
            Err(e) => {
                return Err(e);
            },
        };
        let type_key: u32 = match cur.u32() {
            Ok(v) => v,
            Err(e) => {
                return Err(e);
            },
        };
        let t = Record { id, type_key };
        out.push(t);
        i += 1;
        proof {
            match records_at(cur.data@, cur.pos as int, (count - i) as nat) {
                Ok((w, e)) => {
                    assert(before.push(t) + w =~= before + (seq![t] + w));
                },
                Err(_) => {},
            }
        }
    }
    proof {
        assert(out@ + Seq::empty() =~= out@);
    }
    Ok(out)
}

fn read_entry_count<'a>(cur: &mut Cursor<'a>, offset: u32) -> (r: Result<u32, Error>)
    ensures
        final(cur).data@ == old(cur).data@,
        match r {
            Ok(n) => entry_count(old(cur).data@, offset as nat) == Ok::<nat, Seq<char>>(n as nat),
            Err(e) => entry_count(old(cur).data@, offset as nat) == Err::<nat, Seq<char>>(
                e.text(),
            ),
        },
{
    match read_section(cur, offset) {
        Err(e) => Err(e),
        Ok(n) => Ok(
            if n < 0 {
                0
            } else {
                n as u32
            },
        ),
    }
}

impl TweakDb {
    /// Reads the structure of a file: the header, the table of flat types, the
    /// records, and the counts of the other sections. Values are read later.
    pub fn open(data: Vec<u8>) -> (r: Result<TweakDb, Error>)
        ensures
            match r {
                Ok(db) => opened(data@) == Ok::<DbV, Seq<char>>(db.structure()) && db.data@
                    == data@ && db.blob_version == BLOB_VERSION && db.parser_version
                    == PARSER_VERSION && db.flat_types@.len() <= i32::MAX,
                Err(e) => opened(data@) == Err::<DbV, Seq<char>>(e.text()),
            },
    {
        let mut cur = Cursor::new(data.as_slice());
        let (record_checksum, flats_offset, records_offset, queries_offset, group_tags_offset) =
            match read_header(&mut cur) {
            Ok(h) => h,
            Err(e) => {
                return Err(e);
            },
        };
        let flat_types = match read_flat_types(&mut cur, flats_offset) {
            Ok(v) => v,
            Err(e) => {
                return Err(e);
            },
        };
        let records = match read_records(&mut cur, records_offset) {
            Ok(v) => v,
            Err(e) => {
                return Err(e);
            },
        };
        let query_count: u32 = match read_entry_count(&mut cur, queries_offset) {
            Ok(v) => v,
            Err(e) => {
                return Err(e);
            },
        };
        let group_tag_count: u32 = match read_entry_count(&mut cur, group_tags_offset) {
            Ok(v) => v,
            Err(e) => {
                return Err(e);
            },
        };
        Ok(
            TweakDb {
                data,
                blob_version: BLOB_VERSION,
                parser_version: PARSER_VERSION,
                record_checksum,
                flats_offset,
                records_offset,
                queries_offset,
                group_tags_offset,
                flat_types,
                records,
                query_count,
                group_tag_count,
            },
        )
    }
}

// ---- reading groups --------------------------------------------------------

pub open spec fn unknown_type(hash: u64) -> Seq<char> {
    "typeHash "@ + hex_lower(hash as nat, 16) + " desconhecido"@
}

fn unknown_type_error(hash: u64) -> (r: Error)
    ensures
        r.text() == unknown_type(hash),
{
    let mut out: Vec<char> = Vec::new();
    push_lit(&mut out, "typeHash ");
    push_hex_lower(&mut out, hash, 16);
    push_lit(&mut out, " desconhecido");
    proof {
        assert(out@ =~= unknown_type(hash));
    }
    Error::Format(string_of(out.as_slice()))
}

/// The group with that index and its type, where the type is known.
pub open spec fn group_type(types: Seq<FlatType>, index: int) -> Result<
    (FlatType, ResolvedType),
    Seq<char>,
> {
    if index >= types.len() {
        Err("índice de flat type fora do alcance"@)
    } else {
        match types[index].resolved {
            None => Err(unknown_type(types[index].type_hash)),
            Some(ty) => Ok((types[index], ty)),
        }
    }
}

/// The unsigned count at the start of a group.
pub open spec fn group_count(data: Seq<u8>, offset: nat) -> Read<nat> {
    if offset > data.len() {
        Err(seek_error(offset))
    } else {
        int_at(data, offset as int, 4)
    }
}

/// The next `n` values.
pub open spec fn values_at(data: Seq<u8>, pos: int, ty: ResolvedType, n: nat) -> Read<
    Seq<FlatValueV>,
>
    decreases n,
{
    if n == 0 {
        Ok((Seq::empty(), pos))
    } else {
        match value_at(data, pos, ty) {
            Err(e) => Err(e),
            Ok((v, next)) => match values_at(data, next, ty, (n - 1) as nat) {
                Err(e) => Err(e),
                Ok((rest, end)) => Ok((seq![v] + rest, end)),
            },
        }
    }
}

/// A key: the id of a flat, and the index of its value.
pub open spec fn key_at(data: Seq<u8>, pos: int) -> Read<(nat, int)> {
    match int_at(data, pos, 8) {
        Err(e) => Err(e),
        Ok((id, p1)) => match i32_at(data, p1) {
            Err(e) => Err(e),
            Ok((index, end)) => Ok(((id, index), end)),
        },
    }
}

/// The next `n` keys.
pub open spec fn keys_at(data: Seq<u8>, pos: int, n: nat) -> Read<Seq<(nat, int)>>
    decreases n,
{
    if n == 0 {
        Ok((Seq::empty(), pos))
    } else {
        match key_at(data, pos) {
            Err(e) => Err(e),
            Ok((k, next)) => match keys_at(data, next, (n - 1) as nat) {
                Err(e) => Err(e),
                Ok((rest, end)) => Ok((seq![k] + rest, end)),
            },
        }
    }
}

/// The next `n` keys, each with the value it refers to.
pub open spec fn keyed_at(data: Seq<u8>, pos: int, values: Seq<FlatValueV>, n: nat) -> Read<
    Seq<(nat, FlatValueV)>,
>
    decreases n,
{
    if n == 0 {
        Ok((Seq::empty(), pos))
    } else {
        match key_at(data, pos) {
            Err(e) => Err(e),
            Ok(((id, index), next)) => if !(0 <= index < values.len()) {
                Err("valueIndex fora do alcance"@)
            } else {
                match keyed_at(data, next, values, (n - 1) as nat) {
                    Err(e) => Err(e),
                    Ok((rest, end)) => Ok((seq![(id, values[index])] + rest, end)),
                }
            },
        }
    }
}

/// The keys of a group with their values.
pub open spec fn group_values(data: Seq<u8>, types: Seq<FlatType>, index: int) -> Result<
    Seq<(nat, FlatValueV)>,
    Seq<char>,
> {
    match group_type(types, index) {
        Err(e) => Err(e),
        Ok((ft, ty)) => match group_count(data, ft.offset as nat) {
            Err(e) => Err(e),
            Ok((n, p1)) => match values_at(data, p1, ty, n) {
                Err(e) => Err(e),
                Ok((values, p2)) => match int_at(data, p2, 4) {
                    Err(e) => Err(e),
                    Ok((k, p3)) => match keyed_at(data, p3, values, k) {
                        Err(e) => Err(e),
                        Ok((v, _)) => Ok(v),
                    },
                },
            },
        },
    }
}

/// The raw values of a group, and its keys.
pub struct RawGroupV {
    pub type_hash: u64,
    pub values: Seq<Seq<u8>>,
    pub keys: Seq<(nat, int)>,
}

pub open spec fn keys_view(v: Seq<(u64, i32)>) -> Seq<(nat, int)> {
    v.map_values(|k: (u64, i32)| (k.0 as nat, k.1 as int))
}

impl View for RawGroup {
    type V = RawGroupV;

    open spec fn view(&self) -> RawGroupV {
        RawGroupV {
            type_hash: self.type_hash,
            values: blobs_view(self.values@),
            keys: keys_view(self.keys@),
        }
    }
}

pub open spec fn group_raw(data: Seq<u8>, types: Seq<FlatType>, index: int) -> Result<
    RawGroupV,
    Seq<char>,
> {
    match group_type(types, index) {
        Err(e) => Err(e),
        Ok((ft, ty)) => match group_count(data, ft.offset as nat) {
            Err(e) => Err(e),
            Ok((n, p1)) => match blobs_at(data, p1, ty, n) {
                Err(e) => Err(e),
                Ok((values, p2)) => match int_at(data, p2, 4) {
                    Err(e) => Err(e),
                    Ok((k, p3)) => match keys_at(data, p3, k) {
                        Err(e) => Err(e),
                        Ok((keys, _)) => Ok(
                            RawGroupV { type_hash: ft.type_hash, values, keys },
                        ),
                    },
                },
            },
        },
    }
}

fn find_group(types: &Vec<FlatType>, index: usize) -> (r: Result<(FlatType, ResolvedType), Error>)
    ensures
        match r {
            Ok(g) => group_type(types@, index as int) == Ok::<
                (FlatType, ResolvedType),
                Seq<char>,
            >(g),
            Err(e) => group_type(types@, index as int) == Err::<
                (FlatType, ResolvedType),
                Seq<char>,
            >(e.text()),
        },
{
    if index >= types.len() {
        return Err(Error::format("índice de flat type fora do alcance"));
    }
    let ft = types[index];
    match ft.resolved {
        None => Err(unknown_type_error(ft.type_hash)),
        Some(ty) => Ok((ft, ty)),
    }
}

fn read_group_count<'a>(cur: &mut Cursor<'a>, offset: u32) -> (r: Result<u32, Error>)
    ensures
        final(cur).data@ == old(cur).data@,
        match r {
            Ok(n) => group_count(old(cur).data@, offset as nat) == Ok::<(nat, int), Seq<char>>(
                (n as nat, final(cur).pos as int),
            ),
            Err(e) => group_count(old(cur).data@, offset as nat) == Err::<(nat, int), Seq<char>>(
                e.text(),
            ),
        },
{
    match cur.seek(offset) {
        Ok(_) => {},
        Err(e) => {
            return Err(e);
        },
    }
    cur.u32()
}

fn read_all_values<'a>(cur: &mut Cursor<'a>, ty: ResolvedType, n: u32) -> (r: Result<
    Vec<FlatValue>,
    Error,
>)
    ensures
        final(cur).data@ == old(cur).data@,
        match r {
            Ok(v) => values_at(old(cur).data@, old(cur).pos as int, ty, n as nat) == Ok::<
                (Seq<FlatValueV>, int),
                Seq<char>,
            >((values_view(v@), final(cur).pos as int)),
            Err(e) => values_at(old(cur).data@, old(cur).pos as int, ty, n as nat) == Err::<
                (Seq<FlatValueV>, int),
                Seq<char>,
            >(e.text()),
        },
{
    let ghost goal = values_at(cur.data@, cur.pos as int, ty, n as nat);
    let mut out: Vec<FlatValue> = Vec::new();
    let mut i: u32 = 0;
    proof {
        assert(values_view(out@) =~= Seq::empty());
        match goal {
            Ok((v, e)) => {
                assert(values_view(out@) + v =~= v);
            },
            Err(_) => {},
        }
    }
    while i < n
        invariant
            i <= n,
            cur.data@ == old(cur).data@,
            goal == values_at(old(cur).data@, old(cur).pos as int, ty, n as nat),
            goal == after_values(
                values_view(out@),
                values_at(cur.data@, cur.pos as int, ty, (n - i) as nat),
            ),
        decreases n - i,
    {
        let ghost before = values_view(out@);
        let v = match read_value(cur, ty) {
            Ok(v) => v,
            Err(e) => {
                return Err(e);
            },
        };
        proof {
            lemma_values_push(out@, v);
        }
        out.push(v);
        i += 1;
        proof {
            match values_at(cur.data@, cur.pos as int, ty, (n - i) as nat) {
                Ok((w, e)) => {
                    assert(before.push(v@) + w =~= before + (seq![v@] + w));
                },
                Err(_) => {},
            }
        }
    }
    proof {
        assert(values_view(out@) + Seq::empty() =~= values_view(out@));
    }
    Ok(out)
}

fn read_key<'a>(cur: &mut Cursor<'a>) -> (r: Result<(u64, i32), Error>)
    ensures
        final(cur).data@ == old(cur).data@,
        match r {
            Ok((id, index)) => key_at(old(cur).data@, old(cur).pos as int) == Ok::<
                ((nat, int), int),
                Seq<char>,
            >(((id as nat, index as int), final(cur).pos as int)),
            Err(e) => key_at(old(cur).data@, old(cur).pos as int) == Err::<
                ((nat, int), int),
                Seq<char>,
            >(e.text()),
        },
{
    let id: u64 = match cur.u64() {
        Ok(v) => v,
        Err(e) => {
            return Err(e);
        },
    };
    match cur.i32() {
        Ok(index) => Ok((id, index)),
        Err(e) => Err(e),
    }
}

spec fn after_keys(front: Seq<(nat, int)>, r: Read<Seq<(nat, int)>>) -> Read<Seq<(nat, int)>> {
    match r {
        Ok((v, end)) => Ok((front + v, end)),
        Err(e) => Err(e),
    }
}

fn read_keys<'a>(cur: &mut Cursor<'a>, n: u32) -> (r: Result<Vec<(u64, i32)>, Error>)
    ensures
        final(cur).data@ == old(cur).data@,
        match r {
            Ok(v) => keys_at(old(cur).data@, old(cur).pos as int, n as nat) == Ok::<
                (Seq<(nat, int)>, int),
                Seq<char>,
            >((keys_view(v@), final(cur).pos as int)),
            Err(e) => keys_at(old(cur).data@, old(cur).pos as int, n as nat) == Err::<
                (Seq<(nat, int)>, int),
                Seq<char>,
            >(e.text()),
        },
{
    let ghost goal = keys_at(cur.data@, cur.pos as int, n as nat);
    let mut out: Vec<(u64, i32)> = Vec::new();
    let mut i: u32 = 0;
    proof {
        assert(keys_view(out@) =~= Seq::empty());
        match goal {
            Ok((v, e)) => {
                assert(keys_view(out@) + v =~= v);
            },
            Err(_) => {},
        }
    }
    while i < n
        invariant
            i <= n,
            cur.data@ == old(cur).data@,
            goal == keys_at(old(cur).data@, old(cur).pos as int, n as nat),
            goal == after_keys(
                keys_view(out@),
                keys_at(cur.data@, cur.pos as int, (n - i) as nat),
            ),
        decreases n - i,
    {
        let ghost before = keys_view(out@);
        let k = match read_key(cur) {
            Ok(k) => k,
            Err(e) => {
                return Err(e);
            },
        };
        out.push(k);
        i += 1;
        proof {
            let kv = (k.0 as nat, k.1 as int);
            assert(keys_view(out@) =~= before.push(kv));
            match keys_at(cur.data@, cur.pos as int, (n - i) as nat) {
                Ok((w, e)) => {
                    assert(before.push(kv) + w =~= before + (seq![kv] + w));
                },
                Err(_) => {},
            }
        }
    }
    proof {
        assert(keys_view(out@) + Seq::empty() =~= keys_view(out@));
    }
    Ok(out)
}

pub open spec fn pairs_view(v: Seq<(u64, FlatValue)>) -> Seq<(nat, FlatValueV)> {
    v.map_values(|p: (u64, FlatValue)| (p.0 as nat, p.1@))
}

spec fn after_pairs(
    front: Seq<(nat, FlatValueV)>,
    r: Read<Seq<(nat, FlatValueV)>>,
) -> Read<Seq<(nat, FlatValueV)>> {
    match r {
        Ok((v, end)) => Ok((front + v, end)),
        Err(e) => Err(e),
    }
}

fn read_keyed<'a>(cur: &mut Cursor<'a>, values: &Vec<FlatValue>, n: u32) -> (r: Result<
    Vec<(u64, FlatValue)>,
    Error,
>)
    ensures
        final(cur).data@ == old(cur).data@,
        ({
            let goal = keyed_at(
                old(cur).data@,
                old(cur).pos as int,
                values_view(values@),
                n as nat,
            );
            match r {
                Ok(v) => goal is Ok && (goal->Ok_0).0 == pairs_view(v@),
                Err(e) => goal == Err::<(Seq<(nat, FlatValueV)>, int), Seq<char>>(e.text()),
            }
        }),
{
    let ghost vals = values_view(values@);
    let ghost goal = keyed_at(cur.data@, cur.pos as int, vals, n as nat);
    let mut out: Vec<(u64, FlatValue)> = Vec::new();
    let mut i: u32 = 0;
    proof {
        assert(pairs_view(out@) =~= Seq::empty());
        match goal {
            Ok((v, e)) => {
                assert(pairs_view(out@) + v =~= v);
            },
            Err(_) => {},
        }
    }
    while i < n
        invariant
            i <= n,
            vals == values_view(values@),
            cur.data@ == old(cur).data@,
            goal == keyed_at(old(cur).data@, old(cur).pos as int, vals, n as nat),
            goal == after_pairs(
                pairs_view(out@),
                keyed_at(cur.data@, cur.pos as int, vals, (n - i) as nat),
            ),
        decreases n - i,
    {
        let ghost before = pairs_view(out@);
        let (id, index) = match read_key(cur) {
            Ok(k) => k,
            Err(e) => {
                return Err(e);
            },
        };
        if index < 0 || index as u64 >= values.len() as u64 {
            return Err(Error::format("valueIndex fora do alcance"));
        }
        let v = copy_value(&values[index as usize]);
        let ghost pair = (id as nat, v@);
        let ghost prior = out@;
        out.push((id, v));
        i += 1;
        proof {
            assert(vals[index as int] == v@);
            assert(pairs_view(out@) =~= before.push(pair));
            match keyed_at(cur.data@, cur.pos as int, vals, (n - i) as nat) {
                Ok((w, e)) => {
                    assert(before.push(pair) + w =~= before + (seq![pair] + w));
                },
                Err(_) => {},
            }
        }
    }
    proof {
        assert(pairs_view(out@) + Seq::empty() =~= pairs_view(out@));
    }
    Ok(out)
}

impl TweakDb {
    /// Reads a group of flats: each key with the value it refers to.
    pub fn read_values(&self, flat_type_index: usize) -> (r: Result<
        Vec<(u64, FlatValue)>,
        Error,
    >)
        ensures
            match r {
                Ok(v) => group_values(self.data@, self.flat_types@, flat_type_index as int)
                    == Ok::<Seq<(nat, FlatValueV)>, Seq<char>>(pairs_view(v@)),
                Err(e) => group_values(self.data@, self.flat_types@, flat_type_index as int)
                    == Err::<Seq<(nat, FlatValueV)>, Seq<char>>(e.text()),
            },
    {
        let (ft, ty) = match find_group(&self.flat_types, flat_type_index) {
            Ok(g) => g,
            Err(e) => {
                return Err(e);
            },
        };
        let mut cur = Cursor::new(self.data.as_slice());
        let n: u32 = match read_group_count(&mut cur, ft.offset) {
            Ok(n) => n,
            Err(e) => {
                return Err(e);
            },
        };
        let values = match read_all_values(&mut cur, ty, n) {
            Ok(v) => v,
            Err(e) => {
                return Err(e);
            },
        };
        let k: u32 = match cur.u32() {
            Ok(k) => k,
            Err(e) => {
                return Err(e);
            },
        };
        read_keyed(&mut cur, &values, k)
    }

    /// Reads a group of flats with the exact bytes of each value.
    pub fn read_group_raw(&self, flat_type_index: usize) -> (r: Result<RawGroup, Error>)
        ensures
            match r {
                Ok(g) => group_raw(self.data@, self.flat_types@, flat_type_index as int) == Ok::<
                    RawGroupV,
                    Seq<char>,
                >(g@),
                Err(e) => group_raw(self.data@, self.flat_types@, flat_type_index as int)
                    == Err::<RawGroupV, Seq<char>>(e.text()),
            },
    {
        let (ft, ty) = match find_group(&self.flat_types, flat_type_index) {
            Ok(g) => g,
            Err(e) => {
                return Err(e);
            },
        };
        let mut cur = Cursor::new(self.data.as_slice());
        let n: u32 = match read_group_count(&mut cur, ft.offset) {
            Ok(n) => n,
            Err(e) => {
                return Err(e);
            },
        };
        let values = match read_blobs(&mut cur, ty, n) {
            Ok(v) => v,
            Err(e) => {
                return Err(e);
            },
        };
        let k: u32 = match cur.u32() {
            Ok(k) => k,
            Err(e) => {
                return Err(e);
            },
        };
        let keys = match read_keys(&mut cur, k) {
            Ok(v) => v,
            Err(e) => {
                return Err(e);
            },
        };
        Ok(RawGroup { type_hash: ft.type_hash, values, keys })
    }
}

// ---- queries and tags ------------------------------------------------------

/// The next `n` ids.
pub open spec fn ids_at(data: Seq<u8>, pos: int, n: nat) -> Read<Seq<nat>>
    decreases n,
{
    if n == 0 {
        Ok((Seq::empty(), pos))
    } else {
        match int_at(data, pos, 8) {
            Err(e) => Err(e),
            Ok((id, next)) => match ids_at(data, next, (n - 1) as nat) {
                Err(e) => Err(e),
                Ok((rest, end)) => Ok((seq![id] + rest, end)),
            },
        }
    }
}

/// A query: its id and its results.
pub open spec fn query_at(data: Seq<u8>, pos: int) -> Read<(nat, Seq<nat>)> {
    match int_at(data, pos, 8) {
        Err(e) => Err(e),
        Ok((id, p1)) => match int_at(data, p1, 4) {
            Err(e) => Err(e),
            Ok((n, p2)) => match ids_at(data, p2, n) {
                Err(e) => Err(e),
                Ok((results, end)) => Ok(((id, results), end)),
            },
        },
    }
}

pub open spec fn queries_at(data: Seq<u8>, pos: int, n: nat) -> Read<Seq<(nat, Seq<nat>)>>
    decreases n,
{
    if n == 0 {
        Ok((Seq::empty(), pos))
    } else {
        match query_at(data, pos) {
            Err(e) => Err(e),
            Ok((q, next)) => match queries_at(data, next, (n - 1) as nat) {
                Err(e) => Err(e),
                Ok((rest, end)) => Ok((seq![q] + rest, end)),
            },
        }
    }
}

/// A group tag: an id and its tag.
pub open spec fn tag_at(data: Seq<u8>, pos: int) -> Read<(nat, nat)> {
    match int_at(data, pos, 8) {
        Err(e) => Err(e),
        Ok((id, p1)) => match int_at(data, p1, 1) {
            Err(e) => Err(e),
            Ok((tag, end)) => Ok(((id, tag), end)),
        },
    }
}

pub open spec fn tags_at(data: Seq<u8>, pos: int, n: nat) -> Read<Seq<(nat, nat)>>
    decreases n,
{
    if n == 0 {
        Ok((Seq::empty(), pos))
    } else {
        match tag_at(data, pos) {
            Err(e) => Err(e),
            Ok((t, next)) => match tags_at(data, next, (n - 1) as nat) {
                Err(e) => Err(e),
                Ok((rest, end)) => Ok((seq![t] + rest, end)),
            },
        }
    }
}

pub open spec fn queries_of(data: Seq<u8>, offset: nat) -> Result<
    Seq<(nat, Seq<nat>)>,
    Seq<char>,
> {
    match section_count(data, offset) {
        Err(e) => Err(e),
        Ok((n, pos)) => match queries_at(
            data,
            pos,
            (if n < 0 {
                0
            } else {
                n
            }) as nat,
        ) {
            Err(e) => Err(e),
            Ok((v, _)) => Ok(v),
        },
    }
}

pub open spec fn group_tags_of(data: Seq<u8>, offset: nat) -> Result<Seq<(nat, nat)>, Seq<char>> {
    match section_count(data, offset) {
        Err(e) => Err(e),
        Ok((n, pos)) => match tags_at(
            data,
            pos,
            (if n < 0 {
                0
            } else {
                n
            }) as nat,
        ) {
            Err(e) => Err(e),
            Ok((v, _)) => Ok(v),
        },
    }
}

pub open spec fn ids_view(v: Seq<u64>) -> Seq<nat> {
    v.map_values(|id: u64| id as nat)
}

pub open spec fn queries_view(v: Seq<(u64, Vec<u64>)>) -> Seq<(nat, Seq<nat>)> {
    v.map_values(|q: (u64, Vec<u64>)| (q.0 as nat, ids_view(q.1@)))
}

pub open spec fn tags_view(v: Seq<(u64, u8)>) -> Seq<(nat, nat)> {
    v.map_values(|t: (u64, u8)| (t.0 as nat, t.1 as nat))
}

spec fn after_ids(front: Seq<nat>, r: Read<Seq<nat>>) -> Read<Seq<nat>> {
    match r {
        Ok((v, end)) => Ok((front + v, end)),
        Err(e) => Err(e),
    }
}

fn read_ids<'a>(cur: &mut Cursor<'a>, n: u32) -> (r: Result<Vec<u64>, Error>)
    ensures
        final(cur).data@ == old(cur).data@,
        match r {
            Ok(v) => ids_at(old(cur).data@, old(cur).pos as int, n as nat) == Ok::<
                (Seq<nat>, int),
                Seq<char>,
            >((ids_view(v@), final(cur).pos as int)),
            Err(e) => ids_at(old(cur).data@, old(cur).pos as int, n as nat) == Err::<
                (Seq<nat>, int),
                Seq<char>,
            >(e.text()),
        },
{
    let ghost goal = ids_at(cur.data@, cur.pos as int, n as nat);
    let mut out: Vec<u64> = Vec::new();
    let mut i: u32 = 0;
    proof {
        assert(ids_view(out@) =~= Seq::empty());
        match goal {
            Ok((v, e)) => {
                assert(ids_view(out@) + v =~= v);
            },
            Err(_) => {},
        }
    }
    while i < n
        invariant
            i <= n,
            cur.data@ == old(cur).data@,
            goal == ids_at(old(cur).data@, old(cur).pos as int, n as nat),
            goal == after_ids(ids_view(out@), ids_at(cur.data@, cur.pos as int, (n - i) as nat)),
        decreases n - i,
    {
        let ghost before = ids_view(out@);
        let id: u64 = match cur.u64() {
            Ok(id) => id,
            Err(e) => {
                return Err(e);
            },
        };
        out.push(id);
        i += 1;
        proof {
            assert(ids_view(out@) =~= before.push(id as nat));
            match ids_at(cur.data@, cur.pos as int, (n - i) as nat) {
                Ok((w, e)) => {
                    assert(before.push(id as nat) + w =~= before + (seq![id as nat] + w));
                },
                Err(_) => {},
            }
        }
    }
    proof {
        assert(ids_view(out@) + Seq::empty() =~= ids_view(out@));
    }
    Ok(out)
}

fn read_query<'a>(cur: &mut Cursor<'a>) -> (r: Result<(u64, Vec<u64>), Error>)
    ensures
        final(cur).data@ == old(cur).data@,
        match r {
            Ok((id, v)) => query_at(old(cur).data@, old(cur).pos as int) == Ok::<
                ((nat, Seq<nat>), int),
                Seq<char>,
            >(((id as nat, ids_view(v@)), final(cur).pos as int)),
            Err(e) => query_at(old(cur).data@, old(cur).pos as int) == Err::<
                ((nat, Seq<nat>), int),
                Seq<char>,
            >(e.text()),
        },
{
    let id: u64 = match cur.u64() {
        Ok(id) => id,
        Err(e) => {
            return Err(e);
        },
    };
    let n: u32 = match cur.u32() {
        Ok(n) => n,
        Err(e) => {
            return Err(e);
        },
    };
    match read_ids(cur, n) {
        Ok(v) => Ok((id, v)),
        Err(e) => Err(e),
    }
}

spec fn after_queries(front: Seq<(nat, Seq<nat>)>, r: Read<Seq<(nat, Seq<nat>)>>) -> Read<
    Seq<(nat, Seq<nat>)>,
> {
    match r {
        Ok((v, end)) => Ok((front + v, end)),
        Err(e) => Err(e),
    }
}

spec fn after_tags(front: Seq<(nat, nat)>, r: Read<Seq<(nat, nat)>>) -> Read<Seq<(nat, nat)>> {
    match r {
        Ok((v, end)) => Ok((front + v, end)),
        Err(e) => Err(e),
    }
}

impl TweakDb {
    /// Reads the queries: each id with its results.
    pub fn read_queries(&self) -> (r: Result<Vec<(u64, Vec<u64>)>, Error>)
        ensures
            match r {
                Ok(v) => queries_of(self.data@, self.queries_offset as nat) == Ok::<
                    Seq<(nat, Seq<nat>)>,
                    Seq<char>,
                >(queries_view(v@)),
                Err(e) => queries_of(self.data@, self.queries_offset as nat) == Err::<
                    Seq<(nat, Seq<nat>)>,
                    Seq<char>,
                >(e.text()),
            },
    {
        let mut cur = Cursor::new(self.data.as_slice());
        let count: i32 = match read_section(&mut cur, self.queries_offset) {
            Ok(n) => n,
            Err(e) => {
                return Err(e);
            },
        };
        let n: u32 = if count < 0 {
            0
        } else {
            count as u32
        };
        let ghost start = cur.pos as int;
        let ghost goal = queries_at(self.data@, start, n as nat);
        let mut out: Vec<(u64, Vec<u64>)> = Vec::new();
        let mut i: u32 = 0;
        proof {
            assert(queries_view(out@) =~= Seq::empty());
            match goal {
                Ok((v, e)) => {
                    assert(queries_view(out@) + v =~= v);
                },
                Err(_) => {},
            }
        }
        while i < n
            invariant
                i <= n,
                n == (if count < 0 {
                    0
                } else {
                    count as int
                }),
                cur.data@ == self.data@,
                section_count(self.data@, self.queries_offset as nat) == Ok::<
                    (int, int),
                    Seq<char>,
                >((count as int, start)),
                goal == queries_at(self.data@, start, n as nat),
                goal == after_queries(
                    queries_view(out@),
                    queries_at(self.data@, cur.pos as int, (n - i) as nat),
                ),
            decreases n - i,
        {
            let ghost before = queries_view(out@);
            let q = match read_query(&mut cur) {
                Ok(q) => q,
                Err(e) => {
                    return Err(e);
                },
            };
            let ghost qv = (q.0 as nat, ids_view(q.1@));
            out.push(q);
            i += 1;
            proof {
                assert(queries_view(out@) =~= before.push(qv));
                match queries_at(self.data@, cur.pos as int, (n - i) as nat) {
                    Ok((w, e)) => {
                        assert(before.push(qv) + w =~= before + (seq![qv] + w));
                    },
                    Err(_) => {},
                }
            }
        }
        proof {
            assert(queries_view(out@) + Seq::empty() =~= queries_view(out@));
        }
        Ok(out)
    }

    /// Reads the group tags.
    pub fn read_group_tags(&self) -> (r: Result<Vec<(u64, u8)>, Error>)
        ensures
            match r {
                Ok(v) => group_tags_of(self.data@, self.group_tags_offset as nat) == Ok::<
                    Seq<(nat, nat)>,
                    Seq<char>,
                >(tags_view(v@)),
                Err(e) => group_tags_of(self.data@, self.group_tags_offset as nat) == Err::<
                    Seq<(nat, nat)>,
                    Seq<char>,
                >(e.text()),
            },
    {
        let mut cur = Cursor::new(self.data.as_slice());
        let count: i32 = match read_section(&mut cur, self.group_tags_offset) {
            Ok(n) => n,
            Err(e) => {
                return Err(e);
            },
        };
        let n: u32 = if count < 0 {
            0
        } else {
            count as u32
        };
        let ghost start = cur.pos as int;
        let ghost goal = tags_at(self.data@, start, n as nat);
        let mut out: Vec<(u64, u8)> = Vec::new();
        let mut i: u32 = 0;
        proof {
            assert(tags_view(out@) =~= Seq::empty());
            match goal {
                Ok((v, e)) => {
                    assert(tags_view(out@) + v =~= v);
                },
                Err(_) => {},
            }
        }
        while i < n
            invariant
                i <= n,
                n == (if count < 0 {
                    0
                } else {
                    count as int
                }),
                cur.data@ == self.data@,
                section_count(self.data@, self.group_tags_offset as nat) == Ok::<
                    (int, int),
                    Seq<char>,
                >((count as int, start)),
                goal == tags_at(self.data@, start, n as nat),
                goal == after_tags(
                    tags_view(out@),
                    tags_at(self.data@, cur.pos as int, (n - i) as nat),
                ),
            decreases n - i,
        {
            let ghost before = tags_view(out@);
            let id: u64 = match cur.u64() {
                Ok(v) => v,
                Err(e) => {
                    return Err(e);
                },
            };
            let tag: u8 = match cur.u8() {
                Ok(v) => v,
                Err(e) => {
                    return Err(e);
                },
            };
            let ghost tv = (id as nat, tag as nat);
            out.push((id, tag));
            i += 1;
            proof {
                assert(tags_view(out@) =~= before.push(tv));
                match tags_at(self.data@, cur.pos as int, (n - i) as nat) {
                    Ok((w, e)) => {
                        assert(before.push(tv) + w =~= before + (seq![tv] + w));
                    },
                    Err(_) => {},
                }
            }
        }
        proof {
            assert(tags_view(out@) + Seq::empty() =~= tags_view(out@));
        }
        Ok(out)
    }
}

// ---- totals ----------------------------------------------------------------

/// The summed key counts of the groups.
pub open spec fn key_total(types: Seq<FlatType>) -> nat
    decreases types.len(),
{
    if types.len() == 0 {
        0
    } else {
        key_total(types.drop_last()) + types.last().key_count as nat
    }
}

proof fn lemma_key_total(types: Seq<FlatType>)
    ensures
        key_total(types) <= types.len() * 0xFFFF_FFFF,
    decreases types.len(),
{
    if types.len() > 0 {
        lemma_key_total(types.drop_last());
    }
}

impl TweakDb {
    /// How many flat keys there are.
    pub fn total_flat_keys(&self) -> (r: u64)
        requires
            self.flat_types@.len() <= i32::MAX,
        ensures
            r == key_total(self.flat_types@),
    {
        let mut sum: u64 = 0;
        let mut i: usize = 0;
        while i < self.flat_types.len()
            invariant
                i <= self.flat_types.len(),
                self.flat_types@.len() <= i32::MAX,
                sum == key_total(self.flat_types@.take(i as int)),
            decreases self.flat_types.len() - i,
        {
            proof {
                let t = self.flat_types@.take(i as int);
                lemma_key_total(t);
                assert(self.flat_types@.take(i + 1).drop_last() =~= t);
                assert(t.len() * 0xFFFF_FFFF <= 0x7FFF_FFFF * 0xFFFF_FFFF) by (nonlinear_arith)
                    requires
                        t.len() <= 0x7FFF_FFFF,
                ;
            }
            sum = sum + self.flat_types[i].key_count as u64;
            i += 1;
        }
        proof {
            assert(self.flat_types@.take(i as int) =~= self.flat_types@);
        }
        sum
    }

    /// How many record classes occur.
    pub fn distinct_record_types(&self) -> (r: usize)
        ensures
            r == self.records@.map_values(|rec: Record| rec.type_key).to_set().len(),
    {
        let ghost keys = self.records@.map_values(|rec: Record| rec.type_key);
        let mut seen: HashSet<u32> = HashSet::new();
        let mut i: usize = 0;
        proof {
            assert(keys.take(0).to_set() =~= Set::empty());
        }
        while i < self.records.len()
            invariant
                i <= self.records.len(),
                keys == self.records@.map_values(|rec: Record| rec.type_key),
                seen@ == keys.take(i as int).to_set(),
            decreases self.records.len() - i,
        {
            seen.insert(self.records[i].type_key);
            proof {
                let a = keys.take(i as int);
                let b = keys.take(i + 1);
                let k = keys[i as int];
                assert(b =~= a.push(k));
                assert forall|x: u32| #[trigger] b.to_set().contains(x) == a.to_set().insert(
                    k,
                ).contains(x) by {
                    if b.contains(x) {
                        let j = choose|j: int| 0 <= j < b.len() && b[j] == x;
                        if j < i {
                            assert(a[j] == x);
                            assert(a.contains(x));
                        }
                    }
                    if a.contains(x) {
                        let j = choose|j: int| 0 <= j < a.len() && a[j] == x;
                        assert(b[j] == x);
                    }
                    assert(b[i as int] == k);
                }
                assert(b.to_set() =~= a.to_set().insert(k));
            }
            i += 1;
        }
        proof {
            assert(keys.take(i as int) =~= keys);
        }
        seen.len()
    }
}

// ---- laws ------------------------------------------------------------------

/// Are the bytes exactly one value of the type?
pub open spec fn is_value(e: Seq<u8>, index: int) -> bool {
    scalar_at(e, 0, index) is Ok && (scalar_at(e, 0, index)->Ok_0).1 == e.len()
}

proof fn lemma_floats_shift(front: Seq<u8>, mid: Seq<u8>, rest: Seq<u8>, pos: int, n: nat)
    requires
        floats_at(mid, pos, n) is Ok,
    ensures
        floats_at(front + mid + rest, front.len() + pos, n) == Ok::<(Seq<nat>, int), Seq<char>>(
            ((floats_at(mid, pos, n)->Ok_0).0, front.len() + (floats_at(mid, pos, n)->Ok_0).1),
        ),
    decreases n,
{
    if n > 0 {
        lemma_int_shift(front, mid, rest, pos, 4);
        lemma_floats_shift(front, mid, rest, (int_at(mid, pos, 4)->Ok_0).1, (n - 1) as nat);
    }
}

/// A scalar is read the same in any surroundings.
proof fn lemma_scalar_shift(front: Seq<u8>, mid: Seq<u8>, rest: Seq<u8>, pos: int, index: int)
    requires
        scalar_at(mid, pos, index) is Ok,
    ensures
        scalar_at(front + mid + rest, front.len() + pos, index) == Ok::<
            (FlatValueV, int),
            Seq<char>,
        >(
            (
                (scalar_at(mid, pos, index)->Ok_0).0,
                front.len() + (scalar_at(mid, pos, index)->Ok_0).1,
            ),
        ),
{
    if index == 0 || index == 1 {
        lemma_string_shift(front, mid, rest, pos);
    } else if index == 2 || index == 3 || index == 19 || index == 9 || index == 13 {
        lemma_int_shift(front, mid, rest, pos, 8);
    } else if index == 4 || index == 8 || index == 12 {
        lemma_int_shift(front, mid, rest, pos, 4);
    } else if index == 5 || index == 6 || index == 10 {
        lemma_int_shift(front, mid, rest, pos, 1);
    } else if index == 7 || index == 11 {
        lemma_int_shift(front, mid, rest, pos, 2);
    } else if index == 14 {
        lemma_bytes_shift(front, mid, rest, pos, 4);
    } else if index == 15 || index == 18 {
        lemma_floats_shift(front, mid, rest, pos, 3);
    } else if index == 16 {
        lemma_floats_shift(front, mid, rest, pos, 4);
    } else if index == 17 {
        lemma_floats_shift(front, mid, rest, pos, 2);
    }
}

proof fn lemma_concatenated_front(es: Seq<Seq<u8>>)
    requires
        es.len() > 0,
    ensures
        concatenated(es) == es[0] + concatenated(es.skip(1)),
    decreases es.len(),
{
    if es.len() == 1 {
        assert(es.drop_last() =~= Seq::empty());
        assert(es.skip(1) =~= Seq::empty());
        assert(concatenated(es.drop_last()) =~= Seq::empty());
        assert(concatenated(es.skip(1)) =~= Seq::empty());
        assert(concatenated(es) =~= es[0] + concatenated(es.skip(1)));
    } else {
        lemma_concatenated_front(es.drop_last());
        assert(es.drop_last().skip(1) =~= es.skip(1).drop_last());
        assert(concatenated(es) =~= es[0] + concatenated(es.skip(1)));
    }
}

/// Elements that follow one another are taken apart again.
proof fn lemma_blobs_of_elements(front: Seq<u8>, es: Seq<Seq<u8>>, index: usize)
    requires
        forall|i: int| 0 <= i < es.len() ==> is_value(#[trigger] es[i], index as int),
    ensures
        blobs_at(
            front + concatenated(es),
            front.len() as int,
            ResolvedType { index, is_array: false },
            es.len(),
        ) == Ok::<(Seq<Seq<u8>>, int), Seq<char>>(
            (es, (front.len() + concatenated(es).len()) as int),
        ),
    decreases es.len(),
{
    let ty = ResolvedType { index, is_array: false };
    if es.len() == 0 {
        assert(es =~= Seq::empty());
    } else {
        lemma_concatenated_front(es);
        let e = es[0];
        let more = concatenated(es.skip(1));
        let data = front + concatenated(es);
        assert(is_value(es[0], index as int));
        lemma_scalar_shift(front, e, more, 0, index as int);
        assert(data =~= front + e + more);
        let front2 = front + e;
        assert forall|i: int| 0 <= i < es.skip(1).len() implies is_value(
            #[trigger] es.skip(1)[i],
            index as int,
        ) by {
            assert(is_value(es[i + 1], index as int));
        }
        lemma_blobs_of_elements(front2, es.skip(1), index);
        assert(front2 + more =~= data);
        assert(data.subrange(front.len() as int, front2.len() as int) =~= e);
        assert(seq![e] + es.skip(1) =~= es);
    }
}

/// An array that was put together is taken apart into the same elements.
pub proof fn array_round_trip(es: Seq<Seq<u8>>, index: usize)
    requires
        es.len() <= i32::MAX,
        forall|i: int| 0 <= i < es.len() ==> is_value(#[trigger] es[i], index as int),
    ensures
        elements_of(array_bytes(es), index) == Ok::<Seq<Seq<u8>>, Seq<char>>(es),
{
    let head = crate::cursor::vlq_bytes(es.len() as int);
    crate::cursor::vlq_round_trip(Seq::empty(), es.len() as i32, concatenated(es));
    assert(Seq::<u8>::empty() + head + concatenated(es) =~= array_bytes(es));
    lemma_blobs_of_elements(head, es, index);
}

/// The raw values of a group, put after one another, are the bytes they were
/// read from.
pub proof fn raw_values_are_the_bytes(data: Seq<u8>, pos: int, ty: ResolvedType, n: nat)
    requires
        0 <= pos <= data.len(),
        blobs_at(data, pos, ty, n) is Ok,
    ensures
        ({
            let (blobs, end) = blobs_at(data, pos, ty, n)->Ok_0;
            &&& blobs.len() == n
            &&& pos <= end <= data.len()
            &&& concatenated(blobs) == data.subrange(pos, end)
        }),
    decreases n,
{
    let (blobs, end) = blobs_at(data, pos, ty, n)->Ok_0;
    if n == 0 {
        assert(concatenated(blobs) =~= data.subrange(pos, pos));
    } else {
        lemma_value_extent(data, pos, ty);
        let next = (value_at(data, pos, ty)->Ok_0).1;
        raw_values_are_the_bytes(data, next, ty, (n - 1) as nat);
        lemma_concatenated_front(blobs);
        assert(blobs.skip(1) =~= (blobs_at(data, next, ty, (n - 1) as nat)->Ok_0).0);
        assert(data.subrange(pos, next) + data.subrange(next, end) =~= data.subrange(pos, end));
    }
}

/// The value that a text denotes, where it can be encoded.
pub open spec fn denoted(index: int, text: Seq<char>) -> FlatValueV {
    let t = trimmed(text);
    if index == 0 {
        FlatValueV::Str(cname_text(t))
    } else if index == 1 {
        FlatValueV::Str(t)
    } else if index == 2 || index == 3 || index == 19 {
        FlatValueV::Id(id_value(t)->Ok_0 as nat)
    } else if index == 5 {
        FlatValueV::Bool(bool_value(t)->Ok_0 != 0)
    } else if index == 6 {
        FlatValueV::U8(unsigned_number(t, 10)->0)
    } else if index == 7 {
        FlatValueV::U16(unsigned_number(t, 10)->0)
    } else if index == 8 {
        FlatValueV::U32(unsigned_number(t, 10)->0)
    } else if index == 9 {
        FlatValueV::U64(unsigned_number(t, 10)->0)
    } else if index == 10 {
        FlatValueV::I8(signed_number(t)->0)
    } else if index == 11 {
        FlatValueV::I16(signed_number(t)->0)
    } else if index == 12 {
        FlatValueV::I32(signed_number(t)->0)
    } else if index == 13 {
        FlatValueV::I64(signed_number(t)->0)
    } else {
        FlatValueV::Color(color_value(t)->Ok_0)
    }
}

proof fn lemma_int_alone(v: nat, n: nat)
    requires
        v < pow256(n),
    ensures
        le_bytes(v, n).len() == n,
        int_at(le_bytes(v, n), 0, n) == Ok::<(nat, int), Seq<char>>((v, n as int)),
{
    le_round_trip(v, n);
    let b = le_bytes(v, n);
    assert(b.subrange(0, n as int) =~= b);
}

proof fn lemma_channels_len(parts: Seq<Seq<char>>, i: int)
    requires
        0 <= i <= parts.len(),
        channel_values(parts, i) is Ok,
    ensures
        channel_values(parts, i)->Ok_0.len() == parts.len() - i,
    decreases parts.len() - i,
{
    if i < parts.len() {
        lemma_channels_len(parts, i + 1);
    }
}

/// The bytes that a text is encoded to are read back as the value that the text
/// denotes, and nothing is left over.
pub proof fn encoded_value_reads_back(index: int, text: Seq<char>)
    requires
        0 <= index < 20,
        float_count(index) == 0,
        encoded(index, text) is Ok,
        index == 0 ==> encode_utf8(cname_text(trimmed(text))).len() <= i32::MAX,
        index == 1 ==> encode_utf8(trimmed(text)).len() <= i32::MAX,
    ensures
        scalar_at(encoded(index, text)->Ok_0, 0, index) == Ok::<(FlatValueV, int), Seq<char>>(
            (denoted(index, text), encoded(index, text)->Ok_0.len() as int),
        ),
        is_value(encoded(index, text)->Ok_0, index),
{
    let t = trimmed(text);
    let b = encoded(index, text)->Ok_0;
    reveal_with_fuel(pow256, 9);
    if index == 0 {
        string_round_trip(Seq::empty(), cname_text(t), Seq::empty());
        assert(Seq::<u8>::empty() + string_bytes(cname_text(t)) + Seq::empty() =~= b);
    } else if index == 1 {
        string_round_trip(Seq::empty(), t, Seq::empty());
        assert(Seq::<u8>::empty() + string_bytes(t) + Seq::empty() =~= b);
    } else if index == 2 || index == 3 || index == 19 {
        lemma_int_alone(id_value(t)->Ok_0 as nat, 8);
    } else if index == 5 {
        lemma_byte(b, 0);
    } else if index == 6 {
        lemma_int_alone(unsigned_number(t, 10)->0, 1);
    } else if index == 7 {
        lemma_int_alone(unsigned_number(t, 10)->0, 2);
    } else if index == 8 {
        lemma_int_alone(unsigned_number(t, 10)->0, 4);
    } else if index == 9 {
        lemma_int_alone(unsigned_number(t, 10)->0, 8);
    } else if index == 14 {
        if t.len() > 0 && t[0] == '#' {
        } else {
            lemma_channels_len(split_at(t, ','), 0);
        }
        assert(b.len() == 4);
        assert(b.subrange(0, 4) =~= b);
    } else {
        let n = signed_number(t)->0;
        if index == 10 {
            lemma_int_alone((if n < 0 { n + 0x100 } else { n }) as nat, 1);
        } else if index == 11 {
            lemma_int_alone((if n < 0 { n + 0x1_0000 } else { n }) as nat, 2);
        } else if index == 12 {
            lemma_int_alone((if n < 0 { n + 0x1_0000_0000 } else { n }) as nat, 4);
        } else {
            lemma_int_alone((if n < 0 { n + 0x1_0000_0000_0000_0000 } else { n }) as nat, 8);
        }
    }
}

proof fn lemma_float_bytes(
    front: Seq<u8>,
    texts: Seq<Seq<char>>,
    bits: Seq<Option<u32>>,
    label: Seq<char>,
    i: int,
)
    requires
        0 <= i <= texts.len(),
        bits.len() == texts.len(),
        float_bytes(texts, bits, label, i) is Ok,
    ensures
        ({
            let b = float_bytes(texts, bits, label, i)->Ok_0;
            &&& floats_at(front + b, front.len() as int, (texts.len() - i) as nat) == Ok::<
                (Seq<nat>, int),
                Seq<char>,
            >((bits.skip(i).map_values(|x: Option<u32>| x->0 as nat), (front + b).len() as int))
        }),
    decreases texts.len() - i,
{
    let b = float_bytes(texts, bits, label, i)->Ok_0;
    let vals = bits.skip(i).map_values(|x: Option<u32>| x->0 as nat);
    if i < texts.len() {
        let x = bits[i]->0 as nat;
        reveal_with_fuel(pow256, 5);
        lemma_int_alone(x, 4);
        let enc = le_bytes(x, 4);
        let more = float_bytes(texts, bits, label, i + 1)->Ok_0;
        lemma_int_shift(front, enc, more, 0, 4);
        assert(front + enc + more =~= front + b);
        lemma_float_bytes(front + enc, texts, bits, label, i + 1);
        assert(front + enc + more =~= (front + enc) + more);
        assert(seq![x] + bits.skip(i + 1).map_values(|y: Option<u32>| y->0 as nat) =~= vals);
    } else {
        assert(vals =~= Seq::empty());
        assert(front + b =~= front);
    }
}

/// A structure of floats is read back with the bit patterns it was encoded
/// from.
pub proof fn encoded_floats_read_back(
    index: int,
    texts: Seq<Seq<char>>,
    bits: Seq<Option<u32>>,
)
    requires
        15 <= index <= 18,
        texts.len() == float_count(index),
        bits.len() == texts.len(),
        float_bytes(texts, bits, float_label(index), 0) is Ok,
    ensures
        ({
            let b = float_bytes(texts, bits, float_label(index), 0)->Ok_0;
            &&& scalar_at(b, 0, index) == Ok::<(FlatValueV, int), Seq<char>>(
                (
                    FlatValueV::Floats(bits.map_values(|x: Option<u32>| x->0 as nat)),
                    b.len() as int,
                ),
            )
            &&& is_value(b, index)
        }),
{
    let b = float_bytes(texts, bits, float_label(index), 0)->Ok_0;
    lemma_float_bytes(Seq::empty(), texts, bits, float_label(index), 0);
    assert(Seq::<u8>::empty() + b =~= b);
    assert(bits.skip(0) =~= bits);
}

} // verus!
