//! The hashes that name things: CRC-32 for record ids, MurmurHash3 for record
//! types, FNV-1a for value types and resource paths.
use vstd::prelude::*;
use vstd::slice::slice_subrange;
use vstd::utf8::encode_utf8;

use crate::text::{chars_of, ends_with, has_prefix, has_suffix, starts_with, string_of};

verus! {

// ---- CRC-32 ----------------------------------------------------------------

/// One step of the reflected CRC-32 register.
pub open spec fn crc_bit(c: u32) -> u32 {
    if c & 1 == 1 {
        (c >> 1) ^ 0xEDB8_8320
    } else {
        c >> 1
    }
}

pub open spec fn crc_bits(c: u32, n: nat) -> u32
    decreases n,
{
    if n == 0 {
        c
    } else {
        crc_bit(crc_bits(c, (n - 1) as nat))
    }
}

/// The register after the bytes, from the register `c`.
pub open spec fn crc_bytes(c: u32, bytes: Seq<u8>) -> u32
    decreases bytes.len(),
{
    if bytes.len() == 0 {
        c
    } else {
        crc_bits(crc_bytes(c, bytes.drop_last()) ^ (bytes.last() as u32), 8)
    }
}

pub open spec fn crc32_of(bytes: Seq<u8>) -> u32 {
    !crc_bytes(0xFFFF_FFFF, bytes)
}

pub fn crc32(bytes: &[u8]) -> (r: u32)
    ensures
        r == crc32_of(bytes@),
{
    let mut crc: u32 = 0xFFFF_FFFF;
    let mut i: usize = 0;
    while i < bytes.len()
        invariant
            i <= bytes.len(),
            crc == crc_bytes(0xFFFF_FFFF, bytes@.take(i as int)),
        decreases bytes.len() - i,
    {
        let ghost before = crc;
        crc = crc ^ (bytes[i] as u32);
        let ghost start = crc;
        let mut k: u32 = 0;
        while k < 8
            invariant
                k <= 8,
                crc == crc_bits(start, k as nat),
            decreases 8 - k,
        {
            if crc & 1 == 1 {
                crc = (crc >> 1) ^ 0xEDB8_8320;
            } else {
                crc = crc >> 1;
            }
            k += 1;
        }
        proof {
            assert(bytes@.take(i + 1).drop_last() =~= bytes@.take(i as int));
        }
        i += 1;
    }
    proof {
        assert(bytes@.take(i as int) =~= bytes@);
    }
    !crc
}

/// The id of a name: the CRC-32 of its bytes, with their number above it.
pub open spec fn id_of(name: Seq<char>) -> u64 {
    (crc32_of(encode_utf8(name)) as u64) | ((encode_utf8(name).len() as u64) << 32)
}

/// The id of a record or flat name.
pub fn tweak_db_id(name: &str) -> (r: u64)
    ensures
        r == id_of(name@),
{
    let bytes = name.as_bytes();
    (crc32(bytes) as u64) | ((bytes.len() as u64) << 32)
}

// ---- MurmurHash3 -----------------------------------------------------------

pub open spec fn rotl(x: u32, n: u32) -> u32 {
    (x << n) | (x >> ((32 - n) as u32))
}

fn rotate_left(x: u32, n: u32) -> (r: u32)
    requires
        0 < n < 32,
    ensures
        r == rotl(x, n),
{
    (x << n) | (x >> (32 - n))
}

/// Four bytes as a little-endian number.
pub open spec fn le32(b0: u8, b1: u8, b2: u8, b3: u8) -> u32 {
    (b0 as u32) | ((b1 as u32) << 8) | ((b2 as u32) << 16) | ((b3 as u32) << 24)
}

pub open spec fn murmur_mix(k: u32) -> u32 {
    rotl(k.wrapping_mul(0xcc9e_2d51), 15).wrapping_mul(0x1b87_3593)
}

/// The hash after the first `n` blocks of four bytes.
pub open spec fn murmur_blocks(data: Seq<u8>, seed: u32, n: nat) -> u32
    decreases n,
{
    if n == 0 {
        seed
    } else {
        let i = 4 * (n - 1);
        let k = le32(data[i], data[i + 1], data[i + 2], data[i + 3]);
        rotl(murmur_blocks(data, seed, (n - 1) as nat) ^ murmur_mix(k), 13).wrapping_mul(
            5,
        ).wrapping_add(0xe654_6b64)
    }
}

/// What remains after the last whole block.
pub open spec fn murmur_tail(data: Seq<u8>, h: u32) -> u32 {
    let i = 4 * (data.len() / 4) as int;
    let n = data.len() % 4;
    if n == 0 {
        h
    } else if n == 1 {
        h ^ murmur_mix(data[i] as u32)
    } else if n == 2 {
        h ^ murmur_mix(((data[i + 1] as u32) << 8) ^ (data[i] as u32))
    } else {
        h ^ murmur_mix(
            ((data[i + 2] as u32) << 16) ^ ((data[i + 1] as u32) << 8) ^ (data[i] as u32),
        )
    }
}

pub open spec fn murmur_final(h: u32) -> u32 {
    let a = (h ^ (h >> 16)).wrapping_mul(0x85eb_ca6b);
    let b = (a ^ (a >> 13)).wrapping_mul(0xc2b2_ae35);
    b ^ (b >> 16)
}

/// MurmurHash3, 32 bits.
pub open spec fn murmur3_of(data: Seq<u8>, seed: u32) -> u32 {
    murmur_final(
        murmur_tail(data, murmur_blocks(data, seed, data.len() / 4)) ^ ((data.len()
            % 0x1_0000_0000) as u32),
    )
}

fn mix(k: u32) -> (r: u32)
    ensures
        r == murmur_mix(k),
{
    rotate_left(k.wrapping_mul(0xcc9e_2d51), 15).wrapping_mul(0x1b87_3593)
}

pub fn murmur3_32(data: &[u8], seed: u32) -> (r: u32)
    ensures
        r == murmur3_of(data@, seed),
{
    let mut h: u32 = seed;
    let nblocks: usize = data.len() / 4;
    let mut n: usize = 0;
    while n < nblocks
        invariant
            n <= nblocks,
            nblocks == data.len() / 4,
            h == murmur_blocks(data@, seed, n as nat),
        decreases nblocks - n,
    {
        let i: usize = n * 4;
        let k: u32 = (data[i] as u32) | ((data[i + 1] as u32) << 8) | ((data[i + 2] as u32) << 16)
            | ((data[i + 3] as u32) << 24);
        h = rotate_left(h ^ mix(k), 13).wrapping_mul(5).wrapping_add(0xe654_6b64);
        n += 1;
    }
    let i: usize = nblocks * 4;
    let left: usize = data.len() - i;
    if left == 1 {
        h = h ^ mix(data[i] as u32);
    } else if left == 2 {
        h = h ^ mix(((data[i + 1] as u32) << 8) ^ (data[i] as u32));
    } else if left == 3 {
        h = h ^ mix(((data[i + 2] as u32) << 16) ^ ((data[i + 1] as u32) << 8) ^ (data[i] as u32));
    }
    h = h ^ ((data.len() as u64 % 0x1_0000_0000) as u32);
    h = (h ^ (h >> 16)).wrapping_mul(0x85eb_ca6b);
    h = (h ^ (h >> 13)).wrapping_mul(0xc2b2_ae35);
    h ^ (h >> 16)
}

/// The part of a class name that its type key is made from: what stands between
/// `gamedata` and `_Record`, or the whole name.
pub open spec fn class_core(name: Seq<char>) -> Seq<char> {
    let p = "gamedata"@;
    let q = "_Record"@;
    if has_prefix(name, p) && has_suffix(name.skip(p.len() as int), q) {
        name.subrange(p.len() as int, name.len() - q.len())
    } else {
        name
    }
}

pub open spec fn type_key_of(name: Seq<char>) -> u32 {
    murmur3_of(encode_utf8(class_core(name)), 0x5EED_BA5E)
}

/// The type key of a record class.
pub fn record_type_key(class_name: &str) -> (r: u32)
    ensures
        r == type_key_of(class_name@),
{
    let v = chars_of(class_name);
    let n: usize = v.len();
    proof {
        reveal_strlit("gamedata");
        reveal_strlit("_Record");
    }
    if starts_with(v.as_slice(), "gamedata") {
        let rest = slice_subrange(v.as_slice(), 8, n);
        proof {
            assert(rest@ =~= v@.skip(8));
        }
        if ends_with(rest, "_Record") {
            let core = string_of(slice_subrange(v.as_slice(), 8, n - 7));
            return murmur3_32(core.as_str().as_bytes(), 0x5EED_BA5E);
        }
    }
    murmur3_32(class_name.as_bytes(), 0x5EED_BA5E)
}

// ---- FNV-1a ----------------------------------------------------------------

/// FNV-1a with 32 bits, from the given offset basis.
pub open spec fn fnv32_from(bytes: Seq<u8>, basis: u32) -> u32
    decreases bytes.len(),
{
    if bytes.len() == 0 {
        basis
    } else {
        (fnv32_from(bytes.drop_last(), basis) ^ (bytes.last() as u32)).wrapping_mul(0x0100_0193)
    }
}

/// FNV-1a with 64 bits, from the given offset basis.
pub open spec fn fnv64_from(bytes: Seq<u8>, basis: u64) -> u64
    decreases bytes.len(),
{
    if bytes.len() == 0 {
        basis
    } else {
        (fnv64_from(bytes.drop_last(), basis) ^ (bytes.last() as u64)).wrapping_mul(
            0x0000_0100_0000_01b3,
        )
    }
}

pub fn fnv1a32_seeded(bytes: &[u8], seed: u32) -> (r: u32)
    ensures
        r == fnv32_from(bytes@, seed),
{
    let mut h: u32 = seed;
    let mut i: usize = 0;
    while i < bytes.len()
        invariant
            i <= bytes.len(),
            h == fnv32_from(bytes@.take(i as int), seed),
        decreases bytes.len() - i,
    {
        proof {
            assert(bytes@.take(i + 1).drop_last() =~= bytes@.take(i as int));
        }
        h = (h ^ (bytes[i] as u32)).wrapping_mul(0x0100_0193);
        i += 1;
    }
    proof {
        assert(bytes@.take(i as int) =~= bytes@);
    }
    h
}

pub fn fnv1a64_seeded(bytes: &[u8], seed: u64) -> (r: u64)
    ensures
        r == fnv64_from(bytes@, seed),
{
    let mut h: u64 = seed;
    let mut i: usize = 0;
    while i < bytes.len()
        invariant
            i <= bytes.len(),
            h == fnv64_from(bytes@.take(i as int), seed),
        decreases bytes.len() - i,
    {
        proof {
            assert(bytes@.take(i + 1).drop_last() =~= bytes@.take(i as int));
        }
        h = (h ^ (bytes[i] as u64)).wrapping_mul(0x0000_0100_0000_01b3);
        i += 1;
    }
    proof {
        assert(bytes@.take(i as int) =~= bytes@);
    }
    h
}

pub fn fnv1a32(bytes: &[u8]) -> (r: u32)
    ensures
        r == fnv32_from(bytes@, 0x811c_9dc5),
{
    fnv1a32_seeded(bytes, 0x811c_9dc5)
}

pub fn fnv1a64(bytes: &[u8]) -> (r: u64)
    ensures
        r == fnv64_from(bytes@, 0xcbf2_9ce4_8422_2325),
{
    fnv1a64_seeded(bytes, 0xcbf2_9ce4_8422_2325)
}

/// A character of a resource path in normal form: lower case, and a backslash
/// for a slash.
pub open spec fn path_char(c: char) -> char {
    if c == '/' {
        '\\'
    } else if 'A' <= c <= 'Z' {
        ((c as u8 + 32) as u8) as char
    } else {
        c
    }
}

pub open spec fn normal_path(path: Seq<char>) -> Seq<char> {
    path.map_values(|c: char| path_char(c))
}

pub open spec fn path_hash_of(path: Seq<char>) -> u64 {
    fnv64_from(encode_utf8(normal_path(path)), 0xcbf2_9ce4_8422_2325)
}

/// The hash that names a resource: slashes and letter case do not matter.
pub fn resource_path_hash(path: &str) -> (r: u64)
    ensures
        r == path_hash_of(path@),
{
    let v = chars_of(path);
    let mut out: Vec<char> = Vec::new();
    let mut i: usize = 0;
    while i < v.len()
        invariant
            i <= v.len(),
            out@ == normal_path(v@.take(i as int)),
        decreases v.len() - i,
    {
        let c: char = v[i];
        let n: char = if c == '/' {
            '\\'
        } else if 'A' <= c && c <= 'Z' {
            ((c as u8) + 32u8) as char
        } else {
            c
        };
        out.push(n);
        i += 1;
        proof {
            assert(out@ =~= normal_path(v@.take(i as int)));
        }
    }
    proof {
        assert(v@.take(i as int) =~= v@);
    }
    let s = string_of(out.as_slice());
    fnv1a64(s.as_str().as_bytes())
}

/// Two spellings of a path that differ only in letter case and in the slash
/// used have the same hash.
pub proof fn path_hash_ignores_case_and_slashes(a: Seq<char>, b: Seq<char>)
    requires
        a.len() == b.len(),
        forall|i: int|
            0 <= i < a.len() ==> a[i] == b[i] || path_char(a[i]) == b[i] || a[i] == path_char(b[i]),
    ensures
        path_hash_of(a) == path_hash_of(b),
{
    assert forall|i: int| 0 <= i < a.len() implies path_char(a[i]) == path_char(b[i]) by {
        assert(path_char(path_char(a[i])) == path_char(a[i]));
        assert(path_char(path_char(b[i])) == path_char(b[i]));
    }
    assert(normal_path(a) =~= normal_path(b));
}

} // verus!
