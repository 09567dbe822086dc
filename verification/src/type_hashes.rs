//! The forty hashes of the types, computed, and that no two of them are equal.
use vstd::prelude::*;
use vstd::utf8::{encode_utf8, is_ascii_chars_encode_utf8};

use vstd::arithmetic::div_mod::lemma_fundamental_div_mod_converse;

use crate::hashes::fnv64_from;
use crate::tweakdb::{array_name, type_hash_at, type_with_hash, ResolvedType};

verus! {

/// The hash of nothing, with which every hash starts.
pub const BASIS: u64 = 0xcbf2_9ce4_8422_2325;

/// The hash of `array:`, with which the name of every array starts.
pub const ARRAY_BASIS: u64 = 0x104d_4d9b_ad9d_3f94;

/// One byte more at the end of a hash that goes on from `h`.
proof fn lemma_front(bs: Seq<u8>, h: u64)
    requires
        bs.len() > 0,
    ensures
        fnv64_from(bs, h) == fnv64_from(
            bs.skip(1),
            (h ^ (bs[0] as u64)).wrapping_mul(0x0000_0100_0000_01b3),
        ),
    decreases bs.len(),
{
    let next = (h ^ (bs[0] as u64)).wrapping_mul(0x0000_0100_0000_01b3);
    if bs.len() == 1 {
        assert(bs.drop_last() =~= Seq::empty());
        assert(bs.skip(1) =~= Seq::empty());
        assert(fnv64_from(bs.drop_last(), h) == h);
        assert(bs.last() == bs[0]);
    } else {
        lemma_front(bs.drop_last(), h);
        assert(bs.drop_last().skip(1) =~= bs.skip(1).drop_last());
        assert(bs.skip(1).last() == bs.last());
    }
}

/// A hash of two texts goes on from that of the first.
proof fn lemma_append(a: Seq<u8>, b: Seq<u8>, h: u64)
    ensures
        fnv64_from(a + b, h) == fnv64_from(b, fnv64_from(a, h)),
    decreases b.len(),
{
    if b.len() == 0 {
        assert(a + b =~= a);
    } else {
        lemma_append(a, b.drop_last(), h);
        assert((a + b).drop_last() =~= a + b.drop_last());
        assert((a + b).last() == b.last());
    }
}

/// The byte `b` at `i` takes the hash from `h` to `next`, by way of `x`, whose
/// product runs over 64 bits so many times.
proof fn step(bs: Seq<u8>, i: int, b: u8, h: u64, x: u64, over: int, next: u64)
    requires
        0 <= i < bs.len(),
        bs[i] == b,
        x == h ^ (b as u64),
        x * 0x0000_0100_0000_01b3 == over * 0x1_0000_0000_0000_0000 + next,
    ensures
        fnv64_from(bs.skip(i), h) == fnv64_from(bs.skip(i + 1), next),
{
    lemma_front(bs.skip(i), h);
    lemma_fundamental_div_mod_converse(
        x * 0x0000_0100_0000_01b3,
        0x1_0000_0000_0000_0000,
        over,
        next as int,
    );
    assert(bs.skip(i).skip(1) =~= bs.skip(i + 1));
}

/// Do ASCII characters and bytes stand for each other?
spec fn spells(s: Seq<char>, bs: Seq<u8>) -> bool {
    s.len() == bs.len() && forall|i: int| 0 <= i < bs.len() ==> #[trigger] same_code(s, bs, i)
}

spec fn same_code(s: Seq<char>, bs: Seq<u8>, i: int) -> bool {
    bs[i] < 0x80 && s[i] == bs[i] as char
}

/// The bytes of an ASCII text.
proof fn lemma_ascii(s: Seq<char>, bs: Seq<u8>)
    requires
        spells(s, bs),
    ensures
        encode_utf8(s) == bs,
{
    assert forall|i: int| 0 <= i < s.len() implies '\0' <= #[trigger] s[i] <= '\u{7f}' by {
        assert(same_code(s, bs, i));
    }
    is_ascii_chars_encode_utf8(s);
    assert forall|i: int| 0 <= i < bs.len() implies encode_utf8(s)[i] == bs[i] by {
        assert(same_code(s, bs, i));
        assert(s[i] as u8 == encode_utf8(s)[i]);
    }
    assert(encode_utf8(s) =~= bs);
}

/// The bytes of `array:`.
#[verifier::opaque]
spec fn array_bytes() -> Seq<u8> {
    seq![0x61u8, 0x72u8, 0x72u8, 0x61u8, 0x79u8, 0x3au8]
}

proof fn lemma_array()
    ensures
        spells("array:"@, array_bytes()),
        fnv64_from(array_bytes(), BASIS) == ARRAY_BASIS,
{
    reveal_strlit("array:");
    reveal(array_bytes);
    let bs = array_bytes();
    assert(0xcbf29ce484222325u64 ^ 0x61u64 == 0xcbf29ce484222344u64
        && 0xaf63dc4c8601ec8cu64 ^ 0x72u64 == 0xaf63dc4c8601ecfeu64
        && 0x089c5407b545b39au64 ^ 0x72u64 == 0x089c5407b545b3e8u64
        && 0xe756b1190570b338u64 ^ 0x61u64 == 0xe756b1190570b359u64
        && 0x890246843e80c03bu64 ^ 0x79u64 == 0x890246843e80c042u64
        && 0x4f9e14b634c6b026u64 ^ 0x3au64 == 0x4f9e14b634c6b01cu64) by (bit_vector);
    assert(bs.skip(0) =~= bs);
    step(bs, 0, 0x61, 0xcbf29ce484222325, 0xcbf29ce484222344, 0xcbf29ce5de, 0xaf63dc4c8601ec8c);
    step(bs, 1, 0x72, 0xaf63dc4c8601ec8c, 0xaf63dc4c8601ecfe, 0xaf63dc4db0, 0x089c5407b545b39a);
    step(bs, 2, 0x72, 0x089c5407b545b39a, 0x089c5407b545b3e8, 0x89c5407c3, 0xe756b1190570b338);
    step(bs, 3, 0x61, 0xe756b1190570b338, 0xe756b1190570b359, 0xe756b11a8e, 0x890246843e80c03b);
    step(bs, 4, 0x79, 0x890246843e80c03b, 0x890246843e80c042, 0x8902468527, 0x4f9e14b634c6b026);
    step(bs, 5, 0x3a, 0x4f9e14b634c6b026, 0x4f9e14b634c6b01c, 0x4f9e14b6bc, 0x104d4d9bad9d3f94);
    assert(bs.skip(6) =~= Seq::empty());
}

/// The bytes of two ASCII texts.
proof fn lemma_ascii_both(a: Seq<char>, x: Seq<u8>, b: Seq<char>, y: Seq<u8>)
    requires
        spells(a, x),
        spells(b, y),
    ensures
        encode_utf8(a + b) == x + y,
{
    let s = a + b;
    let all = x + y;
    assert forall|i: int| 0 <= i < all.len() implies #[trigger] same_code(s, all, i) by {
        if i < a.len() {
            assert(same_code(a, x, i));
        } else {
            assert(same_code(b, y, i - a.len()));
        }
    }
    lemma_ascii(s, all);
}

/// The hash of the array of a type goes on from that of `array:`.
proof fn lemma_array_of(name: Seq<char>, bs: Seq<u8>)
    requires
        spells(name, bs),
    ensures
        fnv64_from(encode_utf8(array_name(name)), BASIS) == fnv64_from(bs, ARRAY_BASIS),
{
    lemma_array();
    let head = array_bytes();
    lemma_ascii_both("array:"@, head, name, bs);
    lemma_append(head, bs, BASIS);
    assert(array_name(name) == "array:"@ + name);
}

spec fn bytes_of_cname() -> Seq<u8> {
    seq![0x43u8, 0x4eu8, 0x61u8, 0x6du8, 0x65u8]
}

proof fn xors_of_cname()
    ensures
        0xcbf29ce484222325u64 ^ 0x43u64 == 0xcbf29ce484222366u64,
        0xaf63fe4c86022652u64 ^ 0x4eu64 == 0xaf63fe4c8602261cu64,
        0x090f3807b5a6c194u64 ^ 0x61u64 == 0x090f3807b5a6c1f5u64,
        0x0b9e2a19aa5b934fu64 ^ 0x6du64 == 0x0b9e2a19aa5b9322u64,
        0x1954ab9c799b02c6u64 ^ 0x65u64 == 0x1954ab9c799b02a3u64,
        0x104d4d9bad9d3f94u64 ^ 0x43u64 == 0x104d4d9bad9d3fd7u64,
        0x509ab68802337a55u64 ^ 0x4eu64 == 0x509ab68802337a1bu64,
        0x2a5e441bbd787be1u64 ^ 0x61u64 == 0x2a5e441bbd787b80u64,
        0x76a93b22f3b9da80u64 ^ 0x6du64 == 0x76a93b22f3b9daedu64,
        0x5b6a696424cf00b7u64 ^ 0x65u64 == 0x5b6a696424cf00d2u64,
{
    assert(0xcbf29ce484222325u64 ^ 0x43u64 == 0xcbf29ce484222366u64
        && 0xaf63fe4c86022652u64 ^ 0x4eu64 == 0xaf63fe4c8602261cu64
        && 0x090f3807b5a6c194u64 ^ 0x61u64 == 0x090f3807b5a6c1f5u64
        && 0x0b9e2a19aa5b934fu64 ^ 0x6du64 == 0x0b9e2a19aa5b9322u64
        && 0x1954ab9c799b02c6u64 ^ 0x65u64 == 0x1954ab9c799b02a3u64
        && 0x104d4d9bad9d3f94u64 ^ 0x43u64 == 0x104d4d9bad9d3fd7u64
        && 0x509ab68802337a55u64 ^ 0x4eu64 == 0x509ab68802337a1bu64
        && 0x2a5e441bbd787be1u64 ^ 0x61u64 == 0x2a5e441bbd787b80u64
        && 0x76a93b22f3b9da80u64 ^ 0x6du64 == 0x76a93b22f3b9daedu64
        && 0x5b6a696424cf00b7u64 ^ 0x65u64 == 0x5b6a696424cf00d2u64) by (bit_vector);
}

proof fn run_cname()
    ensures
        fnv64_from(bytes_of_cname(), BASIS) == 0xa5e2_3de2_a265_7af9,
{
    let bs = bytes_of_cname();
    xors_of_cname();
    assert(bs.skip(0) =~= bs);
    step(bs, 0, 0x43, 0xcbf29ce484222325, 0xcbf29ce484222366, 0xcbf29ce5de, 0xaf63fe4c86022652);
    step(bs, 1, 0x4e, 0xaf63fe4c86022652, 0xaf63fe4c8602261c, 0xaf63fe4db0, 0x090f3807b5a6c194);
    step(bs, 2, 0x61, 0x090f3807b5a6c194, 0x090f3807b5a6c1f5, 0x90f3807c5, 0x0b9e2a19aa5b934f);
    step(bs, 3, 0x6d, 0x0b9e2a19aa5b934f, 0x0b9e2a19aa5b9322, 0xb9e2a19be, 0x1954ab9c799b02c6);
    step(bs, 4, 0x65, 0x1954ab9c799b02c6, 0x1954ab9c799b02a3, 0x1954ab9ca4, 0xa5e23de2a2657af9);
    assert(bs.skip(5) =~= Seq::empty());
}

proof fn run_array_cname()
    ensures
        fnv64_from(bytes_of_cname(), ARRAY_BASIS) == 0x24d1_e72a_8bbe_64d6,
{
    let bs = bytes_of_cname();
    xors_of_cname();
    assert(bs.skip(0) =~= bs);
    step(bs, 0, 0x43, 0x104d4d9bad9d3f94, 0x104d4d9bad9d3fd7, 0x104d4d9bc9, 0x509ab68802337a55);
    step(bs, 1, 0x4e, 0x509ab68802337a55, 0x509ab68802337a1b, 0x509ab6888b, 0x2a5e441bbd787be1);
    step(bs, 2, 0x61, 0x2a5e441bbd787be1, 0x2a5e441bbd787b80, 0x2a5e441c05, 0x76a93b22f3b9da80);
    step(bs, 3, 0x6d, 0x76a93b22f3b9da80, 0x76a93b22f3b9daed, 0x76a93b23bd, 0x5b6a696424cf00b7);
    step(bs, 4, 0x65, 0x5b6a696424cf00b7, 0x5b6a696424cf00d2, 0x5b6a6964c0, 0x24d1e72a8bbe64d6);
    assert(bs.skip(5) =~= Seq::empty());
}

proof fn hash_of_cname()
    ensures
        type_hash_at(0) == 0xa5e2_3de2_a265_7af9,
        type_hash_at(1) == 0x24d1_e72a_8bbe_64d6,
{
    reveal_strlit("CName");
    let bs = bytes_of_cname();
    lemma_ascii("CName"@, bs);
    lemma_array_of("CName"@, bs);
    run_cname();
    run_array_cname();
}

spec fn bytes_of_string() -> Seq<u8> {
    seq![0x53u8, 0x74u8, 0x72u8, 0x69u8, 0x6eu8, 0x67u8]
}

proof fn xors_of_string()
    ensures
        0xcbf29ce484222325u64 ^ 0x53u64 == 0xcbf29ce484222376u64,
        0xaf640e4c86024182u64 ^ 0x74u64 == 0xaf640e4c860241f6u64,
        0x09464207b5d61502u64 ^ 0x72u64 == 0x09464207b5d61570u64,
        0x9877a319fac66d50u64 ^ 0x69u64 == 0x9877a319fac66d39u64,
        0xd9b75e251f2b97dbu64 ^ 0x6eu64 == 0xd9b75e251f2b97b5u64,
        0x1e2cae13f712c88fu64 ^ 0x67u64 == 0x1e2cae13f712c8e8u64,
        0x104d4d9bad9d3f94u64 ^ 0x53u64 == 0x104d4d9bad9d3fc7u64,
        0x509aa68802335f25u64 ^ 0x74u64 == 0x509aa68802335f51u64,
        0x2a284a1bbd4af6a3u64 ^ 0x72u64 == 0x2a284a1bbd4af6d1u64,
        0xed6cbe22a6616523u64 ^ 0x69u64 == 0xed6cbe22a661654au64,
        0xd12c5ee0b77f1cbeu64 ^ 0x6eu64 == 0xd12c5ee0b77f1cd0u64,
        0xed8207d7ccfdf570u64 ^ 0x67u64 == 0xed8207d7ccfdf517u64,
{
    assert(0xcbf29ce484222325u64 ^ 0x53u64 == 0xcbf29ce484222376u64
        && 0xaf640e4c86024182u64 ^ 0x74u64 == 0xaf640e4c860241f6u64
        && 0x09464207b5d61502u64 ^ 0x72u64 == 0x09464207b5d61570u64
        && 0x9877a319fac66d50u64 ^ 0x69u64 == 0x9877a319fac66d39u64
        && 0xd9b75e251f2b97dbu64 ^ 0x6eu64 == 0xd9b75e251f2b97b5u64
        && 0x1e2cae13f712c88fu64 ^ 0x67u64 == 0x1e2cae13f712c8e8u64
        && 0x104d4d9bad9d3f94u64 ^ 0x53u64 == 0x104d4d9bad9d3fc7u64
        && 0x509aa68802335f25u64 ^ 0x74u64 == 0x509aa68802335f51u64
        && 0x2a284a1bbd4af6a3u64 ^ 0x72u64 == 0x2a284a1bbd4af6d1u64
        && 0xed6cbe22a6616523u64 ^ 0x69u64 == 0xed6cbe22a661654au64
        && 0xd12c5ee0b77f1cbeu64 ^ 0x6eu64 == 0xd12c5ee0b77f1cd0u64
        && 0xed8207d7ccfdf570u64 ^ 0x67u64 == 0xed8207d7ccfdf517u64) by (bit_vector);
}

proof fn run_string()
    ensures
        fnv64_from(bytes_of_string(), BASIS) == 0x58b4_b3ec_d4eb_6238,
{
    let bs = bytes_of_string();
    xors_of_string();
    assert(bs.skip(0) =~= bs);
    step(bs, 0, 0x53, 0xcbf29ce484222325, 0xcbf29ce484222376, 0xcbf29ce5de, 0xaf640e4c86024182);
    step(bs, 1, 0x74, 0xaf640e4c86024182, 0xaf640e4c860241f6, 0xaf640e4db0, 0x09464207b5d61502);
    step(bs, 2, 0x72, 0x09464207b5d61502, 0x09464207b5d61570, 0x9464207c5, 0x9877a319fac66d50);
    step(bs, 3, 0x69, 0x9877a319fac66d50, 0x9877a319fac66d39, 0x9877a31afd, 0xd9b75e251f2b97db);
    step(bs, 4, 0x6e, 0xd9b75e251f2b97db, 0xd9b75e251f2b97b5, 0xd9b75e2691, 0x1e2cae13f712c88f);
    step(bs, 5, 0x67, 0x1e2cae13f712c88f, 0x1e2cae13f712c8e8, 0x1e2cae142a, 0x58b4b3ecd4eb6238);
    assert(bs.skip(6) =~= Seq::empty());
}

proof fn run_array_string()
    ensures
        fnv64_from(bytes_of_string(), ARRAY_BASIS) == 0x91e8_6ab1_5387_7615,
{
    let bs = bytes_of_string();
    xors_of_string();
    assert(bs.skip(0) =~= bs);
    step(bs, 0, 0x53, 0x104d4d9bad9d3f94, 0x104d4d9bad9d3fc7, 0x104d4d9bc9, 0x509aa68802335f25);
    step(bs, 1, 0x74, 0x509aa68802335f25, 0x509aa68802335f51, 0x509aa6888b, 0x2a284a1bbd4af6a3);
    step(bs, 2, 0x72, 0x2a284a1bbd4af6a3, 0x2a284a1bbd4af6d1, 0x2a284a1c04, 0xed6cbe22a6616523);
    step(bs, 3, 0x69, 0xed6cbe22a6616523, 0xed6cbe22a661654a, 0xed6cbe2439, 0xd12c5ee0b77f1cbe);
    step(bs, 4, 0x6e, 0xd12c5ee0b77f1cbe, 0xd12c5ee0b77f1cd0, 0xd12c5ee21a, 0xed8207d7ccfdf570);
    step(bs, 5, 0x67, 0xed8207d7ccfdf570, 0xed8207d7ccfdf517, 0xed8207d960, 0x91e86ab153877615);
    assert(bs.skip(6) =~= Seq::empty());
}

proof fn hash_of_string()
    ensures
        type_hash_at(2) == 0x58b4_b3ec_d4eb_6238,
        type_hash_at(3) == 0x91e8_6ab1_5387_7615,
{
    reveal_strlit("String");
    let bs = bytes_of_string();
    lemma_ascii("String"@, bs);
    lemma_array_of("String"@, bs);
    run_string();
    run_array_string();
}

spec fn bytes_of_tweakdbid() -> Seq<u8> {
    seq![0x54u8, 0x77u8, 0x65u8, 0x61u8, 0x6bu8, 0x44u8, 0x42u8, 0x49u8, 0x44u8]
}

proof fn xors_of_tweakdbid()
    ensures
        0xcbf29ce484222325u64 ^ 0x54u64 == 0xcbf29ce484222371u64,
        0xaf64094c86023903u64 ^ 0x77u64 == 0xaf64094c86023974u64,
        0x09354107b5c7a01cu64 ^ 0x65u64 == 0x09354107b5c7a079u64,
        0x6d1df919e235ad9bu64 ^ 0x61u64 == 0x6d1df919e235adfau64,
        0x9f9c40fb61369fceu64 ^ 0x6bu64 == 0x9f9c40fb61369fa5u64,
        0x6d2210262fd1455fu64 ^ 0x44u64 == 0x6d2210262fd1451bu64,
        0x42268be340986ce1u64 ^ 0x42u64 == 0x42268be340986ca3u64,
        0xffec5626c30098f9u64 ^ 0x49u64 == 0xffec5626c30098b0u64,
        0xdf2f13dd5a037310u64 ^ 0x44u64 == 0xdf2f13dd5a037354u64,
        0x104d4d9bad9d3f94u64 ^ 0x54u64 == 0x104d4d9bad9d3fc0u64,
        0x509a9f8802335340u64 ^ 0x77u64 == 0x509a9f8802335337u64,
        0x2a104b1bbd366675u64 ^ 0x65u64 == 0x2a104b1bbd366610u64,
        0xb015b022836f6d30u64 ^ 0x61u64 == 0xb015b022836f6d51u64,
        0xa4479ba55656c0a3u64 ^ 0x6bu64 == 0xa4479ba55656c0c8u64,
        0x7c6e41f1b56993d8u64 ^ 0x44u64 == 0x7c6e41f1b569939cu64,
        0xd8eda9b74265d214u64 ^ 0x42u64 == 0xd8eda9b74265d256u64,
        0x01a9b865d3046822u64 ^ 0x49u64 == 0x01a9b865d304686bu64,
        0xd7ccc005907d6dd1u64 ^ 0x44u64 == 0xd7ccc005907d6d95u64,
{
    assert(0xcbf29ce484222325u64 ^ 0x54u64 == 0xcbf29ce484222371u64
        && 0xaf64094c86023903u64 ^ 0x77u64 == 0xaf64094c86023974u64
        && 0x09354107b5c7a01cu64 ^ 0x65u64 == 0x09354107b5c7a079u64
        && 0x6d1df919e235ad9bu64 ^ 0x61u64 == 0x6d1df919e235adfau64
        && 0x9f9c40fb61369fceu64 ^ 0x6bu64 == 0x9f9c40fb61369fa5u64
        && 0x6d2210262fd1455fu64 ^ 0x44u64 == 0x6d2210262fd1451bu64
        && 0x42268be340986ce1u64 ^ 0x42u64 == 0x42268be340986ca3u64
        && 0xffec5626c30098f9u64 ^ 0x49u64 == 0xffec5626c30098b0u64
        && 0xdf2f13dd5a037310u64 ^ 0x44u64 == 0xdf2f13dd5a037354u64
        && 0x104d4d9bad9d3f94u64 ^ 0x54u64 == 0x104d4d9bad9d3fc0u64
        && 0x509a9f8802335340u64 ^ 0x77u64 == 0x509a9f8802335337u64
        && 0x2a104b1bbd366675u64 ^ 0x65u64 == 0x2a104b1bbd366610u64
        && 0xb015b022836f6d30u64 ^ 0x61u64 == 0xb015b022836f6d51u64
        && 0xa4479ba55656c0a3u64 ^ 0x6bu64 == 0xa4479ba55656c0c8u64
        && 0x7c6e41f1b56993d8u64 ^ 0x44u64 == 0x7c6e41f1b569939cu64
        && 0xd8eda9b74265d214u64 ^ 0x42u64 == 0xd8eda9b74265d256u64
        && 0x01a9b865d3046822u64 ^ 0x49u64 == 0x01a9b865d304686bu64
        && 0xd7ccc005907d6dd1u64 ^ 0x44u64 == 0xd7ccc005907d6d95u64) by (bit_vector);
}

proof fn run_tweakdbid()
    ensures
        fnv64_from(bytes_of_tweakdbid(), BASIS) == 0x4072_151f_f3dc_f7bc,
{
    let bs = bytes_of_tweakdbid();
    xors_of_tweakdbid();
    assert(bs.skip(0) =~= bs);
    step(bs, 0, 0x54, 0xcbf29ce484222325, 0xcbf29ce484222371, 0xcbf29ce5de, 0xaf64094c86023903);
    step(bs, 1, 0x77, 0xaf64094c86023903, 0xaf64094c86023974, 0xaf64094db0, 0x09354107b5c7a01c);
    step(bs, 2, 0x65, 0x09354107b5c7a01c, 0x09354107b5c7a079, 0x9354107c5, 0x6d1df919e235ad9b);
    step(bs, 3, 0x61, 0x6d1df919e235ad9b, 0x6d1df919e235adfa, 0x6d1df91a9b, 0x9f9c40fb61369fce);
    step(bs, 4, 0x6b, 0x9f9c40fb61369fce, 0x9f9c40fb61369fa5, 0x9f9c40fc70, 0x6d2210262fd1455f);
    step(bs, 5, 0x44, 0x6d2210262fd1455f, 0x6d2210262fd1451b, 0x6d221026e9, 0x42268be340986ce1);
    step(bs, 6, 0x42, 0x42268be340986ce1, 0x42268be340986ca3, 0x42268be3b0, 0xffec5626c30098f9);
    step(bs, 7, 0x49, 0xffec5626c30098f9, 0xffec5626c30098b0, 0xffec562875, 0xdf2f13dd5a037310);
    step(bs, 8, 0x44, 0xdf2f13dd5a037310, 0xdf2f13dd5a037354, 0xdf2f13ded5, 0x4072151ff3dcf7bc);
    assert(bs.skip(9) =~= Seq::empty());
}

proof fn run_array_tweakdbid()
    ensures
        fnv64_from(bytes_of_tweakdbid(), ARRAY_BASIS) == 0x2e57_de74_8521_342f,
{
    let bs = bytes_of_tweakdbid();
    xors_of_tweakdbid();
    assert(bs.skip(0) =~= bs);
    step(bs, 0, 0x54, 0x104d4d9bad9d3f94, 0x104d4d9bad9d3fc0, 0x104d4d9bc9, 0x509a9f8802335340);
    step(bs, 1, 0x77, 0x509a9f8802335340, 0x509a9f8802335337, 0x509a9f888b, 0x2a104b1bbd366675);
    step(bs, 2, 0x65, 0x2a104b1bbd366675, 0x2a104b1bbd366610, 0x2a104b1c04, 0xb015b022836f6d30);
    step(bs, 3, 0x61, 0xb015b022836f6d30, 0xb015b022836f6d51, 0xb015b023ae, 0xa4479ba55656c0a3);
    step(bs, 4, 0x6b, 0xa4479ba55656c0a3, 0xa4479ba55656c0c8, 0xa4479ba66d, 0x7c6e41f1b56993d8);
    step(bs, 5, 0x44, 0x7c6e41f1b56993d8, 0x7c6e41f1b569939c, 0x7c6e41f288, 0xd8eda9b74265d214);
    step(bs, 6, 0x42, 0xd8eda9b74265d214, 0xd8eda9b74265d256, 0xd8eda9b8b3, 0x01a9b865d3046822);
    step(bs, 7, 0x49, 0x01a9b865d3046822, 0x01a9b865d304686b, 0x1a9b865d5, 0xd7ccc005907d6dd1);
    step(bs, 8, 0x44, 0xd7ccc005907d6dd1, 0xd7ccc005907d6d95, 0xd7ccc006ff, 0x2e57de748521342f);
    assert(bs.skip(9) =~= Seq::empty());
}

proof fn hash_of_tweakdbid()
    ensures
        type_hash_at(4) == 0x4072_151f_f3dc_f7bc,
        type_hash_at(5) == 0x2e57_de74_8521_342f,
{
    reveal_strlit("TweakDBID");
    let bs = bytes_of_tweakdbid();
    lemma_ascii("TweakDBID"@, bs);
    lemma_array_of("TweakDBID"@, bs);
    run_tweakdbid();
    run_array_tweakdbid();
}

spec fn bytes_of_raref_cresource() -> Seq<u8> {
    seq![0x72u8, 0x61u8, 0x52u8, 0x65u8, 0x66u8, 0x3au8, 0x43u8, 0x52u8, 0x65u8, 0x73u8, 0x6fu8, 0x75u8, 0x72u8, 0x63u8, 0x65u8]
}

proof fn xors_of_raref_cresource()
    ensures
        0xcbf29ce484222325u64 ^ 0x72u64 == 0xcbf29ce484222357u64,
        0xaf63ef4c86020cd5u64 ^ 0x61u64 == 0xaf63ef4c86020cb4u64,
        0x08dc5307b57b95dcu64 ^ 0x52u64 == 0x08dc5307b57b958eu64,
        0x89f6a41960ff204au64 ^ 0x65u64 == 0x89f6a41960ff202fu64,
        0x6d39061fd183afddu64 ^ 0x66u64 == 0x6d39061fd183afbbu64,
        0x1b95231102c39ac1u64 ^ 0x3au64 == 0x1b95231102c39afbu64,
        0xa20590e7b2605881u64 ^ 0x43u64 == 0xa20590e7b26058c2u64,
        0xafcdfbb419b6d1a6u64 ^ 0x52u64 == 0xafcdfbb419b6d1f4u64,
        0x71d4a707b1a6c19cu64 ^ 0x65u64 == 0x71d4a707b1a6c1f9u64,
        0x1319cb12de5b9a1bu64 ^ 0x73u64 == 0x1319cb12de5b9a68u64,
        0xd06e790fd5a75eb8u64 ^ 0x6fu64 == 0xd06e790fd5a75ed7u64,
        0xd3168ce80b662755u64 ^ 0x75u64 == 0xd3168ce80b662720u64,
        0x15788e4b5e947b60u64 ^ 0x72u64 == 0x15788e4b5e947b12u64,
        0x1054dc11b64d1f96u64 ^ 0x63u64 == 0x1054dc11b64d1ff5u64,
        0x0d51e718c50d4d4fu64 ^ 0x65u64 == 0x0d51e718c50d4d2au64,
        0x104d4d9bad9d3f94u64 ^ 0x72u64 == 0x104d4d9bad9d3fe6u64,
        0x509ac588023393d2u64 ^ 0x61u64 == 0x509ac588023393b3u64,
        0x2a91591bbda3f929u64 ^ 0x52u64 == 0x2a91591bbda3f97bu64,
        0xf8f3e5233da0ec01u64 ^ 0x65u64 == 0xf8f3e5233da0ec64u64,
        0xa75abee1b871adecu64 ^ 0x66u64 == 0xa75abee1b871ad8au64,
        0xd0dfe38c6929e17eu64 ^ 0x3au64 == 0xd0dfe38c6929e144u64,
        0x1650eb96b229c68cu64 ^ 0x43u64 == 0x1650eb96b229c6cfu64,
        0x15472010bcfcd1bdu64 ^ 0x52u64 == 0x15472010bcfcd1efu64,
        0x24ad6b712198b91du64 ^ 0x65u64 == 0x24ad6b712198b978u64,
        0xeb67093c168326e8u64 ^ 0x73u64 == 0xeb67093c1683269bu64,
        0x833b4c1a40da9961u64 ^ 0x6fu64 == 0x833b4c1a40da990eu64,
        0xd85b5e9c337212cau64 ^ 0x75u64 == 0xd85b5e9c337212bfu64,
        0x1554826b6ad5da8du64 ^ 0x72u64 == 0x1554826b6ad5daffu64,
        0x14749b8689631f4du64 ^ 0x63u64 == 0x14749b8689631f2eu64,
        0x2543739b736dfb2au64 ^ 0x65u64 == 0x2543739b736dfb4fu64,
{
    assert(0xcbf29ce484222325u64 ^ 0x72u64 == 0xcbf29ce484222357u64
        && 0xaf63ef4c86020cd5u64 ^ 0x61u64 == 0xaf63ef4c86020cb4u64
        && 0x08dc5307b57b95dcu64 ^ 0x52u64 == 0x08dc5307b57b958eu64
        && 0x89f6a41960ff204au64 ^ 0x65u64 == 0x89f6a41960ff202fu64
        && 0x6d39061fd183afddu64 ^ 0x66u64 == 0x6d39061fd183afbbu64
        && 0x1b95231102c39ac1u64 ^ 0x3au64 == 0x1b95231102c39afbu64
        && 0xa20590e7b2605881u64 ^ 0x43u64 == 0xa20590e7b26058c2u64
        && 0xafcdfbb419b6d1a6u64 ^ 0x52u64 == 0xafcdfbb419b6d1f4u64
        && 0x71d4a707b1a6c19cu64 ^ 0x65u64 == 0x71d4a707b1a6c1f9u64
        && 0x1319cb12de5b9a1bu64 ^ 0x73u64 == 0x1319cb12de5b9a68u64
        && 0xd06e790fd5a75eb8u64 ^ 0x6fu64 == 0xd06e790fd5a75ed7u64
        && 0xd3168ce80b662755u64 ^ 0x75u64 == 0xd3168ce80b662720u64
        && 0x15788e4b5e947b60u64 ^ 0x72u64 == 0x15788e4b5e947b12u64
        && 0x1054dc11b64d1f96u64 ^ 0x63u64 == 0x1054dc11b64d1ff5u64
        && 0x0d51e718c50d4d4fu64 ^ 0x65u64 == 0x0d51e718c50d4d2au64
        && 0x104d4d9bad9d3f94u64 ^ 0x72u64 == 0x104d4d9bad9d3fe6u64
        && 0x509ac588023393d2u64 ^ 0x61u64 == 0x509ac588023393b3u64
        && 0x2a91591bbda3f929u64 ^ 0x52u64 == 0x2a91591bbda3f97bu64
        && 0xf8f3e5233da0ec01u64 ^ 0x65u64 == 0xf8f3e5233da0ec64u64
        && 0xa75abee1b871adecu64 ^ 0x66u64 == 0xa75abee1b871ad8au64
        && 0xd0dfe38c6929e17eu64 ^ 0x3au64 == 0xd0dfe38c6929e144u64
        && 0x1650eb96b229c68cu64 ^ 0x43u64 == 0x1650eb96b229c6cfu64
        && 0x15472010bcfcd1bdu64 ^ 0x52u64 == 0x15472010bcfcd1efu64
        && 0x24ad6b712198b91du64 ^ 0x65u64 == 0x24ad6b712198b978u64
        && 0xeb67093c168326e8u64 ^ 0x73u64 == 0xeb67093c1683269bu64
        && 0x833b4c1a40da9961u64 ^ 0x6fu64 == 0x833b4c1a40da990eu64
        && 0xd85b5e9c337212cau64 ^ 0x75u64 == 0xd85b5e9c337212bfu64
        && 0x1554826b6ad5da8du64 ^ 0x72u64 == 0x1554826b6ad5daffu64
        && 0x14749b8689631f4du64 ^ 0x63u64 == 0x14749b8689631f2eu64
        && 0x2543739b736dfb2au64 ^ 0x65u64 == 0x2543739b736dfb4fu64) by (bit_vector);
}

proof fn run_raref_cresource()
    ensures
        fnv64_from(bytes_of_raref_cresource(), BASIS) == 0xaf78_d916_d59a_1e5e,
{
    let bs = bytes_of_raref_cresource();
    xors_of_raref_cresource();
    assert(bs.skip(0) =~= bs);
    step(bs, 0, 0x72, 0xcbf29ce484222325, 0xcbf29ce484222357, 0xcbf29ce5de, 0xaf63ef4c86020cd5);
    step(bs, 1, 0x61, 0xaf63ef4c86020cd5, 0xaf63ef4c86020cb4, 0xaf63ef4db0, 0x08dc5307b57b95dc);
    step(bs, 2, 0x52, 0x08dc5307b57b95dc, 0x08dc5307b57b958e, 0x8dc5307c4, 0x89f6a41960ff204a);
    step(bs, 3, 0x65, 0x89f6a41960ff204a, 0x89f6a41960ff202f, 0x89f6a41a4b, 0x6d39061fd183afdd);
    step(bs, 4, 0x66, 0x6d39061fd183afdd, 0x6d39061fd183afbb, 0x6d3906208b, 0x1b95231102c39ac1);
    step(bs, 5, 0x3a, 0x1b95231102c39ac1, 0x1b95231102c39afb, 0x1b95231131, 0xa20590e7b2605881);
    step(bs, 6, 0x43, 0xa20590e7b2605881, 0xa20590e7b26058c2, 0xa20590e8c5, 0xafcdfbb419b6d1a6);
    step(bs, 7, 0x52, 0xafcdfbb419b6d1a6, 0xafcdfbb419b6d1f4, 0xafcdfbb544, 0x71d4a707b1a6c19c);
    step(bs, 8, 0x65, 0x71d4a707b1a6c19c, 0x71d4a707b1a6c1f9, 0x71d4a70873, 0x1319cb12de5b9a1b);
    step(bs, 9, 0x73, 0x1319cb12de5b9a1b, 0x1319cb12de5b9a68, 0x1319cb12fe, 0xd06e790fd5a75eb8);
    step(bs, 10, 0x6f, 0xd06e790fd5a75eb8, 0xd06e790fd5a75ed7, 0xd06e791137, 0xd3168ce80b662755);
    step(bs, 11, 0x75, 0xd3168ce80b662755, 0xd3168ce80b662720, 0xd3168ce972, 0x15788e4b5e947b60);
    step(bs, 12, 0x72, 0x15788e4b5e947b60, 0x15788e4b5e947b12, 0x15788e4b83, 0x1054dc11b64d1f96);
    step(bs, 13, 0x63, 0x1054dc11b64d1f96, 0x1054dc11b64d1ff5, 0x1054dc11d2, 0x0d51e718c50d4d4f);
    step(bs, 14, 0x65, 0x0d51e718c50d4d4f, 0x0d51e718c50d4d2a, 0xd51e718db, 0xaf78d916d59a1e5e);
    assert(bs.skip(15) =~= Seq::empty());
}

proof fn run_array_raref_cresource()
    ensures
        fnv64_from(bytes_of_raref_cresource(), ARRAY_BASIS) == 0xbf98_c025_23e2_073d,
{
    let bs = bytes_of_raref_cresource();
    xors_of_raref_cresource();
    assert(bs.skip(0) =~= bs);
    step(bs, 0, 0x72, 0x104d4d9bad9d3f94, 0x104d4d9bad9d3fe6, 0x104d4d9bc9, 0x509ac588023393d2);
    step(bs, 1, 0x61, 0x509ac588023393d2, 0x509ac588023393b3, 0x509ac5888b, 0x2a91591bbda3f929);
    step(bs, 2, 0x52, 0x2a91591bbda3f929, 0x2a91591bbda3f97b, 0x2a91591c05, 0xf8f3e5233da0ec01);
    step(bs, 3, 0x65, 0xf8f3e5233da0ec01, 0xf8f3e5233da0ec64, 0xf8f3e524e4, 0xa75abee1b871adec);
    step(bs, 4, 0x66, 0xa75abee1b871adec, 0xa75abee1b871ad8a, 0xa75abee2d4, 0xd0dfe38c6929e17e);
    step(bs, 5, 0x3a, 0xd0dfe38c6929e17e, 0xd0dfe38c6929e144, 0xd0dfe38dcc, 0x1650eb96b229c68c);
    step(bs, 6, 0x43, 0x1650eb96b229c68c, 0x1650eb96b229c6cf, 0x1650eb96d8, 0x15472010bcfcd1bd);
    step(bs, 7, 0x52, 0x15472010bcfcd1bd, 0x15472010bcfcd1ef, 0x15472010e1, 0x24ad6b712198b91d);
    step(bs, 8, 0x65, 0x24ad6b712198b91d, 0x24ad6b712198b978, 0x24ad6b715f, 0xeb67093c168326e8);
    step(bs, 9, 0x73, 0xeb67093c168326e8, 0xeb67093c1683269b, 0xeb67093da6, 0x833b4c1a40da9961);
    step(bs, 10, 0x6f, 0x833b4c1a40da9961, 0x833b4c1a40da990e, 0x833b4c1b1f, 0xd85b5e9c337212ca);
    step(bs, 11, 0x75, 0xd85b5e9c337212ca, 0xd85b5e9c337212bf, 0xd85b5e9da3, 0x1554826b6ad5da8d);
    step(bs, 12, 0x72, 0x1554826b6ad5da8d, 0x1554826b6ad5daff, 0x1554826b8f, 0x14749b8689631f4d);
    step(bs, 13, 0x63, 0x14749b8689631f4d, 0x14749b8689631f2e, 0x14749b86ac, 0x2543739b736dfb2a);
    step(bs, 14, 0x65, 0x2543739b736dfb2a, 0x2543739b736dfb4f, 0x2543739bb2, 0xbf98c02523e2073d);
    assert(bs.skip(15) =~= Seq::empty());
}

proof fn hash_of_raref_cresource()
    ensures
        type_hash_at(6) == 0xaf78_d916_d59a_1e5e,
        type_hash_at(7) == 0xbf98_c025_23e2_073d,
{
    reveal_strlit("raRef:CResource");
    let bs = bytes_of_raref_cresource();
    lemma_ascii("raRef:CResource"@, bs);
    lemma_array_of("raRef:CResource"@, bs);
    run_raref_cresource();
    run_array_raref_cresource();
}

spec fn bytes_of_float() -> Seq<u8> {
    seq![0x46u8, 0x6cu8, 0x6fu8, 0x61u8, 0x74u8]
}

proof fn xors_of_float()
    ensures
        0xcbf29ce484222325u64 ^ 0x46u64 == 0xcbf29ce484222363u64,
        0xaf63fb4c86022139u64 ^ 0x6cu64 == 0xaf63fb4c86022155u64,
        0x09055807b59ea36fu64 ^ 0x6fu64 == 0x09055807b59ea300u64,
        0xf2b795199c8ef900u64 ^ 0x61u64 == 0xf2b795199c8ef961u64,
        0xfcebbb8506f1bfd3u64 ^ 0x74u64 == 0xfcebbb8506f1bfa7u64,
        0x104d4d9bad9d3f94u64 ^ 0x46u64 == 0x104d4d9bad9d3fd2u64,
        0x509ab188023371d6u64 ^ 0x6cu64 == 0x509ab188023371bau64,
        0x2a4d641bbd6a3f0eu64 ^ 0x6fu64 == 0x2a4d641bbd6a3f61u64,
        0x4bc07c22db89b1d3u64 ^ 0x61u64 == 0x4bc07c22db89b1b2u64,
        0x41c4a13b0af8f176u64 ^ 0x74u64 == 0x41c4a13b0af8f102u64,
{
    assert(0xcbf29ce484222325u64 ^ 0x46u64 == 0xcbf29ce484222363u64
        && 0xaf63fb4c86022139u64 ^ 0x6cu64 == 0xaf63fb4c86022155u64
        && 0x09055807b59ea36fu64 ^ 0x6fu64 == 0x09055807b59ea300u64
        && 0xf2b795199c8ef900u64 ^ 0x61u64 == 0xf2b795199c8ef961u64
        && 0xfcebbb8506f1bfd3u64 ^ 0x74u64 == 0xfcebbb8506f1bfa7u64
        && 0x104d4d9bad9d3f94u64 ^ 0x46u64 == 0x104d4d9bad9d3fd2u64
        && 0x509ab188023371d6u64 ^ 0x6cu64 == 0x509ab188023371bau64
        && 0x2a4d641bbd6a3f0eu64 ^ 0x6fu64 == 0x2a4d641bbd6a3f61u64
        && 0x4bc07c22db89b1d3u64 ^ 0x61u64 == 0x4bc07c22db89b1b2u64
        && 0x41c4a13b0af8f176u64 ^ 0x74u64 == 0x41c4a13b0af8f102u64) by (bit_vector);
}

proof fn run_float()
    ensures
        fnv64_from(bytes_of_float(), BASIS) == 0xb64f_4a0a_ccc8_a8c5,
{
    let bs = bytes_of_float();
    xors_of_float();
    assert(bs.skip(0) =~= bs);
    step(bs, 0, 0x46, 0xcbf29ce484222325, 0xcbf29ce484222363, 0xcbf29ce5de, 0xaf63fb4c86022139);
    step(bs, 1, 0x6c, 0xaf63fb4c86022139, 0xaf63fb4c86022155, 0xaf63fb4db0, 0x09055807b59ea36f);
    step(bs, 2, 0x6f, 0x09055807b59ea36f, 0x09055807b59ea300, 0x9055807c4, 0xf2b795199c8ef900);
    step(bs, 3, 0x61, 0xf2b795199c8ef900, 0xf2b795199c8ef961, 0xf2b7951b38, 0xfcebbb8506f1bfd3);
    step(bs, 4, 0x74, 0xfcebbb8506f1bfd3, 0xfcebbb8506f1bfa7, 0xfcebbb86b4, 0xb64f4a0accc8a8c5);
    assert(bs.skip(5) =~= Seq::empty());
}

proof fn run_array_float()
    ensures
        fnv64_from(bytes_of_float(), ARRAY_BASIS) == 0xba0e_f953_a501_8666,
{
    let bs = bytes_of_float();
    xors_of_float();
    assert(bs.skip(0) =~= bs);
    step(bs, 0, 0x46, 0x104d4d9bad9d3f94, 0x104d4d9bad9d3fd2, 0x104d4d9bc9, 0x509ab188023371d6);
    step(bs, 1, 0x6c, 0x509ab188023371d6, 0x509ab188023371ba, 0x509ab1888b, 0x2a4d641bbd6a3f0e);
    step(bs, 2, 0x6f, 0x2a4d641bbd6a3f0e, 0x2a4d641bbd6a3f61, 0x2a4d641c05, 0x4bc07c22db89b1d3);
    step(bs, 3, 0x61, 0x4bc07c22db89b1d3, 0x4bc07c22db89b1b2, 0x4bc07c235c, 0x41c4a13b0af8f176);
    step(bs, 4, 0x74, 0x41c4a13b0af8f176, 0x41c4a13b0af8f102, 0x41c4a13b7a, 0xba0ef953a5018666);
    assert(bs.skip(5) =~= Seq::empty());
}

proof fn hash_of_float()
    ensures
        type_hash_at(8) == 0xb64f_4a0a_ccc8_a8c5,
        type_hash_at(9) == 0xba0e_f953_a501_8666,
{
    reveal_strlit("Float");
    let bs = bytes_of_float();
    lemma_ascii("Float"@, bs);
    lemma_array_of("Float"@, bs);
    run_float();
    run_array_float();
}

spec fn bytes_of_bool() -> Seq<u8> {
    seq![0x42u8, 0x6fu8, 0x6fu8, 0x6cu8]
}

proof fn xors_of_bool()
    ensures
        0xcbf29ce484222325u64 ^ 0x42u64 == 0xcbf29ce484222367u64,
        0xaf63ff4c86022805u64 ^ 0x6fu64 == 0xaf63ff4c8602286au64,
        0x09133907b5aaac1eu64 ^ 0x6fu64 == 0x09133907b5aaac71u64,
        0x16565919b1030403u64 ^ 0x6cu64 == 0x16565919b103046fu64,
        0x104d4d9bad9d3f94u64 ^ 0x42u64 == 0x104d4d9bad9d3fd6u64,
        0x509ab588023378a2u64 ^ 0x6fu64 == 0x509ab588023378cdu64,
        0x2a5b431bbd764457u64 ^ 0x6fu64 == 0x2a5b431bbd764438u64,
        0x6f574022eff5eb28u64 ^ 0x6cu64 == 0x6f574022eff5eb44u64,
{
    assert(0xcbf29ce484222325u64 ^ 0x42u64 == 0xcbf29ce484222367u64
        && 0xaf63ff4c86022805u64 ^ 0x6fu64 == 0xaf63ff4c8602286au64
        && 0x09133907b5aaac1eu64 ^ 0x6fu64 == 0x09133907b5aaac71u64
        && 0x16565919b1030403u64 ^ 0x6cu64 == 0x16565919b103046fu64
        && 0x104d4d9bad9d3f94u64 ^ 0x42u64 == 0x104d4d9bad9d3fd6u64
        && 0x509ab588023378a2u64 ^ 0x6fu64 == 0x509ab588023378cdu64
        && 0x2a5b431bbd764457u64 ^ 0x6fu64 == 0x2a5b431bbd764438u64
        && 0x6f574022eff5eb28u64 ^ 0x6cu64 == 0x6f574022eff5eb44u64) by (bit_vector);
}

proof fn run_bool()
    ensures
        fnv64_from(bytes_of_bool(), BASIS) == 0xf7bd_d5a7_c820_889d,
{
    let bs = bytes_of_bool();
    xors_of_bool();
    assert(bs.skip(0) =~= bs);
    step(bs, 0, 0x42, 0xcbf29ce484222325, 0xcbf29ce484222367, 0xcbf29ce5de, 0xaf63ff4c86022805);
    step(bs, 1, 0x6f, 0xaf63ff4c86022805, 0xaf63ff4c8602286a, 0xaf63ff4db0, 0x09133907b5aaac1e);
    step(bs, 2, 0x6f, 0x09133907b5aaac1e, 0x09133907b5aaac71, 0x9133907c5, 0x16565919b1030403);
    step(bs, 3, 0x6c, 0x16565919b1030403, 0x16565919b103046f, 0x16565919d6, 0xf7bdd5a7c820889d);
    assert(bs.skip(4) =~= Seq::empty());
}

proof fn run_array_bool()
    ensures
        fnv64_from(bytes_of_bool(), ARRAY_BASIS) == 0x272d_3f5d_bede_c48c,
{
    let bs = bytes_of_bool();
    xors_of_bool();
    assert(bs.skip(0) =~= bs);
    step(bs, 0, 0x42, 0x104d4d9bad9d3f94, 0x104d4d9bad9d3fd6, 0x104d4d9bc9, 0x509ab588023378a2);
    step(bs, 1, 0x6f, 0x509ab588023378a2, 0x509ab588023378cd, 0x509ab5888b, 0x2a5b431bbd764457);
    step(bs, 2, 0x6f, 0x2a5b431bbd764457, 0x2a5b431bbd764438, 0x2a5b431c05, 0x6f574022eff5eb28);
    step(bs, 3, 0x6c, 0x6f574022eff5eb28, 0x6f574022eff5eb44, 0x6f574023ad, 0x272d3f5dbedec48c);
    assert(bs.skip(4) =~= Seq::empty());
}

proof fn hash_of_bool()
    ensures
        type_hash_at(10) == 0xf7bd_d5a7_c820_889d,
        type_hash_at(11) == 0x272d_3f5d_bede_c48c,
{
    reveal_strlit("Bool");
    let bs = bytes_of_bool();
    lemma_ascii("Bool"@, bs);
    lemma_array_of("Bool"@, bs);
    run_bool();
    run_array_bool();
}

spec fn bytes_of_uint8() -> Seq<u8> {
    seq![0x55u8, 0x69u8, 0x6eu8, 0x74u8, 0x38u8]
}

proof fn xors_of_uint8()
    ensures
        0xcbf29ce484222325u64 ^ 0x55u64 == 0xcbf29ce484222370u64,
        0xaf64084c86023750u64 ^ 0x69u64 == 0xaf64084c86023739u64,
        0x09315307b5c3d5dbu64 ^ 0x6eu64 == 0x09315307b5c3d5b5u64,
        0x62a5cb19dbc4228fu64 ^ 0x74u64 == 0x62a5cb19dbc422fbu64,
        0x63db17f06e477081u64 ^ 0x38u64 == 0x63db17f06e4770b9u64,
        0x104d4d9bad9d3f94u64 ^ 0x55u64 == 0x104d4d9bad9d3fc1u64,
        0x509aa088023354f3u64 ^ 0x69u64 == 0x509aa0880233549au64,
        0x2a13611bbd38c1aeu64 ^ 0x6eu64 == 0x2a13611bbd38c1c0u64,
        0xb7afc22287713940u64 ^ 0x74u64 == 0xb7afc22287713934u64,
        0x90e014ac2564335cu64 ^ 0x38u64 == 0x90e014ac25643364u64,
{
    assert(0xcbf29ce484222325u64 ^ 0x55u64 == 0xcbf29ce484222370u64
        && 0xaf64084c86023750u64 ^ 0x69u64 == 0xaf64084c86023739u64
        && 0x09315307b5c3d5dbu64 ^ 0x6eu64 == 0x09315307b5c3d5b5u64
        && 0x62a5cb19dbc4228fu64 ^ 0x74u64 == 0x62a5cb19dbc422fbu64
        && 0x63db17f06e477081u64 ^ 0x38u64 == 0x63db17f06e4770b9u64
        && 0x104d4d9bad9d3f94u64 ^ 0x55u64 == 0x104d4d9bad9d3fc1u64
        && 0x509aa088023354f3u64 ^ 0x69u64 == 0x509aa0880233549au64
        && 0x2a13611bbd38c1aeu64 ^ 0x6eu64 == 0x2a13611bbd38c1c0u64
        && 0xb7afc22287713940u64 ^ 0x74u64 == 0xb7afc22287713934u64
        && 0x90e014ac2564335cu64 ^ 0x38u64 == 0x90e014ac25643364u64) by (bit_vector);
}

proof fn run_uint8()
    ensures
        fnv64_from(bytes_of_uint8(), BASIS) == 0xf4ba_668b_6364_8a5b,
{
    let bs = bytes_of_uint8();
    xors_of_uint8();
    assert(bs.skip(0) =~= bs);
    step(bs, 0, 0x55, 0xcbf29ce484222325, 0xcbf29ce484222370, 0xcbf29ce5de, 0xaf64084c86023750);
    step(bs, 1, 0x69, 0xaf64084c86023750, 0xaf64084c86023739, 0xaf64084db0, 0x09315307b5c3d5db);
    step(bs, 2, 0x6e, 0x09315307b5c3d5db, 0x09315307b5c3d5b5, 0x9315307c5, 0x62a5cb19dbc4228f);
    step(bs, 3, 0x74, 0x62a5cb19dbc4228f, 0x62a5cb19dbc422fb, 0x62a5cb1a83, 0x63db17f06e477081);
    step(bs, 4, 0x38, 0x63db17f06e477081, 0x63db17f06e4770b9, 0x63db17f117, 0xf4ba668b63648a5b);
    assert(bs.skip(5) =~= Seq::empty());
}

proof fn run_array_uint8()
    ensures
        fnv64_from(bytes_of_uint8(), ARRAY_BASIS) == 0x90f6_8483_8943_52ec,
{
    let bs = bytes_of_uint8();
    xors_of_uint8();
    assert(bs.skip(0) =~= bs);
    step(bs, 0, 0x55, 0x104d4d9bad9d3f94, 0x104d4d9bad9d3fc1, 0x104d4d9bc9, 0x509aa088023354f3);
    step(bs, 1, 0x69, 0x509aa088023354f3, 0x509aa0880233549a, 0x509aa0888b, 0x2a13611bbd38c1ae);
    step(bs, 2, 0x6e, 0x2a13611bbd38c1ae, 0x2a13611bbd38c1c0, 0x2a13611c04, 0xb7afc22287713940);
    step(bs, 3, 0x74, 0xb7afc22287713940, 0xb7afc22287713934, 0xb7afc223bf, 0x90e014ac2564335c);
    step(bs, 4, 0x38, 0x90e014ac2564335c, 0x90e014ac25643364, 0x90e014ad1b, 0x90f68483894352ec);
    assert(bs.skip(5) =~= Seq::empty());
}

proof fn hash_of_uint8()
    ensures
        type_hash_at(12) == 0xf4ba_668b_6364_8a5b,
        type_hash_at(13) == 0x90f6_8483_8943_52ec,
{
    reveal_strlit("Uint8");
    let bs = bytes_of_uint8();
    lemma_ascii("Uint8"@, bs);
    lemma_array_of("Uint8"@, bs);
    run_uint8();
    run_array_uint8();
}

spec fn bytes_of_uint16() -> Seq<u8> {
    seq![0x55u8, 0x69u8, 0x6eu8, 0x74u8, 0x31u8, 0x36u8]
}

proof fn xors_of_uint16()
    ensures
        0xcbf29ce484222325u64 ^ 0x55u64 == 0xcbf29ce484222370u64,
        0xaf64084c86023750u64 ^ 0x69u64 == 0xaf64084c86023739u64,
        0x09315307b5c3d5dbu64 ^ 0x6eu64 == 0x09315307b5c3d5b5u64,
        0x62a5cb19dbc4228fu64 ^ 0x74u64 == 0x62a5cb19dbc422fbu64,
        0x63db17f06e477081u64 ^ 0x31u64 == 0x63db17f06e4770b0u64,
        0xf4ba5d8b63647b10u64 ^ 0x36u64 == 0xf4ba5d8b63647b26u64,
        0x104d4d9bad9d3f94u64 ^ 0x55u64 == 0x104d4d9bad9d3fc1u64,
        0x509aa088023354f3u64 ^ 0x69u64 == 0x509aa0880233549au64,
        0x2a13611bbd38c1aeu64 ^ 0x6eu64 == 0x2a13611bbd38c1c0u64,
        0xb7afc22287713940u64 ^ 0x74u64 == 0xb7afc22287713934u64,
        0x90e014ac2564335cu64 ^ 0x31u64 == 0x90e014ac2564336du64,
        0x90f68d8389436237u64 ^ 0x36u64 == 0x90f68d8389436201u64,
{
    assert(0xcbf29ce484222325u64 ^ 0x55u64 == 0xcbf29ce484222370u64
        && 0xaf64084c86023750u64 ^ 0x69u64 == 0xaf64084c86023739u64
        && 0x09315307b5c3d5dbu64 ^ 0x6eu64 == 0x09315307b5c3d5b5u64
        && 0x62a5cb19dbc4228fu64 ^ 0x74u64 == 0x62a5cb19dbc422fbu64
        && 0x63db17f06e477081u64 ^ 0x31u64 == 0x63db17f06e4770b0u64
        && 0xf4ba5d8b63647b10u64 ^ 0x36u64 == 0xf4ba5d8b63647b26u64
        && 0x104d4d9bad9d3f94u64 ^ 0x55u64 == 0x104d4d9bad9d3fc1u64
        && 0x509aa088023354f3u64 ^ 0x69u64 == 0x509aa0880233549au64
        && 0x2a13611bbd38c1aeu64 ^ 0x6eu64 == 0x2a13611bbd38c1c0u64
        && 0xb7afc22287713940u64 ^ 0x74u64 == 0xb7afc22287713934u64
        && 0x90e014ac2564335cu64 ^ 0x31u64 == 0x90e014ac2564336du64
        && 0x90f68d8389436237u64 ^ 0x36u64 == 0x90f68d8389436201u64) by (bit_vector);
}

proof fn run_uint16()
    ensures
        fnv64_from(bytes_of_uint16(), BASIS) == 0x3d28_19d9_e3bd_4192,
{
    let bs = bytes_of_uint16();
    xors_of_uint16();
    assert(bs.skip(0) =~= bs);
    step(bs, 0, 0x55, 0xcbf29ce484222325, 0xcbf29ce484222370, 0xcbf29ce5de, 0xaf64084c86023750);
    step(bs, 1, 0x69, 0xaf64084c86023750, 0xaf64084c86023739, 0xaf64084db0, 0x09315307b5c3d5db);
    step(bs, 2, 0x6e, 0x09315307b5c3d5db, 0x09315307b5c3d5b5, 0x9315307c5, 0x62a5cb19dbc4228f);
    step(bs, 3, 0x74, 0x62a5cb19dbc4228f, 0x62a5cb19dbc422fb, 0x62a5cb1a83, 0x63db17f06e477081);
    step(bs, 4, 0x31, 0x63db17f06e477081, 0x63db17f06e4770b0, 0x63db17f117, 0xf4ba5d8b63647b10);
    step(bs, 5, 0x36, 0xf4ba5d8b63647b10, 0xf4ba5d8b63647b26, 0xf4ba5d8d03, 0x3d2819d9e3bd4192);
    assert(bs.skip(6) =~= Seq::empty());
}

proof fn run_array_uint16()
    ensures
        fnv64_from(bytes_of_uint16(), ARRAY_BASIS) == 0x9654_7782_3d7f_87b3,
{
    let bs = bytes_of_uint16();
    xors_of_uint16();
    assert(bs.skip(0) =~= bs);
    step(bs, 0, 0x55, 0x104d4d9bad9d3f94, 0x104d4d9bad9d3fc1, 0x104d4d9bc9, 0x509aa088023354f3);
    step(bs, 1, 0x69, 0x509aa088023354f3, 0x509aa0880233549a, 0x509aa0888b, 0x2a13611bbd38c1ae);
    step(bs, 2, 0x6e, 0x2a13611bbd38c1ae, 0x2a13611bbd38c1c0, 0x2a13611c04, 0xb7afc22287713940);
    step(bs, 3, 0x74, 0xb7afc22287713940, 0xb7afc22287713934, 0xb7afc223bf, 0x90e014ac2564335c);
    step(bs, 4, 0x31, 0x90e014ac2564335c, 0x90e014ac2564336d, 0x90e014ad1b, 0x90f68d8389436237);
    step(bs, 5, 0x36, 0x90f68d8389436237, 0x90f68d8389436201, 0x90f68d847f, 0x965477823d7f87b3);
    assert(bs.skip(6) =~= Seq::empty());
}

proof fn hash_of_uint16()
    ensures
        type_hash_at(14) == 0x3d28_19d9_e3bd_4192,
        type_hash_at(15) == 0x9654_7782_3d7f_87b3,
{
    reveal_strlit("Uint16");
    let bs = bytes_of_uint16();
    lemma_ascii("Uint16"@, bs);
    lemma_array_of("Uint16"@, bs);
    run_uint16();
    run_array_uint16();
}

spec fn bytes_of_uint32() -> Seq<u8> {
    seq![0x55u8, 0x69u8, 0x6eu8, 0x74u8, 0x33u8, 0x32u8]
}

proof fn xors_of_uint32()
    ensures
        0xcbf29ce484222325u64 ^ 0x55u64 == 0xcbf29ce484222370u64,
        0xaf64084c86023750u64 ^ 0x69u64 == 0xaf64084c86023739u64,
        0x09315307b5c3d5dbu64 ^ 0x6eu64 == 0x09315307b5c3d5b5u64,
        0x62a5cb19dbc4228fu64 ^ 0x74u64 == 0x62a5cb19dbc422fbu64,
        0x63db17f06e477081u64 ^ 0x33u64 == 0x63db17f06e4770b2u64,
        0xf4ba5f8b63647e76u64 ^ 0x32u64 == 0xf4ba5f8b63647e44u64,
        0x104d4d9bad9d3f94u64 ^ 0x55u64 == 0x104d4d9bad9d3fc1u64,
        0x509aa088023354f3u64 ^ 0x69u64 == 0x509aa0880233549au64,
        0x2a13611bbd38c1aeu64 ^ 0x6eu64 == 0x2a13611bbd38c1c0u64,
        0xb7afc22287713940u64 ^ 0x74u64 == 0xb7afc22287713934u64,
        0x90e014ac2564335cu64 ^ 0x33u64 == 0x90e014ac2564336fu64,
        0x90f68f838943659du64 ^ 0x32u64 == 0x90f68f83894365afu64,
{
    assert(0xcbf29ce484222325u64 ^ 0x55u64 == 0xcbf29ce484222370u64
        && 0xaf64084c86023750u64 ^ 0x69u64 == 0xaf64084c86023739u64
        && 0x09315307b5c3d5dbu64 ^ 0x6eu64 == 0x09315307b5c3d5b5u64
        && 0x62a5cb19dbc4228fu64 ^ 0x74u64 == 0x62a5cb19dbc422fbu64
        && 0x63db17f06e477081u64 ^ 0x33u64 == 0x63db17f06e4770b2u64
        && 0xf4ba5f8b63647e76u64 ^ 0x32u64 == 0xf4ba5f8b63647e44u64
        && 0x104d4d9bad9d3f94u64 ^ 0x55u64 == 0x104d4d9bad9d3fc1u64
        && 0x509aa088023354f3u64 ^ 0x69u64 == 0x509aa0880233549au64
        && 0x2a13611bbd38c1aeu64 ^ 0x6eu64 == 0x2a13611bbd38c1c0u64
        && 0xb7afc22287713940u64 ^ 0x74u64 == 0xb7afc22287713934u64
        && 0x90e014ac2564335cu64 ^ 0x33u64 == 0x90e014ac2564336fu64
        && 0x90f68f838943659du64 ^ 0x32u64 == 0x90f68f83894365afu64) by (bit_vector);
}

proof fn run_uint32()
    ensures
        fnv64_from(bytes_of_uint32(), BASIS) == 0x3d2e_9dd9_e3c2_8d8c,
{
    let bs = bytes_of_uint32();
    xors_of_uint32();
    assert(bs.skip(0) =~= bs);
    step(bs, 0, 0x55, 0xcbf29ce484222325, 0xcbf29ce484222370, 0xcbf29ce5de, 0xaf64084c86023750);
    step(bs, 1, 0x69, 0xaf64084c86023750, 0xaf64084c86023739, 0xaf64084db0, 0x09315307b5c3d5db);
    step(bs, 2, 0x6e, 0x09315307b5c3d5db, 0x09315307b5c3d5b5, 0x9315307c5, 0x62a5cb19dbc4228f);
    step(bs, 3, 0x74, 0x62a5cb19dbc4228f, 0x62a5cb19dbc422fb, 0x62a5cb1a83, 0x63db17f06e477081);
    step(bs, 4, 0x33, 0x63db17f06e477081, 0x63db17f06e4770b2, 0x63db17f117, 0xf4ba5f8b63647e76);
    step(bs, 5, 0x32, 0xf4ba5f8b63647e76, 0xf4ba5f8b63647e44, 0xf4ba5f8d03, 0x3d2e9dd9e3c28d8c);
    assert(bs.skip(6) =~= Seq::empty());
}

proof fn run_array_uint32()
    ensures
        fnv64_from(bytes_of_uint32(), ARRAY_BASIS) == 0x965b_8b82_3d85_c85d,
{
    let bs = bytes_of_uint32();
    xors_of_uint32();
    assert(bs.skip(0) =~= bs);
    step(bs, 0, 0x55, 0x104d4d9bad9d3f94, 0x104d4d9bad9d3fc1, 0x104d4d9bc9, 0x509aa088023354f3);
    step(bs, 1, 0x69, 0x509aa088023354f3, 0x509aa0880233549a, 0x509aa0888b, 0x2a13611bbd38c1ae);
    step(bs, 2, 0x6e, 0x2a13611bbd38c1ae, 0x2a13611bbd38c1c0, 0x2a13611c04, 0xb7afc22287713940);
    step(bs, 3, 0x74, 0xb7afc22287713940, 0xb7afc22287713934, 0xb7afc223bf, 0x90e014ac2564335c);
    step(bs, 4, 0x33, 0x90e014ac2564335c, 0x90e014ac2564336f, 0x90e014ad1b, 0x90f68f838943659d);
    step(bs, 5, 0x32, 0x90f68f838943659d, 0x90f68f83894365af, 0x90f68f847f, 0x965b8b823d85c85d);
    assert(bs.skip(6) =~= Seq::empty());
}

proof fn hash_of_uint32()
    ensures
        type_hash_at(16) == 0x3d2e_9dd9_e3c2_8d8c,
        type_hash_at(17) == 0x965b_8b82_3d85_c85d,
{
    reveal_strlit("Uint32");
    let bs = bytes_of_uint32();
    lemma_ascii("Uint32"@, bs);
    lemma_array_of("Uint32"@, bs);
    run_uint32();
    run_array_uint32();
}

spec fn bytes_of_uint64() -> Seq<u8> {
    seq![0x55u8, 0x69u8, 0x6eu8, 0x74u8, 0x36u8, 0x34u8]
}

proof fn xors_of_uint64()
    ensures
        0xcbf29ce484222325u64 ^ 0x55u64 == 0xcbf29ce484222370u64,
        0xaf64084c86023750u64 ^ 0x69u64 == 0xaf64084c86023739u64,
        0x09315307b5c3d5dbu64 ^ 0x6eu64 == 0x09315307b5c3d5b5u64,
        0x62a5cb19dbc4228fu64 ^ 0x74u64 == 0x62a5cb19dbc422fbu64,
        0x63db17f06e477081u64 ^ 0x36u64 == 0x63db17f06e4770b7u64,
        0xf4ba648b636486f5u64 ^ 0x34u64 == 0xf4ba648b636486c1u64,
        0x104d4d9bad9d3f94u64 ^ 0x55u64 == 0x104d4d9bad9d3fc1u64,
        0x509aa088023354f3u64 ^ 0x69u64 == 0x509aa0880233549au64,
        0x2a13611bbd38c1aeu64 ^ 0x6eu64 == 0x2a13611bbd38c1c0u64,
        0xb7afc22287713940u64 ^ 0x74u64 == 0xb7afc22287713934u64,
        0x90e014ac2564335cu64 ^ 0x36u64 == 0x90e014ac2564336au64,
        0x90f68a8389435d1eu64 ^ 0x34u64 == 0x90f68a8389435d2au64,
{
    assert(0xcbf29ce484222325u64 ^ 0x55u64 == 0xcbf29ce484222370u64
        && 0xaf64084c86023750u64 ^ 0x69u64 == 0xaf64084c86023739u64
        && 0x09315307b5c3d5dbu64 ^ 0x6eu64 == 0x09315307b5c3d5b5u64
        && 0x62a5cb19dbc4228fu64 ^ 0x74u64 == 0x62a5cb19dbc422fbu64
        && 0x63db17f06e477081u64 ^ 0x36u64 == 0x63db17f06e4770b7u64
        && 0xf4ba648b636486f5u64 ^ 0x34u64 == 0xf4ba648b636486c1u64
        && 0x104d4d9bad9d3f94u64 ^ 0x55u64 == 0x104d4d9bad9d3fc1u64
        && 0x509aa088023354f3u64 ^ 0x69u64 == 0x509aa0880233549au64
        && 0x2a13611bbd38c1aeu64 ^ 0x6eu64 == 0x2a13611bbd38c1c0u64
        && 0xb7afc22287713940u64 ^ 0x74u64 == 0xb7afc22287713934u64
        && 0x90e014ac2564335cu64 ^ 0x36u64 == 0x90e014ac2564336au64
        && 0x90f68a8389435d1eu64 ^ 0x34u64 == 0x90f68a8389435d2au64) by (bit_vector);
}

proof fn run_uint64()
    ensures
        fnv64_from(bytes_of_uint64(), BASIS) == 0x3d3f_99d9_e3d0_f9f3,
{
    let bs = bytes_of_uint64();
    xors_of_uint64();
    assert(bs.skip(0) =~= bs);
    step(bs, 0, 0x55, 0xcbf29ce484222325, 0xcbf29ce484222370, 0xcbf29ce5de, 0xaf64084c86023750);
    step(bs, 1, 0x69, 0xaf64084c86023750, 0xaf64084c86023739, 0xaf64084db0, 0x09315307b5c3d5db);
    step(bs, 2, 0x6e, 0x09315307b5c3d5db, 0x09315307b5c3d5b5, 0x9315307c5, 0x62a5cb19dbc4228f);
    step(bs, 3, 0x74, 0x62a5cb19dbc4228f, 0x62a5cb19dbc422fb, 0x62a5cb1a83, 0x63db17f06e477081);
    step(bs, 4, 0x36, 0x63db17f06e477081, 0x63db17f06e4770b7, 0x63db17f117, 0xf4ba648b636486f5);
    step(bs, 5, 0x34, 0xf4ba648b636486f5, 0xf4ba648b636486c1, 0xf4ba648d03, 0x3d3f99d9e3d0f9f3);
    assert(bs.skip(6) =~= Seq::empty());
}

proof fn run_array_uint64()
    ensures
        fnv64_from(bytes_of_uint64(), ARRAY_BASIS) == 0x964a_8782_3d77_4e5e,
{
    let bs = bytes_of_uint64();
    xors_of_uint64();
    assert(bs.skip(0) =~= bs);
    step(bs, 0, 0x55, 0x104d4d9bad9d3f94, 0x104d4d9bad9d3fc1, 0x104d4d9bc9, 0x509aa088023354f3);
    step(bs, 1, 0x69, 0x509aa088023354f3, 0x509aa0880233549a, 0x509aa0888b, 0x2a13611bbd38c1ae);
    step(bs, 2, 0x6e, 0x2a13611bbd38c1ae, 0x2a13611bbd38c1c0, 0x2a13611c04, 0xb7afc22287713940);
    step(bs, 3, 0x74, 0xb7afc22287713940, 0xb7afc22287713934, 0xb7afc223bf, 0x90e014ac2564335c);
    step(bs, 4, 0x36, 0x90e014ac2564335c, 0x90e014ac2564336a, 0x90e014ad1b, 0x90f68a8389435d1e);
    step(bs, 5, 0x34, 0x90f68a8389435d1e, 0x90f68a8389435d2a, 0x90f68a847f, 0x964a87823d774e5e);
    assert(bs.skip(6) =~= Seq::empty());
}

proof fn hash_of_uint64()
    ensures
        type_hash_at(18) == 0x3d3f_99d9_e3d0_f9f3,
        type_hash_at(19) == 0x964a_8782_3d77_4e5e,
{
    reveal_strlit("Uint64");
    let bs = bytes_of_uint64();
    lemma_ascii("Uint64"@, bs);
    lemma_array_of("Uint64"@, bs);
    run_uint64();
    run_array_uint64();
}

spec fn bytes_of_int8() -> Seq<u8> {
    seq![0x49u8, 0x6eu8, 0x74u8, 0x38u8]
}

proof fn xors_of_int8()
    ensures
        0xcbf29ce484222325u64 ^ 0x49u64 == 0xcbf29ce48422236cu64,
        0xaf64044c86023084u64 ^ 0x6eu64 == 0xaf64044c860230eau64,
        0x09243807b5b91d9eu64 ^ 0x74u64 == 0x09243807b5b91deau64,
        0x41a91f19c98dd49eu64 ^ 0x38u64 == 0x41a91f19c98dd4a6u64,
        0x104d4d9bad9d3f94u64 ^ 0x49u64 == 0x104d4d9bad9d3fddu64,
        0x509abc8802338487u64 ^ 0x6eu64 == 0x509abc88023384e9u64,
        0x2a73441bbd8ad7ebu64 ^ 0x74u64 == 0x2a73441bbd8ad79fu64,
        0xacb45a2312ec632du64 ^ 0x38u64 == 0xacb45a2312ec6315u64,
{
    assert(0xcbf29ce484222325u64 ^ 0x49u64 == 0xcbf29ce48422236cu64
        && 0xaf64044c86023084u64 ^ 0x6eu64 == 0xaf64044c860230eau64
        && 0x09243807b5b91d9eu64 ^ 0x74u64 == 0x09243807b5b91deau64
        && 0x41a91f19c98dd49eu64 ^ 0x38u64 == 0x41a91f19c98dd4a6u64
        && 0x104d4d9bad9d3f94u64 ^ 0x49u64 == 0x104d4d9bad9d3fddu64
        && 0x509abc8802338487u64 ^ 0x6eu64 == 0x509abc88023384e9u64
        && 0x2a73441bbd8ad7ebu64 ^ 0x74u64 == 0x2a73441bbd8ad79fu64
        && 0xacb45a2312ec632du64 ^ 0x38u64 == 0xacb45a2312ec6315u64) by (bit_vector);
}

proof fn run_int8()
    ensures
        fnv64_from(bytes_of_int8(), BASIS) == 0x2034_7ed1_7c00_5612,
{
    let bs = bytes_of_int8();
    xors_of_int8();
    assert(bs.skip(0) =~= bs);
    step(bs, 0, 0x49, 0xcbf29ce484222325, 0xcbf29ce48422236c, 0xcbf29ce5de, 0xaf64044c86023084);
    step(bs, 1, 0x6e, 0xaf64044c86023084, 0xaf64044c860230ea, 0xaf64044db0, 0x09243807b5b91d9e);
    step(bs, 2, 0x74, 0x09243807b5b91d9e, 0x09243807b5b91dea, 0x9243807c5, 0x41a91f19c98dd49e);
    step(bs, 3, 0x38, 0x41a91f19c98dd49e, 0x41a91f19c98dd4a6, 0x41a91f1a39, 0x20347ed17c005612);
    assert(bs.skip(4) =~= Seq::empty());
}

proof fn run_array_int8()
    ensures
        fnv64_from(bytes_of_int8(), ARRAY_BASIS) == 0x62d8_3e99_27ac_5caf,
{
    let bs = bytes_of_int8();
    xors_of_int8();
    assert(bs.skip(0) =~= bs);
    step(bs, 0, 0x49, 0x104d4d9bad9d3f94, 0x104d4d9bad9d3fdd, 0x104d4d9bc9, 0x509abc8802338487);
    step(bs, 1, 0x6e, 0x509abc8802338487, 0x509abc88023384e9, 0x509abc888b, 0x2a73441bbd8ad7eb);
    step(bs, 2, 0x74, 0x2a73441bbd8ad7eb, 0x2a73441bbd8ad79f, 0x2a73441c05, 0xacb45a2312ec632d);
    step(bs, 3, 0x38, 0xacb45a2312ec632d, 0xacb45a2312ec6315, 0xacb45a2438, 0x62d83e9927ac5caf);
    assert(bs.skip(4) =~= Seq::empty());
}

proof fn hash_of_int8()
    ensures
        type_hash_at(20) == 0x2034_7ed1_7c00_5612,
        type_hash_at(21) == 0x62d8_3e99_27ac_5caf,
{
    reveal_strlit("Int8");
    let bs = bytes_of_int8();
    lemma_ascii("Int8"@, bs);
    lemma_array_of("Int8"@, bs);
    run_int8();
    run_array_int8();
}

spec fn bytes_of_int16() -> Seq<u8> {
    seq![0x49u8, 0x6eu8, 0x74u8, 0x31u8, 0x36u8]
}

proof fn xors_of_int16()
    ensures
        0xcbf29ce484222325u64 ^ 0x49u64 == 0xcbf29ce48422236cu64,
        0xaf64044c86023084u64 ^ 0x6eu64 == 0xaf64044c860230eau64,
        0x09243807b5b91d9eu64 ^ 0x74u64 == 0x09243807b5b91deau64,
        0x41a91f19c98dd49eu64 ^ 0x31u64 == 0x41a91f19c98dd4afu64,
        0x203487d17c00655du64 ^ 0x36u64 == 0x203487d17c00656bu64,
        0x104d4d9bad9d3f94u64 ^ 0x49u64 == 0x104d4d9bad9d3fddu64,
        0x509abc8802338487u64 ^ 0x6eu64 == 0x509abc88023384e9u64,
        0x2a73441bbd8ad7ebu64 ^ 0x74u64 == 0x2a73441bbd8ad79fu64,
        0xacb45a2312ec632du64 ^ 0x31u64 == 0xacb45a2312ec631cu64,
        0x62d8459927ac6894u64 ^ 0x36u64 == 0x62d8459927ac68a2u64,
{
    assert(0xcbf29ce484222325u64 ^ 0x49u64 == 0xcbf29ce48422236cu64
        && 0xaf64044c86023084u64 ^ 0x6eu64 == 0xaf64044c860230eau64
        && 0x09243807b5b91d9eu64 ^ 0x74u64 == 0x09243807b5b91deau64
        && 0x41a91f19c98dd49eu64 ^ 0x31u64 == 0x41a91f19c98dd4afu64
        && 0x203487d17c00655du64 ^ 0x36u64 == 0x203487d17c00656bu64
        && 0x104d4d9bad9d3f94u64 ^ 0x49u64 == 0x104d4d9bad9d3fddu64
        && 0x509abc8802338487u64 ^ 0x6eu64 == 0x509abc88023384e9u64
        && 0x2a73441bbd8ad7ebu64 ^ 0x74u64 == 0x2a73441bbd8ad79fu64
        && 0xacb45a2312ec632du64 ^ 0x31u64 == 0xacb45a2312ec631cu64
        && 0x62d8459927ac6894u64 ^ 0x36u64 == 0x62d8459927ac68a2u64) by (bit_vector);
}

proof fn run_int16()
    ensures
        fnv64_from(bytes_of_int16(), BASIS) == 0xb9a8_33f5_b4ac_54d1,
{
    let bs = bytes_of_int16();
    xors_of_int16();
    assert(bs.skip(0) =~= bs);
    step(bs, 0, 0x49, 0xcbf29ce484222325, 0xcbf29ce48422236c, 0xcbf29ce5de, 0xaf64044c86023084);
    step(bs, 1, 0x6e, 0xaf64044c86023084, 0xaf64044c860230ea, 0xaf64044db0, 0x09243807b5b91d9e);
    step(bs, 2, 0x74, 0x09243807b5b91d9e, 0x09243807b5b91dea, 0x9243807c5, 0x41a91f19c98dd49e);
    step(bs, 3, 0x31, 0x41a91f19c98dd49e, 0x41a91f19c98dd4af, 0x41a91f1a39, 0x203487d17c00655d);
    step(bs, 4, 0x36, 0x203487d17c00655d, 0x203487d17c00656b, 0x203487d1b2, 0xb9a833f5b4ac54d1);
    assert(bs.skip(5) =~= Seq::empty());
}

proof fn run_array_int16()
    ensures
        fnv64_from(bytes_of_int16(), ARRAY_BASIS) == 0xa1e6_e53e_69f5_cb46,
{
    let bs = bytes_of_int16();
    xors_of_int16();
    assert(bs.skip(0) =~= bs);
    step(bs, 0, 0x49, 0x104d4d9bad9d3f94, 0x104d4d9bad9d3fdd, 0x104d4d9bc9, 0x509abc8802338487);
    step(bs, 1, 0x6e, 0x509abc8802338487, 0x509abc88023384e9, 0x509abc888b, 0x2a73441bbd8ad7eb);
    step(bs, 2, 0x74, 0x2a73441bbd8ad7eb, 0x2a73441bbd8ad79f, 0x2a73441c05, 0xacb45a2312ec632d);
    step(bs, 3, 0x31, 0xacb45a2312ec632d, 0xacb45a2312ec631c, 0xacb45a2438, 0x62d8459927ac6894);
    step(bs, 4, 0x36, 0x62d8459927ac6894, 0x62d8459927ac68a2, 0x62d84599cf, 0xa1e6e53e69f5cb46);
    assert(bs.skip(5) =~= Seq::empty());
}

proof fn hash_of_int16()
    ensures
        type_hash_at(22) == 0xb9a8_33f5_b4ac_54d1,
        type_hash_at(23) == 0xa1e6_e53e_69f5_cb46,
{
    reveal_strlit("Int16");
    let bs = bytes_of_int16();
    lemma_ascii("Int16"@, bs);
    lemma_array_of("Int16"@, bs);
    run_int16();
    run_array_int16();
}

spec fn bytes_of_int32() -> Seq<u8> {
    seq![0x49u8, 0x6eu8, 0x74u8, 0x33u8, 0x32u8]
}

proof fn xors_of_int32()
    ensures
        0xcbf29ce484222325u64 ^ 0x49u64 == 0xcbf29ce48422236cu64,
        0xaf64044c86023084u64 ^ 0x6eu64 == 0xaf64044c860230eau64,
        0x09243807b5b91d9eu64 ^ 0x74u64 == 0x09243807b5b91deau64,
        0x41a91f19c98dd49eu64 ^ 0x33u64 == 0x41a91f19c98dd4adu64,
        0x203485d17c0061f7u64 ^ 0x32u64 == 0x203485d17c0061c5u64,
        0x104d4d9bad9d3f94u64 ^ 0x49u64 == 0x104d4d9bad9d3fddu64,
        0x509abc8802338487u64 ^ 0x6eu64 == 0x509abc88023384e9u64,
        0x2a73441bbd8ad7ebu64 ^ 0x74u64 == 0x2a73441bbd8ad79fu64,
        0xacb45a2312ec632du64 ^ 0x33u64 == 0xacb45a2312ec631eu64,
        0x62d8479927ac6bfau64 ^ 0x32u64 == 0x62d8479927ac6bc8u64,
{
    assert(0xcbf29ce484222325u64 ^ 0x49u64 == 0xcbf29ce48422236cu64
        && 0xaf64044c86023084u64 ^ 0x6eu64 == 0xaf64044c860230eau64
        && 0x09243807b5b91d9eu64 ^ 0x74u64 == 0x09243807b5b91deau64
        && 0x41a91f19c98dd49eu64 ^ 0x33u64 == 0x41a91f19c98dd4adu64
        && 0x203485d17c0061f7u64 ^ 0x32u64 == 0x203485d17c0061c5u64
        && 0x104d4d9bad9d3f94u64 ^ 0x49u64 == 0x104d4d9bad9d3fddu64
        && 0x509abc8802338487u64 ^ 0x6eu64 == 0x509abc88023384e9u64
        && 0x2a73441bbd8ad7ebu64 ^ 0x74u64 == 0x2a73441bbd8ad79fu64
        && 0xacb45a2312ec632du64 ^ 0x33u64 == 0xacb45a2312ec631eu64
        && 0x62d8479927ac6bfau64 ^ 0x32u64 == 0x62d8479927ac6bc8u64) by (bit_vector);
}

proof fn run_int32()
    ensures
        fnv64_from(bytes_of_int32(), BASIS) == 0xb9a1_27f5_b4a6_21bf,
{
    let bs = bytes_of_int32();
    xors_of_int32();
    assert(bs.skip(0) =~= bs);
    step(bs, 0, 0x49, 0xcbf29ce484222325, 0xcbf29ce48422236c, 0xcbf29ce5de, 0xaf64044c86023084);
    step(bs, 1, 0x6e, 0xaf64044c86023084, 0xaf64044c860230ea, 0xaf64044db0, 0x09243807b5b91d9e);
    step(bs, 2, 0x74, 0x09243807b5b91d9e, 0x09243807b5b91dea, 0x9243807c5, 0x41a91f19c98dd49e);
    step(bs, 3, 0x33, 0x41a91f19c98dd49e, 0x41a91f19c98dd4ad, 0x41a91f1a39, 0x203485d17c0061f7);
    step(bs, 4, 0x32, 0x203485d17c0061f7, 0x203485d17c0061c5, 0x203485d1b2, 0xb9a127f5b4a621bf);
    assert(bs.skip(5) =~= Seq::empty());
}

proof fn run_array_int32()
    ensures
        fnv64_from(bytes_of_int32(), ARRAY_BASIS) == 0xa1ed_713e_69fb_24d8,
{
    let bs = bytes_of_int32();
    xors_of_int32();
    assert(bs.skip(0) =~= bs);
    step(bs, 0, 0x49, 0x104d4d9bad9d3f94, 0x104d4d9bad9d3fdd, 0x104d4d9bc9, 0x509abc8802338487);
    step(bs, 1, 0x6e, 0x509abc8802338487, 0x509abc88023384e9, 0x509abc888b, 0x2a73441bbd8ad7eb);
    step(bs, 2, 0x74, 0x2a73441bbd8ad7eb, 0x2a73441bbd8ad79f, 0x2a73441c05, 0xacb45a2312ec632d);
    step(bs, 3, 0x33, 0xacb45a2312ec632d, 0xacb45a2312ec631e, 0xacb45a2438, 0x62d8479927ac6bfa);
    step(bs, 4, 0x32, 0x62d8479927ac6bfa, 0x62d8479927ac6bc8, 0x62d84799cf, 0xa1ed713e69fb24d8);
    assert(bs.skip(5) =~= Seq::empty());
}

proof fn hash_of_int32()
    ensures
        type_hash_at(24) == 0xb9a1_27f5_b4a6_21bf,
        type_hash_at(25) == 0xa1ed_713e_69fb_24d8,
{
    reveal_strlit("Int32");
    let bs = bytes_of_int32();
    lemma_ascii("Int32"@, bs);
    lemma_array_of("Int32"@, bs);
    run_int32();
    run_array_int32();
}

spec fn bytes_of_int64() -> Seq<u8> {
    seq![0x49u8, 0x6eu8, 0x74u8, 0x36u8, 0x34u8]
}

proof fn xors_of_int64()
    ensures
        0xcbf29ce484222325u64 ^ 0x49u64 == 0xcbf29ce48422236cu64,
        0xaf64044c86023084u64 ^ 0x6eu64 == 0xaf64044c860230eau64,
        0x09243807b5b91d9eu64 ^ 0x74u64 == 0x09243807b5b91deau64,
        0x41a91f19c98dd49eu64 ^ 0x36u64 == 0x41a91f19c98dd4a8u64,
        0x203480d17c005978u64 ^ 0x34u64 == 0x203480d17c00594cu64,
        0x104d4d9bad9d3f94u64 ^ 0x49u64 == 0x104d4d9bad9d3fddu64,
        0x509abc8802338487u64 ^ 0x6eu64 == 0x509abc88023384e9u64,
        0x2a73441bbd8ad7ebu64 ^ 0x74u64 == 0x2a73441bbd8ad79fu64,
        0xacb45a2312ec632du64 ^ 0x36u64 == 0xacb45a2312ec631bu64,
        0x62d8449927ac66e1u64 ^ 0x34u64 == 0x62d8449927ac66d5u64,
{
    assert(0xcbf29ce484222325u64 ^ 0x49u64 == 0xcbf29ce48422236cu64
        && 0xaf64044c86023084u64 ^ 0x6eu64 == 0xaf64044c860230eau64
        && 0x09243807b5b91d9eu64 ^ 0x74u64 == 0x09243807b5b91deau64
        && 0x41a91f19c98dd49eu64 ^ 0x36u64 == 0x41a91f19c98dd4a8u64
        && 0x203480d17c005978u64 ^ 0x34u64 == 0x203480d17c00594cu64
        && 0x104d4d9bad9d3f94u64 ^ 0x49u64 == 0x104d4d9bad9d3fddu64
        && 0x509abc8802338487u64 ^ 0x6eu64 == 0x509abc88023384e9u64
        && 0x2a73441bbd8ad7ebu64 ^ 0x74u64 == 0x2a73441bbd8ad79fu64
        && 0xacb45a2312ec632du64 ^ 0x36u64 == 0xacb45a2312ec631bu64
        && 0x62d8449927ac66e1u64 ^ 0x34u64 == 0x62d8449927ac66d5u64) by (bit_vector);
}

proof fn run_int64()
    ensures
        fnv64_from(bytes_of_int64(), BASIS) == 0xb990_2ff5_b497_bc24,
{
    let bs = bytes_of_int64();
    xors_of_int64();
    assert(bs.skip(0) =~= bs);
    step(bs, 0, 0x49, 0xcbf29ce484222325, 0xcbf29ce48422236c, 0xcbf29ce5de, 0xaf64044c86023084);
    step(bs, 1, 0x6e, 0xaf64044c86023084, 0xaf64044c860230ea, 0xaf64044db0, 0x09243807b5b91d9e);
    step(bs, 2, 0x74, 0x09243807b5b91d9e, 0x09243807b5b91dea, 0x9243807c5, 0x41a91f19c98dd49e);
    step(bs, 3, 0x36, 0x41a91f19c98dd49e, 0x41a91f19c98dd4a8, 0x41a91f1a39, 0x203480d17c005978);
    step(bs, 4, 0x34, 0x203480d17c005978, 0x203480d17c00594c, 0x203480d1b2, 0xb9902ff5b497bc24);
    assert(bs.skip(5) =~= Seq::empty());
}

proof fn run_array_int64()
    ensures
        fnv64_from(bytes_of_int64(), ARRAY_BASIS) == 0xa1e3_653e_69f2_bbef,
{
    let bs = bytes_of_int64();
    xors_of_int64();
    assert(bs.skip(0) =~= bs);
    step(bs, 0, 0x49, 0x104d4d9bad9d3f94, 0x104d4d9bad9d3fdd, 0x104d4d9bc9, 0x509abc8802338487);
    step(bs, 1, 0x6e, 0x509abc8802338487, 0x509abc88023384e9, 0x509abc888b, 0x2a73441bbd8ad7eb);
    step(bs, 2, 0x74, 0x2a73441bbd8ad7eb, 0x2a73441bbd8ad79f, 0x2a73441c05, 0xacb45a2312ec632d);
    step(bs, 3, 0x36, 0xacb45a2312ec632d, 0xacb45a2312ec631b, 0xacb45a2438, 0x62d8449927ac66e1);
    step(bs, 4, 0x34, 0x62d8449927ac66e1, 0x62d8449927ac66d5, 0x62d84499cf, 0xa1e3653e69f2bbef);
    assert(bs.skip(5) =~= Seq::empty());
}

proof fn hash_of_int64()
    ensures
        type_hash_at(26) == 0xb990_2ff5_b497_bc24,
        type_hash_at(27) == 0xa1e3_653e_69f2_bbef,
{
    reveal_strlit("Int64");
    let bs = bytes_of_int64();
    lemma_ascii("Int64"@, bs);
    lemma_array_of("Int64"@, bs);
    run_int64();
    run_array_int64();
}

spec fn bytes_of_color() -> Seq<u8> {
    seq![0x43u8, 0x6fu8, 0x6cu8, 0x6fu8, 0x72u8]
}

proof fn xors_of_color()
    ensures
        0xcbf29ce484222325u64 ^ 0x43u64 == 0xcbf29ce484222366u64,
        0xaf63fe4c86022652u64 ^ 0x6fu64 == 0xaf63fe4c8602263du64,
        0x090f5907b5a6f9a7u64 ^ 0x6cu64 == 0x090f5907b5a6f9cbu64,
        0x0c0e1319aaba73f1u64 ^ 0x6fu64 == 0x0c0e1319aaba739eu64,
        0x365e129d1ad2757au64 ^ 0x72u64 == 0x365e129d1ad27508u64,
        0x104d4d9bad9d3f94u64 ^ 0x43u64 == 0x104d4d9bad9d3fd7u64,
        0x509ab68802337a55u64 ^ 0x6fu64 == 0x509ab68802337a3au64,
        0x2a5e631bbd78b08eu64 ^ 0x6cu64 == 0x2a5e631bbd78b0e2u64,
        0x77134a22f4149006u64 ^ 0x6fu64 == 0x77134a22f4149069u64,
        0x6a576264bef1626bu64 ^ 0x72u64 == 0x6a576264bef16219u64,
{
    assert(0xcbf29ce484222325u64 ^ 0x43u64 == 0xcbf29ce484222366u64
        && 0xaf63fe4c86022652u64 ^ 0x6fu64 == 0xaf63fe4c8602263du64
        && 0x090f5907b5a6f9a7u64 ^ 0x6cu64 == 0x090f5907b5a6f9cbu64
        && 0x0c0e1319aaba73f1u64 ^ 0x6fu64 == 0x0c0e1319aaba739eu64
        && 0x365e129d1ad2757au64 ^ 0x72u64 == 0x365e129d1ad27508u64
        && 0x104d4d9bad9d3f94u64 ^ 0x43u64 == 0x104d4d9bad9d3fd7u64
        && 0x509ab68802337a55u64 ^ 0x6fu64 == 0x509ab68802337a3au64
        && 0x2a5e631bbd78b08eu64 ^ 0x6cu64 == 0x2a5e631bbd78b0e2u64
        && 0x77134a22f4149006u64 ^ 0x6fu64 == 0x77134a22f4149069u64
        && 0x6a576264bef1626bu64 ^ 0x72u64 == 0x6a576264bef16219u64) by (bit_vector);
}

proof fn run_color()
    ensures
        fnv64_from(bytes_of_color(), BASIS) == 0x344e_a8f4_939c_dc98,
{
    let bs = bytes_of_color();
    xors_of_color();
    assert(bs.skip(0) =~= bs);
    step(bs, 0, 0x43, 0xcbf29ce484222325, 0xcbf29ce484222366, 0xcbf29ce5de, 0xaf63fe4c86022652);
    step(bs, 1, 0x6f, 0xaf63fe4c86022652, 0xaf63fe4c8602263d, 0xaf63fe4db0, 0x090f5907b5a6f9a7);
    step(bs, 2, 0x6c, 0x090f5907b5a6f9a7, 0x090f5907b5a6f9cb, 0x90f5907c5, 0x0c0e1319aaba73f1);
    step(bs, 3, 0x6f, 0x0c0e1319aaba73f1, 0x0c0e1319aaba739e, 0xc0e1319bf, 0x365e129d1ad2757a);
    step(bs, 4, 0x72, 0x365e129d1ad2757a, 0x365e129d1ad27508, 0x365e129d77, 0x344ea8f4939cdc98);
    assert(bs.skip(5) =~= Seq::empty());
}

proof fn run_array_color()
    ensures
        fnv64_from(bytes_of_color(), ARRAY_BASIS) == 0xa3de_4a30_7429_b07b,
{
    let bs = bytes_of_color();
    xors_of_color();
    assert(bs.skip(0) =~= bs);
    step(bs, 0, 0x43, 0x104d4d9bad9d3f94, 0x104d4d9bad9d3fd7, 0x104d4d9bc9, 0x509ab68802337a55);
    step(bs, 1, 0x6f, 0x509ab68802337a55, 0x509ab68802337a3a, 0x509ab6888b, 0x2a5e631bbd78b08e);
    step(bs, 2, 0x6c, 0x2a5e631bbd78b08e, 0x2a5e631bbd78b0e2, 0x2a5e631c05, 0x77134a22f4149006);
    step(bs, 3, 0x6f, 0x77134a22f4149006, 0x77134a22f4149069, 0x77134a23be, 0x6a576264bef1626b);
    step(bs, 4, 0x72, 0x6a576264bef1626b, 0x6a576264bef16219, 0x6a57626573, 0xa3de4a307429b07b);
    assert(bs.skip(5) =~= Seq::empty());
}

proof fn hash_of_color()
    ensures
        type_hash_at(28) == 0x344e_a8f4_939c_dc98,
        type_hash_at(29) == 0xa3de_4a30_7429_b07b,
{
    reveal_strlit("Color");
    let bs = bytes_of_color();
    lemma_ascii("Color"@, bs);
    lemma_array_of("Color"@, bs);
    run_color();
    run_array_color();
}

spec fn bytes_of_eulerangles() -> Seq<u8> {
    seq![0x45u8, 0x75u8, 0x6cu8, 0x65u8, 0x72u8, 0x41u8, 0x6eu8, 0x67u8, 0x6cu8, 0x65u8, 0x73u8]
}

proof fn xors_of_eulerangles()
    ensures
        0xcbf29ce484222325u64 ^ 0x45u64 == 0xcbf29ce484222360u64,
        0xaf63f84c86021c20u64 ^ 0x75u64 == 0xaf63f84c86021c55u64,
        0x08fb3f07b596246fu64 ^ 0x6cu64 == 0x08fb3f07b5962403u64,
        0xd9101d198e1f3119u64 ^ 0x65u64 == 0xd9101d198e1f317cu64,
        0xf592ee6c7f0115b4u64 ^ 0x72u64 == 0xf592ee6c7f0115c6u64,
        0x49c0e85bced7ff72u64 ^ 0x41u64 == 0x49c0e85bced7ff33u64,
        0x2aca07007906a3a9u64 ^ 0x6eu64 == 0x2aca07007906a3c7u64,
        0xbbedaccda6484b25u64 ^ 0x67u64 == 0xbbedaccda6484b42u64,
        0x9d27e3718cd7e126u64 ^ 0x6cu64 == 0x9d27e3718cd7e14au64,
        0xe2a8c3f252d3d0beu64 ^ 0x65u64 == 0xe2a8c3f252d3d0dbu64,
        0xf895cfc2bdebe421u64 ^ 0x73u64 == 0xf895cfc2bdebe452u64,
        0x104d4d9bad9d3f94u64 ^ 0x45u64 == 0x104d4d9bad9d3fd1u64,
        0x509ab08802337023u64 ^ 0x75u64 == 0x509ab08802337056u64,
        0x2a4a4d1bbd67e222u64 ^ 0x6cu64 == 0x2a4a4d1bbd67e24eu64,
        0x44235422d7858a8au64 ^ 0x65u64 == 0x44235422d7858aefu64,
        0x4d92e63437eb141du64 ^ 0x72u64 == 0x4d92e63437eb146fu64,
        0xbbb199bb0473b89du64 ^ 0x41u64 == 0xbbb199bb0473b8dcu64,
        0x628114c890a31dd4u64 ^ 0x6eu64 == 0x628114c890a31dbau64,
        0x04740acdc52b830eu64 ^ 0x67u64 == 0x04740acdc52b8369u64,
        0xbcb1c4a608f04b6bu64 ^ 0x6cu64 == 0xbcb1c4a608f04b07u64,
        0x925c2d21304f7ce5u64 ^ 0x65u64 == 0x925c2d21304f7c80u64,
        0x021d2f6517108d80u64 ^ 0x73u64 == 0x021d2f6517108df3u64,
{
    assert(0xcbf29ce484222325u64 ^ 0x45u64 == 0xcbf29ce484222360u64
        && 0xaf63f84c86021c20u64 ^ 0x75u64 == 0xaf63f84c86021c55u64
        && 0x08fb3f07b596246fu64 ^ 0x6cu64 == 0x08fb3f07b5962403u64
        && 0xd9101d198e1f3119u64 ^ 0x65u64 == 0xd9101d198e1f317cu64
        && 0xf592ee6c7f0115b4u64 ^ 0x72u64 == 0xf592ee6c7f0115c6u64
        && 0x49c0e85bced7ff72u64 ^ 0x41u64 == 0x49c0e85bced7ff33u64
        && 0x2aca07007906a3a9u64 ^ 0x6eu64 == 0x2aca07007906a3c7u64
        && 0xbbedaccda6484b25u64 ^ 0x67u64 == 0xbbedaccda6484b42u64
        && 0x9d27e3718cd7e126u64 ^ 0x6cu64 == 0x9d27e3718cd7e14au64
        && 0xe2a8c3f252d3d0beu64 ^ 0x65u64 == 0xe2a8c3f252d3d0dbu64
        && 0xf895cfc2bdebe421u64 ^ 0x73u64 == 0xf895cfc2bdebe452u64
        && 0x104d4d9bad9d3f94u64 ^ 0x45u64 == 0x104d4d9bad9d3fd1u64
        && 0x509ab08802337023u64 ^ 0x75u64 == 0x509ab08802337056u64
        && 0x2a4a4d1bbd67e222u64 ^ 0x6cu64 == 0x2a4a4d1bbd67e24eu64
        && 0x44235422d7858a8au64 ^ 0x65u64 == 0x44235422d7858aefu64
        && 0x4d92e63437eb141du64 ^ 0x72u64 == 0x4d92e63437eb146fu64
        && 0xbbb199bb0473b89du64 ^ 0x41u64 == 0xbbb199bb0473b8dcu64
        && 0x628114c890a31dd4u64 ^ 0x6eu64 == 0x628114c890a31dbau64
        && 0x04740acdc52b830eu64 ^ 0x67u64 == 0x04740acdc52b8369u64
        && 0xbcb1c4a608f04b6bu64 ^ 0x6cu64 == 0xbcb1c4a608f04b07u64
        && 0x925c2d21304f7ce5u64 ^ 0x65u64 == 0x925c2d21304f7c80u64
        && 0x021d2f6517108d80u64 ^ 0x73u64 == 0x021d2f6517108df3u64) by (bit_vector);
}

proof fn run_eulerangles()
    ensures
        fnv64_from(bytes_of_eulerangles(), BASIS) == 0x5274_59e8_b7d4_f756,
{
    let bs = bytes_of_eulerangles();
    xors_of_eulerangles();
    assert(bs.skip(0) =~= bs);
    step(bs, 0, 0x45, 0xcbf29ce484222325, 0xcbf29ce484222360, 0xcbf29ce5de, 0xaf63f84c86021c20);
    step(bs, 1, 0x75, 0xaf63f84c86021c20, 0xaf63f84c86021c55, 0xaf63f84db0, 0x08fb3f07b596246f);
    step(bs, 2, 0x6c, 0x08fb3f07b596246f, 0x08fb3f07b5962403, 0x8fb3f07c4, 0xd9101d198e1f3119);
    step(bs, 3, 0x65, 0xd9101d198e1f3119, 0xd9101d198e1f317c, 0xd9101d1afe, 0xf592ee6c7f0115b4);
    step(bs, 4, 0x72, 0xf592ee6c7f0115b4, 0xf592ee6c7f0115c6, 0xf592ee6e20, 0x49c0e85bced7ff72);
    step(bs, 5, 0x41, 0x49c0e85bced7ff72, 0x49c0e85bced7ff33, 0x49c0e85c4c, 0x2aca07007906a3a9);
    step(bs, 6, 0x6e, 0x2aca07007906a3a9, 0x2aca07007906a3c7, 0x2aca0700c1, 0xbbedaccda6484b25);
    step(bs, 7, 0x67, 0xbbedaccda6484b25, 0xbbedaccda6484b42, 0xbbedaccee5, 0x9d27e3718cd7e126);
    step(bs, 8, 0x6c, 0x9d27e3718cd7e126, 0x9d27e3718cd7e14a, 0x9d27e37297, 0xe2a8c3f252d3d0be);
    step(bs, 9, 0x65, 0xe2a8c3f252d3d0be, 0xe2a8c3f252d3d0db, 0xe2a8c3f3d3, 0xf895cfc2bdebe421);
    step(bs, 10, 0x73, 0xf895cfc2bdebe421, 0xf895cfc2bdebe452, 0xf895cfc464, 0x527459e8b7d4f756);
    assert(bs.skip(11) =~= Seq::empty());
}

proof fn run_array_eulerangles()
    ensures
        fnv64_from(bytes_of_eulerangles(), ARRAY_BASIS) == 0xa825_7bc6_3121_33e9,
{
    let bs = bytes_of_eulerangles();
    xors_of_eulerangles();
    assert(bs.skip(0) =~= bs);
    step(bs, 0, 0x45, 0x104d4d9bad9d3f94, 0x104d4d9bad9d3fd1, 0x104d4d9bc9, 0x509ab08802337023);
    step(bs, 1, 0x75, 0x509ab08802337023, 0x509ab08802337056, 0x509ab0888b, 0x2a4a4d1bbd67e222);
    step(bs, 2, 0x6c, 0x2a4a4d1bbd67e222, 0x2a4a4d1bbd67e24e, 0x2a4a4d1c05, 0x44235422d7858a8a);
    step(bs, 3, 0x65, 0x44235422d7858a8a, 0x44235422d7858aef, 0x442354234b, 0x4d92e63437eb141d);
    step(bs, 4, 0x72, 0x4d92e63437eb141d, 0x4d92e63437eb146f, 0x4d92e634bb, 0xbbb199bb0473b89d);
    step(bs, 5, 0x41, 0xbbb199bb0473b89d, 0xbbb199bb0473b8dc, 0xbbb199bc43, 0x628114c890a31dd4);
    step(bs, 6, 0x6e, 0x628114c890a31dd4, 0x628114c890a31dba, 0x628114c938, 0x04740acdc52b830e);
    step(bs, 7, 0x67, 0x04740acdc52b830e, 0x04740acdc52b8369, 0x4740acdcc, 0xbcb1c4a608f04b6b);
    step(bs, 8, 0x6c, 0xbcb1c4a608f04b6b, 0xbcb1c4a608f04b07, 0xbcb1c4a749, 0x925c2d21304f7ce5);
    step(bs, 9, 0x65, 0x925c2d21304f7ce5, 0x925c2d21304f7c80, 0x925c2d2229, 0x021d2f6517108d80);
    step(bs, 10, 0x73, 0x021d2f6517108d80, 0x021d2f6517108df3, 0x21d2f651a, 0xa8257bc6312133e9);
    assert(bs.skip(11) =~= Seq::empty());
}

proof fn hash_of_eulerangles()
    ensures
        type_hash_at(30) == 0x5274_59e8_b7d4_f756,
        type_hash_at(31) == 0xa825_7bc6_3121_33e9,
{
    reveal_strlit("EulerAngles");
    let bs = bytes_of_eulerangles();
    lemma_ascii("EulerAngles"@, bs);
    lemma_array_of("EulerAngles"@, bs);
    run_eulerangles();
    run_array_eulerangles();
}

spec fn bytes_of_quaternion() -> Seq<u8> {
    seq![0x51u8, 0x75u8, 0x61u8, 0x74u8, 0x65u8, 0x72u8, 0x6eu8, 0x69u8, 0x6fu8, 0x6eu8]
}

proof fn xors_of_quaternion()
    ensures
        0xcbf29ce484222325u64 ^ 0x51u64 == 0xcbf29ce484222374u64,
        0xaf640c4c86023e1cu64 ^ 0x75u64 == 0xaf640c4c86023e69u64,
        0x093f4f07b5d00c6bu64 ^ 0x61u64 == 0x093f4f07b5d00c0au64,
        0x869f5419f08474feu64 ^ 0x74u64 == 0x869f5419f084748au64,
        0x45307213b112067eu64 ^ 0x65u64 == 0x45307213b112061bu64,
        0xa357f275e1a05fe1u64 ^ 0x72u64 == 0xa357f275e1a05f93u64,
        0x2ed0914e638266c9u64 ^ 0x6eu64 == 0x2ed0914e638266a7u64,
        0x0ecd8f3316946dc5u64 ^ 0x69u64 == 0x0ecd8f3316946dacu64,
        0xbbb7ffcf5e365b44u64 ^ 0x6fu64 == 0xbbb7ffcf5e365b2bu64,
        0x3002d85d165cea11u64 ^ 0x6eu64 == 0x3002d85d165cea7fu64,
        0x104d4d9bad9d3f94u64 ^ 0x51u64 == 0x104d4d9bad9d3fc5u64,
        0x509aa48802335bbfu64 ^ 0x75u64 == 0x509aa48802335bcau64,
        0x2a215d1bbd44f83eu64 ^ 0x61u64 == 0x2a215d1bbd44f85fu64,
        0xdba995229c32096du64 ^ 0x74u64 == 0xdba995229c320919u64,
        0x733182cf6905757bu64 ^ 0x65u64 == 0x733182cf6905751eu64,
        0xc296646f744601fau64 ^ 0x72u64 == 0xc296646f74460188u64,
        0xeb8e316292f49a18u64 ^ 0x6eu64 == 0xeb8e316292f49a76u64,
        0x3738607fb5a27682u64 ^ 0x69u64 == 0x3738607fb5a276ebu64,
        0x7742e401a3101151u64 ^ 0x6fu64 == 0x7742e401a310113eu64,
        0xb6baacc8144d4c5au64 ^ 0x6eu64 == 0xb6baacc8144d4c34u64,
{
    assert(0xcbf29ce484222325u64 ^ 0x51u64 == 0xcbf29ce484222374u64
        && 0xaf640c4c86023e1cu64 ^ 0x75u64 == 0xaf640c4c86023e69u64
        && 0x093f4f07b5d00c6bu64 ^ 0x61u64 == 0x093f4f07b5d00c0au64
        && 0x869f5419f08474feu64 ^ 0x74u64 == 0x869f5419f084748au64
        && 0x45307213b112067eu64 ^ 0x65u64 == 0x45307213b112061bu64
        && 0xa357f275e1a05fe1u64 ^ 0x72u64 == 0xa357f275e1a05f93u64
        && 0x2ed0914e638266c9u64 ^ 0x6eu64 == 0x2ed0914e638266a7u64
        && 0x0ecd8f3316946dc5u64 ^ 0x69u64 == 0x0ecd8f3316946dacu64
        && 0xbbb7ffcf5e365b44u64 ^ 0x6fu64 == 0xbbb7ffcf5e365b2bu64
        && 0x3002d85d165cea11u64 ^ 0x6eu64 == 0x3002d85d165cea7fu64
        && 0x104d4d9bad9d3f94u64 ^ 0x51u64 == 0x104d4d9bad9d3fc5u64
        && 0x509aa48802335bbfu64 ^ 0x75u64 == 0x509aa48802335bcau64
        && 0x2a215d1bbd44f83eu64 ^ 0x61u64 == 0x2a215d1bbd44f85fu64
        && 0xdba995229c32096du64 ^ 0x74u64 == 0xdba995229c320919u64
        && 0x733182cf6905757bu64 ^ 0x65u64 == 0x733182cf6905751eu64
        && 0xc296646f744601fau64 ^ 0x72u64 == 0xc296646f74460188u64
        && 0xeb8e316292f49a18u64 ^ 0x6eu64 == 0xeb8e316292f49a76u64
        && 0x3738607fb5a27682u64 ^ 0x69u64 == 0x3738607fb5a276ebu64
        && 0x7742e401a3101151u64 ^ 0x6fu64 == 0x7742e401a310113eu64
        && 0xb6baacc8144d4c5au64 ^ 0x6eu64 == 0xb6baacc8144d4c34u64) by (bit_vector);
}

proof fn run_quaternion()
    ensures
        fnv64_from(bytes_of_quaternion(), BASIS) == 0xf1c0_252c_ffe2_75cd,
{
    let bs = bytes_of_quaternion();
    xors_of_quaternion();
    assert(bs.skip(0) =~= bs);
    step(bs, 0, 0x51, 0xcbf29ce484222325, 0xcbf29ce484222374, 0xcbf29ce5de, 0xaf640c4c86023e1c);
    step(bs, 1, 0x75, 0xaf640c4c86023e1c, 0xaf640c4c86023e69, 0xaf640c4db0, 0x093f4f07b5d00c6b);
    step(bs, 2, 0x61, 0x093f4f07b5d00c6b, 0x093f4f07b5d00c0a, 0x93f4f07c5, 0x869f5419f08474fe);
    step(bs, 3, 0x74, 0x869f5419f08474fe, 0x869f5419f084748a, 0x869f541ad5, 0x45307213b112067e);
    step(bs, 4, 0x65, 0x45307213b112067e, 0x45307213b112061b, 0x4530721426, 0xa357f275e1a05fe1);
    step(bs, 5, 0x72, 0xa357f275e1a05fe1, 0xa357f275e1a05f93, 0xa357f276f7, 0x2ed0914e638266c9);
    step(bs, 6, 0x6e, 0x2ed0914e638266c9, 0x2ed0914e638266a7, 0x2ed0914eb3, 0x0ecd8f3316946dc5);
    step(bs, 7, 0x69, 0x0ecd8f3316946dc5, 0x0ecd8f3316946dac, 0xecd8f332f, 0xbbb7ffcf5e365b44);
    step(bs, 8, 0x6f, 0xbbb7ffcf5e365b44, 0xbbb7ffcf5e365b2b, 0xbbb7ffd09d, 0x3002d85d165cea11);
    step(bs, 9, 0x6e, 0x3002d85d165cea11, 0x3002d85d165cea7f, 0x3002d85d67, 0xf1c0252cffe275cd);
    assert(bs.skip(10) =~= Seq::empty());
}

proof fn run_array_quaternion()
    ensures
        fnv64_from(bytes_of_quaternion(), ARRAY_BASIS) == 0xcc7f_cbfa_7f58_7c5c,
{
    let bs = bytes_of_quaternion();
    xors_of_quaternion();
    assert(bs.skip(0) =~= bs);
    step(bs, 0, 0x51, 0x104d4d9bad9d3f94, 0x104d4d9bad9d3fc5, 0x104d4d9bc9, 0x509aa48802335bbf);
    step(bs, 1, 0x75, 0x509aa48802335bbf, 0x509aa48802335bca, 0x509aa4888b, 0x2a215d1bbd44f83e);
    step(bs, 2, 0x61, 0x2a215d1bbd44f83e, 0x2a215d1bbd44f85f, 0x2a215d1c04, 0xdba995229c32096d);
    step(bs, 3, 0x74, 0xdba995229c32096d, 0xdba995229c320919, 0xdba9952411, 0x733182cf6905757b);
    step(bs, 4, 0x65, 0x733182cf6905757b, 0x733182cf6905751e, 0x733182d02c, 0xc296646f744601fa);
    step(bs, 5, 0x72, 0xc296646f744601fa, 0xc296646f74460188, 0xc2966470be, 0xeb8e316292f49a18);
    step(bs, 6, 0x6e, 0xeb8e316292f49a18, 0xeb8e316292f49a76, 0xeb8e316423, 0x3738607fb5a27682);
    step(bs, 7, 0x69, 0x3738607fb5a27682, 0x3738607fb5a276eb, 0x3738608013, 0x7742e401a3101151);
    step(bs, 8, 0x6f, 0x7742e401a3101151, 0x7742e401a310113e, 0x7742e4026d, 0xb6baacc8144d4c5a);
    step(bs, 9, 0x6e, 0xb6baacc8144d4c5a, 0xb6baacc8144d4c34, 0xb6baacc94a, 0xcc7fcbfa7f587c5c);
    assert(bs.skip(10) =~= Seq::empty());
}

proof fn hash_of_quaternion()
    ensures
        type_hash_at(32) == 0xf1c0_252c_ffe2_75cd,
        type_hash_at(33) == 0xcc7f_cbfa_7f58_7c5c,
{
    reveal_strlit("Quaternion");
    let bs = bytes_of_quaternion();
    lemma_ascii("Quaternion"@, bs);
    lemma_array_of("Quaternion"@, bs);
    run_quaternion();
    run_array_quaternion();
}

spec fn bytes_of_vector2() -> Seq<u8> {
    seq![0x56u8, 0x65u8, 0x63u8, 0x74u8, 0x6fu8, 0x72u8, 0x32u8]
}

proof fn xors_of_vector2()
    ensures
        0xcbf29ce484222325u64 ^ 0x56u64 == 0xcbf29ce484222373u64,
        0xaf640b4c86023c69u64 ^ 0x65u64 == 0xaf640b4c86023c0cu64,
        0x093b3f07b5cc0864u64 ^ 0x63u64 == 0x093b3f07b5cc0807u64,
        0x7bb42119e9b1a3e5u64 ^ 0x74u64 == 0x7bb42119e9b1a391u64,
        0xe4b7d00818d8ef63u64 ^ 0x6fu64 == 0xe4b7d00818d8ef0cu64,
        0x7d4589c2389e3164u64 ^ 0x72u64 == 0x7d4589c2389e3116u64,
        0x7b5a2b0634cd6862u64 ^ 0x32u64 == 0x7b5a2b0634cd6850u64,
        0x104d4d9bad9d3f94u64 ^ 0x56u64 == 0x104d4d9bad9d3fc2u64,
        0x509aa188023356a6u64 ^ 0x65u64 == 0x509aa188023356c3u64,
        0x2a173d1bbd3c6d59u64 ^ 0x63u64 == 0x2a173d1bbd3c6d3au64,
        0xc1ea10228dad998eu64 ^ 0x74u64 == 0xc1ea10228dad99fau64,
        0x2e5364b6bdfca3ceu64 ^ 0x6fu64 == 0x2e5364b6bdfca3a1u64,
        0xb457c384d44a0a93u64 ^ 0x72u64 == 0xb457c384d44a0ae1u64,
        0xbb2c1bb4b9d07c53u64 ^ 0x32u64 == 0xbb2c1bb4b9d07c61u64,
{
    assert(0xcbf29ce484222325u64 ^ 0x56u64 == 0xcbf29ce484222373u64
        && 0xaf640b4c86023c69u64 ^ 0x65u64 == 0xaf640b4c86023c0cu64
        && 0x093b3f07b5cc0864u64 ^ 0x63u64 == 0x093b3f07b5cc0807u64
        && 0x7bb42119e9b1a3e5u64 ^ 0x74u64 == 0x7bb42119e9b1a391u64
        && 0xe4b7d00818d8ef63u64 ^ 0x6fu64 == 0xe4b7d00818d8ef0cu64
        && 0x7d4589c2389e3164u64 ^ 0x72u64 == 0x7d4589c2389e3116u64
        && 0x7b5a2b0634cd6862u64 ^ 0x32u64 == 0x7b5a2b0634cd6850u64
        && 0x104d4d9bad9d3f94u64 ^ 0x56u64 == 0x104d4d9bad9d3fc2u64
        && 0x509aa188023356a6u64 ^ 0x65u64 == 0x509aa188023356c3u64
        && 0x2a173d1bbd3c6d59u64 ^ 0x63u64 == 0x2a173d1bbd3c6d3au64
        && 0xc1ea10228dad998eu64 ^ 0x74u64 == 0xc1ea10228dad99fau64
        && 0x2e5364b6bdfca3ceu64 ^ 0x6fu64 == 0x2e5364b6bdfca3a1u64
        && 0xb457c384d44a0a93u64 ^ 0x72u64 == 0xb457c384d44a0ae1u64
        && 0xbb2c1bb4b9d07c53u64 ^ 0x32u64 == 0xbb2c1bb4b9d07c61u64) by (bit_vector);
}

proof fn run_vector2()
    ensures
        fnv64_from(bytes_of_vector2(), BASIS) == 0x679f_6b8b_b908_3ff0,
{
    let bs = bytes_of_vector2();
    xors_of_vector2();
    assert(bs.skip(0) =~= bs);
    step(bs, 0, 0x56, 0xcbf29ce484222325, 0xcbf29ce484222373, 0xcbf29ce5de, 0xaf640b4c86023c69);
    step(bs, 1, 0x65, 0xaf640b4c86023c69, 0xaf640b4c86023c0c, 0xaf640b4db0, 0x093b3f07b5cc0864);
    step(bs, 2, 0x63, 0x093b3f07b5cc0864, 0x093b3f07b5cc0807, 0x93b3f07c5, 0x7bb42119e9b1a3e5);
    step(bs, 3, 0x74, 0x7bb42119e9b1a3e5, 0x7bb42119e9b1a391, 0x7bb4211abb, 0xe4b7d00818d8ef63);
    step(bs, 4, 0x6f, 0xe4b7d00818d8ef63, 0xe4b7d00818d8ef0c, 0xe4b7d0099d, 0x7d4589c2389e3164);
    step(bs, 5, 0x72, 0x7d4589c2389e3164, 0x7d4589c2389e3116, 0x7d4589c30d, 0x7b5a2b0634cd6862);
    step(bs, 6, 0x32, 0x7b5a2b0634cd6862, 0x7b5a2b0634cd6850, 0x7b5a2b0706, 0x679f6b8bb9083ff0);
    assert(bs.skip(7) =~= Seq::empty());
}

proof fn run_array_vector2()
    ensures
        fnv64_from(bytes_of_vector2(), ARRAY_BASIS) == 0xdc6f_7517_bd43_58d3,
{
    let bs = bytes_of_vector2();
    xors_of_vector2();
    assert(bs.skip(0) =~= bs);
    step(bs, 0, 0x56, 0x104d4d9bad9d3f94, 0x104d4d9bad9d3fc2, 0x104d4d9bc9, 0x509aa188023356a6);
    step(bs, 1, 0x65, 0x509aa188023356a6, 0x509aa188023356c3, 0x509aa1888b, 0x2a173d1bbd3c6d59);
    step(bs, 2, 0x63, 0x2a173d1bbd3c6d59, 0x2a173d1bbd3c6d3a, 0x2a173d1c04, 0xc1ea10228dad998e);
    step(bs, 3, 0x74, 0xc1ea10228dad998e, 0xc1ea10228dad99fa, 0xc1ea1023d7, 0x2e5364b6bdfca3ce);
    step(bs, 4, 0x6f, 0x2e5364b6bdfca3ce, 0x2e5364b6bdfca3a1, 0x2e5364b70c, 0xb457c384d44a0a93);
    step(bs, 5, 0x72, 0xb457c384d44a0a93, 0xb457c384d44a0ae1, 0xb457c38606, 0xbb2c1bb4b9d07c53);
    step(bs, 6, 0x32, 0xbb2c1bb4b9d07c53, 0xbb2c1bb4b9d07c61, 0xbb2c1bb5f7, 0xdc6f7517bd4358d3);
    assert(bs.skip(7) =~= Seq::empty());
}

proof fn hash_of_vector2()
    ensures
        type_hash_at(34) == 0x679f_6b8b_b908_3ff0,
        type_hash_at(35) == 0xdc6f_7517_bd43_58d3,
{
    reveal_strlit("Vector2");
    let bs = bytes_of_vector2();
    lemma_ascii("Vector2"@, bs);
    lemma_array_of("Vector2"@, bs);
    run_vector2();
    run_array_vector2();
}

spec fn bytes_of_vector3() -> Seq<u8> {
    seq![0x56u8, 0x65u8, 0x63u8, 0x74u8, 0x6fu8, 0x72u8, 0x33u8]
}

proof fn xors_of_vector3()
    ensures
        0xcbf29ce484222325u64 ^ 0x56u64 == 0xcbf29ce484222373u64,
        0xaf640b4c86023c69u64 ^ 0x65u64 == 0xaf640b4c86023c0cu64,
        0x093b3f07b5cc0864u64 ^ 0x63u64 == 0x093b3f07b5cc0807u64,
        0x7bb42119e9b1a3e5u64 ^ 0x74u64 == 0x7bb42119e9b1a391u64,
        0xe4b7d00818d8ef63u64 ^ 0x6fu64 == 0xe4b7d00818d8ef0cu64,
        0x7d4589c2389e3164u64 ^ 0x72u64 == 0x7d4589c2389e3116u64,
        0x7b5a2b0634cd6862u64 ^ 0x33u64 == 0x7b5a2b0634cd6851u64,
        0x104d4d9bad9d3f94u64 ^ 0x56u64 == 0x104d4d9bad9d3fc2u64,
        0x509aa188023356a6u64 ^ 0x65u64 == 0x509aa188023356c3u64,
        0x2a173d1bbd3c6d59u64 ^ 0x63u64 == 0x2a173d1bbd3c6d3au64,
        0xc1ea10228dad998eu64 ^ 0x74u64 == 0xc1ea10228dad99fau64,
        0x2e5364b6bdfca3ceu64 ^ 0x6fu64 == 0x2e5364b6bdfca3a1u64,
        0xb457c384d44a0a93u64 ^ 0x72u64 == 0xb457c384d44a0ae1u64,
        0xbb2c1bb4b9d07c53u64 ^ 0x33u64 == 0xbb2c1bb4b9d07c60u64,
{
    assert(0xcbf29ce484222325u64 ^ 0x56u64 == 0xcbf29ce484222373u64
        && 0xaf640b4c86023c69u64 ^ 0x65u64 == 0xaf640b4c86023c0cu64
        && 0x093b3f07b5cc0864u64 ^ 0x63u64 == 0x093b3f07b5cc0807u64
        && 0x7bb42119e9b1a3e5u64 ^ 0x74u64 == 0x7bb42119e9b1a391u64
        && 0xe4b7d00818d8ef63u64 ^ 0x6fu64 == 0xe4b7d00818d8ef0cu64
        && 0x7d4589c2389e3164u64 ^ 0x72u64 == 0x7d4589c2389e3116u64
        && 0x7b5a2b0634cd6862u64 ^ 0x33u64 == 0x7b5a2b0634cd6851u64
        && 0x104d4d9bad9d3f94u64 ^ 0x56u64 == 0x104d4d9bad9d3fc2u64
        && 0x509aa188023356a6u64 ^ 0x65u64 == 0x509aa188023356c3u64
        && 0x2a173d1bbd3c6d59u64 ^ 0x63u64 == 0x2a173d1bbd3c6d3au64
        && 0xc1ea10228dad998eu64 ^ 0x74u64 == 0xc1ea10228dad99fau64
        && 0x2e5364b6bdfca3ceu64 ^ 0x6fu64 == 0x2e5364b6bdfca3a1u64
        && 0xb457c384d44a0a93u64 ^ 0x72u64 == 0xb457c384d44a0ae1u64
        && 0xbb2c1bb4b9d07c53u64 ^ 0x33u64 == 0xbb2c1bb4b9d07c60u64) by (bit_vector);
}

proof fn run_vector3()
    ensures
        fnv64_from(bytes_of_vector3(), BASIS) == 0x679f_6c8b_b908_41a3,
{
    let bs = bytes_of_vector3();
    xors_of_vector3();
    assert(bs.skip(0) =~= bs);
    step(bs, 0, 0x56, 0xcbf29ce484222325, 0xcbf29ce484222373, 0xcbf29ce5de, 0xaf640b4c86023c69);
    step(bs, 1, 0x65, 0xaf640b4c86023c69, 0xaf640b4c86023c0c, 0xaf640b4db0, 0x093b3f07b5cc0864);
    step(bs, 2, 0x63, 0x093b3f07b5cc0864, 0x093b3f07b5cc0807, 0x93b3f07c5, 0x7bb42119e9b1a3e5);
    step(bs, 3, 0x74, 0x7bb42119e9b1a3e5, 0x7bb42119e9b1a391, 0x7bb4211abb, 0xe4b7d00818d8ef63);
    step(bs, 4, 0x6f, 0xe4b7d00818d8ef63, 0xe4b7d00818d8ef0c, 0xe4b7d0099d, 0x7d4589c2389e3164);
    step(bs, 5, 0x72, 0x7d4589c2389e3164, 0x7d4589c2389e3116, 0x7d4589c30d, 0x7b5a2b0634cd6862);
    step(bs, 6, 0x33, 0x7b5a2b0634cd6862, 0x7b5a2b0634cd6851, 0x7b5a2b0706, 0x679f6c8bb90841a3);
    assert(bs.skip(7) =~= Seq::empty());
}

proof fn run_array_vector3()
    ensures
        fnv64_from(bytes_of_vector3(), ARRAY_BASIS) == 0xdc6f_7417_bd43_5720,
{
    let bs = bytes_of_vector3();
    xors_of_vector3();
    assert(bs.skip(0) =~= bs);
    step(bs, 0, 0x56, 0x104d4d9bad9d3f94, 0x104d4d9bad9d3fc2, 0x104d4d9bc9, 0x509aa188023356a6);
    step(bs, 1, 0x65, 0x509aa188023356a6, 0x509aa188023356c3, 0x509aa1888b, 0x2a173d1bbd3c6d59);
    step(bs, 2, 0x63, 0x2a173d1bbd3c6d59, 0x2a173d1bbd3c6d3a, 0x2a173d1c04, 0xc1ea10228dad998e);
    step(bs, 3, 0x74, 0xc1ea10228dad998e, 0xc1ea10228dad99fa, 0xc1ea1023d7, 0x2e5364b6bdfca3ce);
    step(bs, 4, 0x6f, 0x2e5364b6bdfca3ce, 0x2e5364b6bdfca3a1, 0x2e5364b70c, 0xb457c384d44a0a93);
    step(bs, 5, 0x72, 0xb457c384d44a0a93, 0xb457c384d44a0ae1, 0xb457c38606, 0xbb2c1bb4b9d07c53);
    step(bs, 6, 0x33, 0xbb2c1bb4b9d07c53, 0xbb2c1bb4b9d07c60, 0xbb2c1bb5f7, 0xdc6f7417bd435720);
    assert(bs.skip(7) =~= Seq::empty());
}

proof fn hash_of_vector3()
    ensures
        type_hash_at(36) == 0x679f_6c8b_b908_41a3,
        type_hash_at(37) == 0xdc6f_7417_bd43_5720,
{
    reveal_strlit("Vector3");
    let bs = bytes_of_vector3();
    lemma_ascii("Vector3"@, bs);
    lemma_array_of("Vector3"@, bs);
    run_vector3();
    run_array_vector3();
}

spec fn bytes_of_gamedatalockeywrapper() -> Seq<u8> {
    seq![0x67u8, 0x61u8, 0x6du8, 0x65u8, 0x64u8, 0x61u8, 0x74u8, 0x61u8, 0x4cu8, 0x6fu8, 0x63u8, 0x4bu8, 0x65u8, 0x79u8, 0x57u8, 0x72u8, 0x61u8, 0x70u8, 0x70u8, 0x65u8, 0x72u8]
}

proof fn xors_of_gamedatalockeywrapper()
    ensures
        0xcbf29ce484222325u64 ^ 0x67u64 == 0xcbf29ce484222342u64,
        0xaf63da4c8601e926u64 ^ 0x61u64 == 0xaf63da4c8601e947u64,
        0x08953707b53f63a5u64 ^ 0x6du64 == 0x08953707b53f63c8u64,
        0xd4f04a18fab68cd8u64 ^ 0x65u64 == 0xd4f04a18fab68cbdu64,
        0x8adaa57204312527u64 ^ 0x64u64 == 0x8adaa57204312543u64,
        0x22ac63bd1f8250d9u64 ^ 0x61u64 == 0x22ac63bd1f8250b8u64,
        0x6d3e325c8a6f28a8u64 ^ 0x74u64 == 0x6d3e325c8a6f28dcu64,
        0x0fd86f3f3ae26dd4u64 ^ 0x61u64 == 0x0fd86f3f3ae26db5u64,
        0xcf32bd710ec06a8fu64 ^ 0x4cu64 == 0xcf32bd710ec06ac3u64,
        0xd3a2aa1c10f56959u64 ^ 0x6fu64 == 0xd3a2aa1c10f56936u64,
        0x92d043b0d101c6c2u64 ^ 0x63u64 == 0x92d043b0d101c6a1u64,
        0x79a9a67326048393u64 ^ 0x4bu64 == 0x79a9a673260483d8u64,
        0xbfc9ada999ac0808u64 ^ 0x65u64 == 0xbfc9ada999ac086du64,
        0x8fba84301f525137u64 ^ 0x79u64 == 0x8fba84301f52514eu64,
        0x8c3febc538e0278au64 ^ 0x57u64 == 0x8c3febc538e027ddu64,
        0x30c57d1fa4e3bc87u64 ^ 0x72u64 == 0x30c57d1fa4e3bcf5u64,
        0xc35091c52efa144fu64 ^ 0x61u64 == 0xc35091c52efa142eu64,
        0xdbfbe00ed2f04a2au64 ^ 0x70u64 == 0xdbfbe00ed2f04a5au64,
        0xbd4813306e4e56eeu64 ^ 0x70u64 == 0xbd4813306e4e569eu64,
        0xefcf394b6f1d2e7au64 ^ 0x65u64 == 0xefcf394b6f1d2e1fu64,
        0x9a4c7a2dce955eadu64 ^ 0x72u64 == 0x9a4c7a2dce955edfu64,
        0x104d4d9bad9d3f94u64 ^ 0x67u64 == 0x104d4d9bad9d3ff3u64,
        0x509ad2880233a9e9u64 ^ 0x61u64 == 0x509ad2880233a988u64,
        0x2abd451bbdc91218u64 ^ 0x6du64 == 0x2abd451bbdc91275u64,
        0x68aee3237caa5ccfu64 ^ 0x65u64 == 0x68aee3237caa5caau64,
        0x8b889f4cd57b74deu64 ^ 0x64u64 == 0x8b889f4cd57b74bau64,
        0x949b698ec0c7580eu64 ^ 0x61u64 == 0x949b698ec0c7586fu64,
        0x4b6ccc9192bb449du64 ^ 0x74u64 == 0x4b6ccc9192bb44e9u64,
        0xe524845c543617ebu64 ^ 0x61u64 == 0xe524845c5436178au64,
        0x932472e317e9ff7eu64 ^ 0x4cu64 == 0x932472e317e9ff32u64,
        0xf0ee69e1a29ca1f6u64 ^ 0x6fu64 == 0xf0ee69e1a29ca199u64,
        0x01bf8367502696fbu64 ^ 0x63u64 == 0x01bf836750269698u64,
        0x1f02e08d3191e448u64 ^ 0x4bu64 == 0x1f02e08d3191e403u64,
        0x43c792eb3ae67119u64 ^ 0x65u64 == 0x43c792eb3ae6717cu64,
        0x129021b51592d5b4u64 ^ 0x79u64 == 0x129021b51592d5cdu64,
        0x1dbf13b3a8814b57u64 ^ 0x57u64 == 0x1dbf13b3a8814b00u64,
        0x0cf97a4753b27100u64 ^ 0x72u64 == 0x0cf97a4753b27172u64,
        0xbe5c39333836c4b6u64 ^ 0x61u64 == 0xbe5c39333836c4d7u64,
        0xad7a090885107955u64 ^ 0x70u64 == 0xad7a090885107925u64,
        0xd6d67e7a1afdd9dfu64 ^ 0x70u64 == 0xd6d67e7a1afdd9afu64,
        0x0c52987bdd58e45du64 ^ 0x65u64 == 0x0c52987bdd58e438u64,
        0x493d52791e0bcb28u64 ^ 0x72u64 == 0x493d52791e0bcb5au64,
{
    assert(0xcbf29ce484222325u64 ^ 0x67u64 == 0xcbf29ce484222342u64
        && 0xaf63da4c8601e926u64 ^ 0x61u64 == 0xaf63da4c8601e947u64
        && 0x08953707b53f63a5u64 ^ 0x6du64 == 0x08953707b53f63c8u64
        && 0xd4f04a18fab68cd8u64 ^ 0x65u64 == 0xd4f04a18fab68cbdu64
        && 0x8adaa57204312527u64 ^ 0x64u64 == 0x8adaa57204312543u64
        && 0x22ac63bd1f8250d9u64 ^ 0x61u64 == 0x22ac63bd1f8250b8u64
        && 0x6d3e325c8a6f28a8u64 ^ 0x74u64 == 0x6d3e325c8a6f28dcu64
        && 0x0fd86f3f3ae26dd4u64 ^ 0x61u64 == 0x0fd86f3f3ae26db5u64
        && 0xcf32bd710ec06a8fu64 ^ 0x4cu64 == 0xcf32bd710ec06ac3u64
        && 0xd3a2aa1c10f56959u64 ^ 0x6fu64 == 0xd3a2aa1c10f56936u64
        && 0x92d043b0d101c6c2u64 ^ 0x63u64 == 0x92d043b0d101c6a1u64
        && 0x79a9a67326048393u64 ^ 0x4bu64 == 0x79a9a673260483d8u64
        && 0xbfc9ada999ac0808u64 ^ 0x65u64 == 0xbfc9ada999ac086du64
        && 0x8fba84301f525137u64 ^ 0x79u64 == 0x8fba84301f52514eu64
        && 0x8c3febc538e0278au64 ^ 0x57u64 == 0x8c3febc538e027ddu64
        && 0x30c57d1fa4e3bc87u64 ^ 0x72u64 == 0x30c57d1fa4e3bcf5u64
        && 0xc35091c52efa144fu64 ^ 0x61u64 == 0xc35091c52efa142eu64
        && 0xdbfbe00ed2f04a2au64 ^ 0x70u64 == 0xdbfbe00ed2f04a5au64
        && 0xbd4813306e4e56eeu64 ^ 0x70u64 == 0xbd4813306e4e569eu64
        && 0xefcf394b6f1d2e7au64 ^ 0x65u64 == 0xefcf394b6f1d2e1fu64
        && 0x9a4c7a2dce955eadu64 ^ 0x72u64 == 0x9a4c7a2dce955edfu64
        && 0x104d4d9bad9d3f94u64 ^ 0x67u64 == 0x104d4d9bad9d3ff3u64
        && 0x509ad2880233a9e9u64 ^ 0x61u64 == 0x509ad2880233a988u64
        && 0x2abd451bbdc91218u64 ^ 0x6du64 == 0x2abd451bbdc91275u64
        && 0x68aee3237caa5ccfu64 ^ 0x65u64 == 0x68aee3237caa5caau64
        && 0x8b889f4cd57b74deu64 ^ 0x64u64 == 0x8b889f4cd57b74bau64
        && 0x949b698ec0c7580eu64 ^ 0x61u64 == 0x949b698ec0c7586fu64
        && 0x4b6ccc9192bb449du64 ^ 0x74u64 == 0x4b6ccc9192bb44e9u64
        && 0xe524845c543617ebu64 ^ 0x61u64 == 0xe524845c5436178au64
        && 0x932472e317e9ff7eu64 ^ 0x4cu64 == 0x932472e317e9ff32u64
        && 0xf0ee69e1a29ca1f6u64 ^ 0x6fu64 == 0xf0ee69e1a29ca199u64
        && 0x01bf8367502696fbu64 ^ 0x63u64 == 0x01bf836750269698u64
        && 0x1f02e08d3191e448u64 ^ 0x4bu64 == 0x1f02e08d3191e403u64
        && 0x43c792eb3ae67119u64 ^ 0x65u64 == 0x43c792eb3ae6717cu64
        && 0x129021b51592d5b4u64 ^ 0x79u64 == 0x129021b51592d5cdu64
        && 0x1dbf13b3a8814b57u64 ^ 0x57u64 == 0x1dbf13b3a8814b00u64
        && 0x0cf97a4753b27100u64 ^ 0x72u64 == 0x0cf97a4753b27172u64
        && 0xbe5c39333836c4b6u64 ^ 0x61u64 == 0xbe5c39333836c4d7u64
        && 0xad7a090885107955u64 ^ 0x70u64 == 0xad7a090885107925u64
        && 0xd6d67e7a1afdd9dfu64 ^ 0x70u64 == 0xd6d67e7a1afdd9afu64
        && 0x0c52987bdd58e45du64 ^ 0x65u64 == 0x0c52987bdd58e438u64
        && 0x493d52791e0bcb28u64 ^ 0x72u64 == 0x493d52791e0bcb5au64) by (bit_vector);
}

proof fn run_gamedatalockeywrapper()
    ensures
        fnv64_from(bytes_of_gamedatalockeywrapper(), BASIS) == 0xc552_7ad6_07d0_34ed,
{
    let bs = bytes_of_gamedatalockeywrapper();
    xors_of_gamedatalockeywrapper();
    assert(bs.skip(0) =~= bs);
    step(bs, 0, 0x67, 0xcbf29ce484222325, 0xcbf29ce484222342, 0xcbf29ce5de, 0xaf63da4c8601e926);
    step(bs, 1, 0x61, 0xaf63da4c8601e926, 0xaf63da4c8601e947, 0xaf63da4db0, 0x08953707b53f63a5);
    step(bs, 2, 0x6d, 0x08953707b53f63a5, 0x08953707b53f63c8, 0x8953707c3, 0xd4f04a18fab68cd8);
    step(bs, 3, 0x65, 0xd4f04a18fab68cd8, 0xd4f04a18fab68cbd, 0xd4f04a1a64, 0x8adaa57204312527);
    step(bs, 4, 0x64, 0x8adaa57204312527, 0x8adaa57204312543, 0x8adaa572f0, 0x22ac63bd1f8250d9);
    step(bs, 5, 0x61, 0x22ac63bd1f8250d9, 0x22ac63bd1f8250b8, 0x22ac63bd5a, 0x6d3e325c8a6f28a8);
    step(bs, 6, 0x74, 0x6d3e325c8a6f28a8, 0x6d3e325c8a6f28dc, 0x6d3e325d44, 0x0fd86f3f3ae26dd4);
    step(bs, 7, 0x61, 0x0fd86f3f3ae26dd4, 0x0fd86f3f3ae26db5, 0xfd86f3f55, 0xcf32bd710ec06a8f);
    step(bs, 8, 0x4c, 0xcf32bd710ec06a8f, 0xcf32bd710ec06ac3, 0xcf32bd726e, 0xd3a2aa1c10f56959);
    step(bs, 9, 0x6f, 0xd3a2aa1c10f56959, 0xd3a2aa1c10f56936, 0xd3a2aa1d78, 0x92d043b0d101c6c2);
    step(bs, 10, 0x63, 0x92d043b0d101c6c2, 0x92d043b0d101c6a1, 0x92d043b1ca, 0x79a9a67326048393);
    step(bs, 11, 0x4b, 0x79a9a67326048393, 0x79a9a673260483d8, 0x79a9a673f4, 0xbfc9ada999ac0808);
    step(bs, 12, 0x65, 0xbfc9ada999ac0808, 0xbfc9ada999ac086d, 0xbfc9adaadf, 0x8fba84301f525137);
    step(bs, 13, 0x79, 0x8fba84301f525137, 0x8fba84301f52514e, 0x8fba843113, 0x8c3febc538e0278a);
    step(bs, 14, 0x57, 0x8c3febc538e0278a, 0x8c3febc538e027dd, 0x8c3febc627, 0x30c57d1fa4e3bc87);
    step(bs, 15, 0x72, 0x30c57d1fa4e3bc87, 0x30c57d1fa4e3bcf5, 0x30c57d1ff7, 0xc35091c52efa144f);
    step(bs, 16, 0x61, 0xc35091c52efa144f, 0xc35091c52efa142e, 0xc35091c67a, 0xdbfbe00ed2f04a2a);
    step(bs, 17, 0x70, 0xdbfbe00ed2f04a2a, 0xdbfbe00ed2f04a5a, 0xdbfbe01048, 0xbd4813306e4e56ee);
    step(bs, 18, 0x70, 0xbd4813306e4e56ee, 0xbd4813306e4e569e, 0xbd481331af, 0xefcf394b6f1d2e7a);
    step(bs, 19, 0x65, 0xefcf394b6f1d2e7a, 0xefcf394b6f1d2e1f, 0xefcf394d06, 0x9a4c7a2dce955ead);
    step(bs, 20, 0x72, 0x9a4c7a2dce955ead, 0x9a4c7a2dce955edf, 0x9a4c7a2ed4, 0xc5527ad607d034ed);
    assert(bs.skip(21) =~= Seq::empty());
}

proof fn run_array_gamedatalockeywrapper()
    ensures
        fnv64_from(bytes_of_gamedatalockeywrapper(), ARRAY_BASIS) == 0x7efe_7dce_0e0a_89ee,
{
    let bs = bytes_of_gamedatalockeywrapper();
    xors_of_gamedatalockeywrapper();
    assert(bs.skip(0) =~= bs);
    step(bs, 0, 0x67, 0x104d4d9bad9d3f94, 0x104d4d9bad9d3ff3, 0x104d4d9bc9, 0x509ad2880233a9e9);
    step(bs, 1, 0x61, 0x509ad2880233a9e9, 0x509ad2880233a988, 0x509ad2888b, 0x2abd451bbdc91218);
    step(bs, 2, 0x6d, 0x2abd451bbdc91218, 0x2abd451bbdc91275, 0x2abd451c06, 0x68aee3237caa5ccf);
    step(bs, 3, 0x65, 0x68aee3237caa5ccf, 0x68aee3237caa5caa, 0x68aee3242e, 0x8b889f4cd57b74de);
    step(bs, 4, 0x64, 0x8b889f4cd57b74de, 0x8b889f4cd57b74ba, 0x8b889f4dc2, 0x949b698ec0c7580e);
    step(bs, 5, 0x61, 0x949b698ec0c7580e, 0x949b698ec0c7586f, 0x949b698fbd, 0x4b6ccc9192bb449d);
    step(bs, 6, 0x74, 0x4b6ccc9192bb449d, 0x4b6ccc9192bb44e9, 0x4b6ccc9212, 0xe524845c543617eb);
    step(bs, 7, 0x61, 0xe524845c543617eb, 0xe524845c5436178a, 0xe524845dd9, 0x932472e317e9ff7e);
    step(bs, 8, 0x4c, 0x932472e317e9ff7e, 0x932472e317e9ff32, 0x932472e411, 0xf0ee69e1a29ca1f6);
    step(bs, 9, 0x6f, 0xf0ee69e1a29ca1f6, 0xf0ee69e1a29ca199, 0xf0ee69e33c, 0x01bf8367502696fb);
    step(bs, 10, 0x63, 0x01bf8367502696fb, 0x01bf836750269698, 0x1bf836753, 0x1f02e08d3191e448);
    step(bs, 11, 0x4b, 0x1f02e08d3191e448, 0x1f02e08d3191e403, 0x1f02e08d66, 0x43c792eb3ae67119);
    step(bs, 12, 0x65, 0x43c792eb3ae67119, 0x43c792eb3ae6717c, 0x43c792ebae, 0x129021b51592d5b4);
    step(bs, 13, 0x79, 0x129021b51592d5b4, 0x129021b51592d5cd, 0x129021b535, 0x1dbf13b3a8814b57);
    step(bs, 14, 0x57, 0x1dbf13b3a8814b57, 0x1dbf13b3a8814b00, 0x1dbf13b3db, 0x0cf97a4753b27100);
    step(bs, 15, 0x72, 0x0cf97a4753b27100, 0x0cf97a4753b27172, 0xcf97a4769, 0xbe5c39333836c4b6);
    step(bs, 16, 0x61, 0xbe5c39333836c4b6, 0xbe5c39333836c4d7, 0xbe5c39347b, 0xad7a090885107955);
    step(bs, 17, 0x70, 0xad7a090885107955, 0xad7a090885107925, 0xad7a0909ab, 0xd6d67e7a1afdd9df);
    step(bs, 18, 0x70, 0xd6d67e7a1afdd9df, 0xd6d67e7a1afdd9af, 0xd6d67e7b88, 0x0c52987bdd58e45d);
    step(bs, 19, 0x65, 0x0c52987bdd58e45d, 0x0c52987bdd58e438, 0xc52987bf2, 0x493d52791e0bcb28);
    step(bs, 20, 0x72, 0x493d52791e0bcb28, 0x493d52791e0bcb5a, 0x493d52799a, 0x7efe7dce0e0a89ee);
    assert(bs.skip(21) =~= Seq::empty());
}

proof fn hash_of_gamedatalockeywrapper()
    ensures
        type_hash_at(38) == 0xc552_7ad6_07d0_34ed,
        type_hash_at(39) == 0x7efe_7dce_0e0a_89ee,
{
    reveal_strlit("gamedataLocKeyWrapper");
    let bs = bytes_of_gamedatalockeywrapper();
    lemma_ascii("gamedataLocKeyWrapper"@, bs);
    lemma_array_of("gamedataLocKeyWrapper"@, bs);
    run_gamedatalockeywrapper();
    run_array_gamedatalockeywrapper();
}

/// The hash of each type, then of its array, in the order of the types.
pub open spec fn computed_hash(k: int) -> u64 {
    if k == 0 {
        0xa5e2_3de2_a265_7af9
    } else if k == 1 {
        0x24d1_e72a_8bbe_64d6
    } else if k == 2 {
        0x58b4_b3ec_d4eb_6238
    } else if k == 3 {
        0x91e8_6ab1_5387_7615
    } else if k == 4 {
        0x4072_151f_f3dc_f7bc
    } else if k == 5 {
        0x2e57_de74_8521_342f
    } else if k == 6 {
        0xaf78_d916_d59a_1e5e
    } else if k == 7 {
        0xbf98_c025_23e2_073d
    } else if k == 8 {
        0xb64f_4a0a_ccc8_a8c5
    } else if k == 9 {
        0xba0e_f953_a501_8666
    } else if k == 10 {
        0xf7bd_d5a7_c820_889d
    } else if k == 11 {
        0x272d_3f5d_bede_c48c
    } else if k == 12 {
        0xf4ba_668b_6364_8a5b
    } else if k == 13 {
        0x90f6_8483_8943_52ec
    } else if k == 14 {
        0x3d28_19d9_e3bd_4192
    } else if k == 15 {
        0x9654_7782_3d7f_87b3
    } else if k == 16 {
        0x3d2e_9dd9_e3c2_8d8c
    } else if k == 17 {
        0x965b_8b82_3d85_c85d
    } else if k == 18 {
        0x3d3f_99d9_e3d0_f9f3
    } else if k == 19 {
        0x964a_8782_3d77_4e5e
    } else if k == 20 {
        0x2034_7ed1_7c00_5612
    } else if k == 21 {
        0x62d8_3e99_27ac_5caf
    } else if k == 22 {
        0xb9a8_33f5_b4ac_54d1
    } else if k == 23 {
        0xa1e6_e53e_69f5_cb46
    } else if k == 24 {
        0xb9a1_27f5_b4a6_21bf
    } else if k == 25 {
        0xa1ed_713e_69fb_24d8
    } else if k == 26 {
        0xb990_2ff5_b497_bc24
    } else if k == 27 {
        0xa1e3_653e_69f2_bbef
    } else if k == 28 {
        0x344e_a8f4_939c_dc98
    } else if k == 29 {
        0xa3de_4a30_7429_b07b
    } else if k == 30 {
        0x5274_59e8_b7d4_f756
    } else if k == 31 {
        0xa825_7bc6_3121_33e9
    } else if k == 32 {
        0xf1c0_252c_ffe2_75cd
    } else if k == 33 {
        0xcc7f_cbfa_7f58_7c5c
    } else if k == 34 {
        0x679f_6b8b_b908_3ff0
    } else if k == 35 {
        0xdc6f_7517_bd43_58d3
    } else if k == 36 {
        0x679f_6c8b_b908_41a3
    } else if k == 37 {
        0xdc6f_7417_bd43_5720
    } else if k == 38 {
        0xc552_7ad6_07d0_34ed
    } else {
        0x7efe_7dce_0e0a_89ee
    }
}

/// The hashes of the types are these.
pub proof fn type_hashes_are_computed(k: int)
    requires
        0 <= k < 40,
    ensures
        type_hash_at(k) == computed_hash(k),
{
    if k < 2 {
        hash_of_cname();
    } else if k < 4 {
        hash_of_string();
    } else if k < 6 {
        hash_of_tweakdbid();
    } else if k < 8 {
        hash_of_raref_cresource();
    } else if k < 10 {
        hash_of_float();
    } else if k < 12 {
        hash_of_bool();
    } else if k < 14 {
        hash_of_uint8();
    } else if k < 16 {
        hash_of_uint16();
    } else if k < 18 {
        hash_of_uint32();
    } else if k < 20 {
        hash_of_uint64();
    } else if k < 22 {
        hash_of_int8();
    } else if k < 24 {
        hash_of_int16();
    } else if k < 26 {
        hash_of_int32();
    } else if k < 28 {
        hash_of_int64();
    } else if k < 30 {
        hash_of_color();
    } else if k < 32 {
        hash_of_eulerangles();
    } else if k < 34 {
        hash_of_quaternion();
    } else if k < 36 {
        hash_of_vector2();
    } else if k < 38 {
        hash_of_vector3();
    } else if k < 40 {
        hash_of_gamedatalockeywrapper();
    }
}

/// No two of the forty hashes are equal, so that each leads to its own type.
pub proof fn type_hashes_are_distinct(i: int, j: int)
    requires
        0 <= i < 40,
        0 <= j < 40,
        i != j,
    ensures
        type_hash_at(i) != type_hash_at(j),
{
    type_hashes_are_computed(i);
    type_hashes_are_computed(j);
    lemma_ranks(i);
    lemma_ranks(j);
}

/// Where a hash stands among the forty, by size.
spec fn rank(h: u64) -> int {
    if h == 0xa5e2_3de2_a265_7af9 {
        0
    } else if h == 0x24d1_e72a_8bbe_64d6 {
        1
    } else if h == 0x58b4_b3ec_d4eb_6238 {
        2
    } else if h == 0x91e8_6ab1_5387_7615 {
        3
    } else if h == 0x4072_151f_f3dc_f7bc {
        4
    } else if h == 0x2e57_de74_8521_342f {
        5
    } else if h == 0xaf78_d916_d59a_1e5e {
        6
    } else if h == 0xbf98_c025_23e2_073d {
        7
    } else if h == 0xb64f_4a0a_ccc8_a8c5 {
        8
    } else if h == 0xba0e_f953_a501_8666 {
        9
    } else if h == 0xf7bd_d5a7_c820_889d {
        10
    } else if h == 0x272d_3f5d_bede_c48c {
        11
    } else if h == 0xf4ba_668b_6364_8a5b {
        12
    } else if h == 0x90f6_8483_8943_52ec {
        13
    } else if h == 0x3d28_19d9_e3bd_4192 {
        14
    } else if h == 0x9654_7782_3d7f_87b3 {
        15
    } else if h == 0x3d2e_9dd9_e3c2_8d8c {
        16
    } else if h == 0x965b_8b82_3d85_c85d {
        17
    } else if h == 0x3d3f_99d9_e3d0_f9f3 {
        18
    } else if h == 0x964a_8782_3d77_4e5e {
        19
    } else if h == 0x2034_7ed1_7c00_5612 {
        20
    } else if h == 0x62d8_3e99_27ac_5caf {
        21
    } else if h == 0xb9a8_33f5_b4ac_54d1 {
        22
    } else if h == 0xa1e6_e53e_69f5_cb46 {
        23
    } else if h == 0xb9a1_27f5_b4a6_21bf {
        24
    } else if h == 0xa1ed_713e_69fb_24d8 {
        25
    } else if h == 0xb990_2ff5_b497_bc24 {
        26
    } else if h == 0xa1e3_653e_69f2_bbef {
        27
    } else if h == 0x344e_a8f4_939c_dc98 {
        28
    } else if h == 0xa3de_4a30_7429_b07b {
        29
    } else if h == 0x5274_59e8_b7d4_f756 {
        30
    } else if h == 0xa825_7bc6_3121_33e9 {
        31
    } else if h == 0xf1c0_252c_ffe2_75cd {
        32
    } else if h == 0xcc7f_cbfa_7f58_7c5c {
        33
    } else if h == 0x679f_6b8b_b908_3ff0 {
        34
    } else if h == 0xdc6f_7517_bd43_58d3 {
        35
    } else if h == 0x679f_6c8b_b908_41a3 {
        36
    } else if h == 0xdc6f_7417_bd43_5720 {
        37
    } else if h == 0xc552_7ad6_07d0_34ed {
        38
    } else if h == 0x7efe_7dce_0e0a_89ee {
        39
    } else {
        -1
    }
}

/// The rank of each of the forty is its own.
proof fn lemma_ranks(k: int)
    requires
        0 <= k < 40,
    ensures
        rank(computed_hash(k)) == k,
{
}

/// Every type is found by its hash.
pub proof fn types_are_found_by_their_hashes(k: int)
    requires
        0 <= k < 40,
    ensures
        type_with_hash(type_hash_at(k), 0) == Some(
            ResolvedType { index: (k / 2) as usize, is_array: k % 2 == 1 },
        ),
{
    lemma_found(k, 0);
}

proof fn lemma_found(k: int, from: int)
    requires
        0 <= from <= k < 40,
    ensures
        type_with_hash(type_hash_at(k), from) == Some(
            ResolvedType { index: (k / 2) as usize, is_array: k % 2 == 1 },
        ),
    decreases k - from,
{
    if from < k {
        type_hashes_are_distinct(from, k);
        lemma_found(k, from + 1);
    }
}

} // verus!
