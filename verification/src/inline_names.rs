//! When the names of inline records differ: hashes of texts that are one byte apart
//! are never equal.
use vstd::arithmetic::div_mod::{
    lemma_mod_multiples_vanish, lemma_mul_mod_noop_left, lemma_small_mod,
};
use vstd::prelude::*;
use vstd::utf8::encode_utf8;

use crate::hashes::fnv32_from;
use crate::text::dec;
use crate::tweakxl::{
    inline_key, inline_names_differ, inline_seed, name_hash, named_inline,
    occurrences, StateV,
};

verus! {

/// The factor of a hash has an inverse, so that no two products are equal.
proof fn lemma_product_differs(x: u32, y: u32)
    requires
        x != y,
    ensures
        x.wrapping_mul(0x0100_0193) != y.wrapping_mul(0x0100_0193),
{
    lemma_undone(x);
    lemma_undone(y);
}

proof fn lemma_undone(x: u32)
    ensures
        (x.wrapping_mul(0x0100_0193) as int * 0x359c449b) % 0x1_0000_0000 == x,
{
    let m: int = 0x1_0000_0000;
    let xi = x as int;
    lemma_mul_mod_noop_left(xi * 0x0100_0193, 0x359c449b, m);
    assert((xi * 0x0100_0193) * 0x359c449b == m * (xi * 0x359c99) + xi) by (nonlinear_arith)
        requires
            m == 0x1_0000_0000,
    ;
    lemma_mod_multiples_vanish(xi * 0x359c99, xi, m);
    lemma_small_mod(x as nat, m as nat);
}

/// One more byte keeps hashes apart.
proof fn lemma_step_differs(g: u32, h: u32, b: u8)
    requires
        g != h,
    ensures
        (g ^ (b as u32)).wrapping_mul(0x0100_0193) != (h ^ (b as u32)).wrapping_mul(0x0100_0193),
{
    let c = b as u32;
    assert((g ^ c) != (h ^ c)) by (bit_vector)
        requires
            g != h,
    ;
    lemma_product_differs(g ^ c, h ^ c);
}

/// Hashes of texts of the same length that differ in one byte are never equal.
pub proof fn one_byte_makes_another_hash(p: Seq<u8>, x: u8, y: u8, s: Seq<u8>, basis: u32)
    requires
        x != y,
    ensures
        fnv32_from(p + seq![x] + s, basis) != fnv32_from(p + seq![y] + s, basis),
    decreases s.len(),
{
    let a = p + seq![x] + s;
    let b = p + seq![y] + s;
    if s.len() == 0 {
        let h = fnv32_from(p, basis);
        let (c, d) = (x as u32, y as u32);
        assert((h ^ c) != (h ^ d)) by (bit_vector)
            requires
                c != d,
        ;
        assert(a.drop_last() =~= p && a.last() == x);
        assert(b.drop_last() =~= p && b.last() == y);
        lemma_product_differs(h ^ c, h ^ d);
    } else {
        let front = s.drop_last();
        one_byte_makes_another_hash(p, x, y, front, basis);
        assert(a.drop_last() =~= p + seq![x] + front && a.last() == s.last());
        assert(b.drop_last() =~= p + seq![y] + front && b.last() == s.last());
        lemma_step_differs(
            fnv32_from(p + seq![x] + front, basis),
            fnv32_from(p + seq![y] + front, basis),
            s.last(),
        );
    }
}

proof fn lemma_encode_both(a: Seq<char>, b: Seq<char>)
    ensures
        encode_utf8(a + b) == encode_utf8(a) + encode_utf8(b),
    decreases a.len(),
{
    if a.len() == 0 {
        assert(a + b =~= b);
        assert(encode_utf8(a) =~= Seq::empty());
        assert(Seq::<u8>::empty() + encode_utf8(b) =~= encode_utf8(b));
    } else {
        lemma_encode_both(a.drop_first(), b);
        assert((a + b).drop_first() =~= a.drop_first() + b);
        assert(encode_utf8(a + b) =~= encode_utf8(a) + encode_utf8(b));
    }
}

/// The byte of a digit.
proof fn lemma_digit(n: nat)
    requires
        n < 10,
    ensures
        encode_utf8(dec(n)) == seq![(48 + n) as u8],
{
    let s = dec(n);
    vstd::utf8::is_ascii_chars_encode_utf8(s);
    assert(encode_utf8(s) =~= seq![(48 + n) as u8]);
}

/// The first ten items of a list have names of their own: two of them that were
/// numbered equally never share one.
pub proof fn items_of_a_list_differ(
    source: Seq<char>,
    parent: Seq<char>,
    kind: Seq<char>,
    i: nat,
    j: nat,
    first: StateV,
    later: StateV,
)
    requires
        i < 10,
        j < 10,
        i != j,
        occurrences(first.numbered, inline_seed(source, parent, kind, Some(i))) == occurrences(
            later.numbered,
            inline_seed(source, parent, kind, Some(j)),
        ),
    ensures
        named_inline(source, parent, kind, Some(i), first).0 != named_inline(
            source,
            parent,
            kind,
            Some(j),
            later,
        ).0,
{
    let m = occurrences(first.numbered, inline_seed(source, parent, kind, Some(i))) + 1;
    let base = source + "|"@ + parent + "|"@ + kind + "|"@;
    let tail = "|"@ + dec(m);
    let a = inline_key(source, parent, kind, Some(i), first);
    let b = inline_key(source, parent, kind, Some(j), later);
    assert(a =~= base + dec(i) + tail);
    assert(b =~= base + dec(j) + tail);
    lemma_encode_both(base + dec(i), tail);
    lemma_encode_both(base + dec(j), tail);
    lemma_encode_both(base, dec(i));
    lemma_encode_both(base, dec(j));
    lemma_digit(i);
    lemma_digit(j);
    one_byte_makes_another_hash(
        encode_utf8(base),
        (48 + i) as u8,
        (48 + j) as u8,
        encode_utf8(tail),
        0x811c_9dc5,
    );
    assert(name_hash(a) != name_hash(b));
    inline_names_differ(parent, a, b);
}

} // verus!
