//! What a text denotes as a value of a type: numbers, truth values, names, ids and
//! colours, as their bytes.
use vstd::prelude::*;

use crate::cursor::{le_bytes, string_bytes};
use crate::database_laws::patterns;
use crate::encode::{
    bare, channel_values, encoded, float_bytes, hex_pair, id_value, lowercase, plain_id,
};
use crate::hashes::id_of;
use crate::number_laws::{
    decimal_digits_read_back, digits_count, hexadecimal_digits_read_back, pow16,
};
use crate::numbers::{all_digits, digit_value, digits_value, unsigned_within};
use crate::text::{
    after_prefix, byte_width, dec, dec_int, has_prefix, hex_digit_upper, hex_lower, hex_upper,
    is_space, joined, next_index, trimmed,
};
use crate::text_laws::joined_texts_split_back;

verus! {

/// Text with something at both ends.
pub open spec fn firm(s: Seq<char>) -> bool {
    s.len() > 0 && !is_space(s[0]) && !is_space(s.last())
}

proof fn lemma_firm(s: Seq<char>)
    requires
        firm(s),
    ensures
        trimmed(s) == s,
{
}

proof fn lemma_dec_chars(n: nat)
    ensures
        dec(n).len() > 0,
        forall|i: int| 0 <= i < dec(n).len() ==> '0' <= #[trigger] dec(n)[i] <= '9',
        firm(dec(n)),
    decreases n,
{
    let s = dec(n);
    if n >= 10 {
        lemma_dec_chars(n / 10);
        assert forall|i: int| 0 <= i < s.len() implies '0' <= #[trigger] s[i] <= '9' by {
            if i < s.len() - 1 {
                assert(s[i] == dec(n / 10)[i]);
            }
        }
    }
    assert('0' <= s[0] <= '9');
    assert('0' <= s[s.len() - 1] <= '9');
}

// ---- numbers ---------------------------------------------------------------

/// A whole number that is written in decimal is its bytes, low byte first, as wide
/// as its type; one that its type cannot hold is an error.
pub proof fn numbers_are_their_bytes(n: nat)
    ensures
        n < 0x100 ==> encoded(6, dec(n)) == Ok::<Seq<u8>, Seq<char>>(le_bytes(n, 1)),
        n < 0x1_0000 ==> encoded(7, dec(n)) == Ok::<Seq<u8>, Seq<char>>(le_bytes(n, 2)),
        n < 0x1_0000_0000 ==> encoded(8, dec(n)) == Ok::<Seq<u8>, Seq<char>>(le_bytes(n, 4)),
        n < 0x1_0000_0000_0000_0000 ==> encoded(9, dec(n)) == Ok::<Seq<u8>, Seq<char>>(
            le_bytes(n, 8),
        ),
        n >= 0x100 ==> encoded(6, dec(n)) is Err,
        n >= 0x1_0000 ==> encoded(7, dec(n)) is Err,
        n >= 0x1_0000_0000 ==> encoded(8, dec(n)) is Err,
        n >= 0x1_0000_0000_0000_0000 ==> encoded(9, dec(n)) is Err,
{
    lemma_dec_chars(n);
    lemma_firm(dec(n));
    decimal_digits_read_back(n, 0xff, 0, 0, 0);
    decimal_digits_read_back(n, 0xffff, 0, 0, 0);
    decimal_digits_read_back(n, 0xffff_ffff, 0, 0, 0);
    decimal_digits_read_back(n, 0xffff_ffff_ffff_ffff, 0, 0, 0);
}

/// A signed number is its bytes in two's complement.
pub proof fn signed_numbers_are_their_bytes(v: int)
    ensures
        -0x80 <= v < 0x80 ==> encoded(10, dec_int(v)) == Ok::<Seq<u8>, Seq<char>>(
            le_bytes((if v < 0 { v + 0x100 } else { v }) as nat, 1),
        ),
        -0x8000 <= v < 0x8000 ==> encoded(11, dec_int(v)) == Ok::<Seq<u8>, Seq<char>>(
            le_bytes((if v < 0 { v + 0x1_0000 } else { v }) as nat, 2),
        ),
        -0x8000_0000 <= v < 0x8000_0000 ==> encoded(12, dec_int(v)) == Ok::<Seq<u8>, Seq<char>>(
            le_bytes((if v < 0 { v + 0x1_0000_0000 } else { v }) as nat, 4),
        ),
        -0x8000_0000_0000_0000 <= v < 0x8000_0000_0000_0000 ==> encoded(13, dec_int(v)) == Ok::<
            Seq<u8>,
            Seq<char>,
        >(le_bytes((if v < 0 { v + 0x1_0000_0000_0000_0000 } else { v }) as nat, 8)),
        !(-0x80 <= v < 0x80) ==> encoded(10, dec_int(v)) is Err,
        !(-0x8000 <= v < 0x8000) ==> encoded(11, dec_int(v)) is Err,
        !(-0x8000_0000 <= v < 0x8000_0000) ==> encoded(12, dec_int(v)) is Err,
        !(-0x8000_0000_0000_0000 <= v < 0x8000_0000_0000_0000) ==> encoded(13, dec_int(v)) is Err,
{
    let m = (if v < 0 { -v } else { v }) as nat;
    lemma_dec_chars(m);
    let s = dec_int(v);
    if v < 0 {
        assert(s[0] == '-');
        assert(s.last() == dec(m).last());
    }
    lemma_firm(s);
    decimal_digits_read_back(0, 0, v, -0x80, 0x7f);
    decimal_digits_read_back(0, 0, v, -0x8000, 0x7fff);
    decimal_digits_read_back(0, 0, v, -0x8000_0000, 0x7fff_ffff);
    decimal_digits_read_back(0, 0, v, -0x8000_0000_0000_0000, 0x7fff_ffff_ffff_ffff);
}

/// A truth value is `true` or `1`, `false` or `0`, in any case of letters, and
/// nothing else.
pub proof fn truth_values_are_words(s: Seq<char>)
    requires
        firm(s),
    ensures
        lowercase(s) == "true"@ || s == "1"@ ==> encoded(5, s) == Ok::<Seq<u8>, Seq<char>>(
            seq![1u8],
        ),
        lowercase(s) == "false"@ || s == "0"@ ==> encoded(5, s) == Ok::<Seq<u8>, Seq<char>>(
            seq![0u8],
        ),
        encoded(5, s) is Ok ==> lowercase(s) == "true"@ || lowercase(s) == "1"@ || lowercase(s)
            == "false"@ || lowercase(s) == "0"@,
{
    lemma_firm(s);
    reveal_strlit("1");
    reveal_strlit("0");
    reveal_strlit("true");
    reveal_strlit("false");
    assert("1"@.len() == 1 && "1"@[0] == '1');
    assert("0"@.len() == 1 && "0"@[0] == '0');
    assert("true"@.len() == 4);
    assert("false"@.len() == 5);
    if s == "1"@ {
        assert(lowercase(s) =~= "1"@);
    }
    if s == "0"@ {
        assert(lowercase(s) =~= "0"@);
    }
}

// ---- names -----------------------------------------------------------------

proof fn lemma_prefix(t: Seq<char>, p: Seq<char>)
    requires
        p.len() > 0,
    ensures
        has_prefix(t, p) ==> t.len() > 0 && t[0] == p[0],
{
    if has_prefix(t, p) {
        assert(t.take(p.len() as int)[0] == t[0]);
    }
}

proof fn lemma_has_prefix(p: Seq<char>, r: Seq<char>)
    ensures
        has_prefix(p + r, p),
        after_prefix(p + r, p) == Some(r),
{
    assert((p + r).take(p.len() as int) =~= p);
    assert((p + r).skip(p.len() as int) =~= r);
}

/// A text between double or single quotes.
pub open spec fn between_quotes(double: bool, s: Seq<char>) -> Seq<char> {
    let q = if double {
        '"'
    } else {
        '\''
    };
    seq![q] + s + seq![q]
}

proof fn lemma_between_quotes(double: bool, s: Seq<char>)
    ensures
        bare(between_quotes(double, s)) == s,
        firm(between_quotes(double, s)),
        between_quotes(double, s)[0] == '"' || between_quotes(double, s)[0] == '\'',
{
    let t = between_quotes(double, s);
    lemma_firm(t);
    assert(t.subrange(1, t.len() - 1) =~= s);
}

/// A name is the text between the quotes of `n"..."` or `CName("...")`, or the text
/// itself.
pub proof fn names_are_what_stands_between(double: bool, s: Seq<char>)
    ensures
        encoded(0, seq!['n'] + between_quotes(double, s)) == Ok::<Seq<u8>, Seq<char>>(
            string_bytes(s),
        ),
        encoded(0, "CName("@ + between_quotes(double, s) + seq![')']) == Ok::<Seq<u8>, Seq<char>>(
            string_bytes(s),
        ),
        firm(s) && s[0] != 'n' && s[0] != 'C' ==> encoded(0, s) == Ok::<Seq<u8>, Seq<char>>(
            string_bytes(s),
        ),
        firm(s) ==> encoded(1, s) == Ok::<Seq<u8>, Seq<char>>(string_bytes(s)),
{
    reveal_strlit("n");
    reveal_strlit("CName(");
    assert("n"@ =~= seq!['n']);
    assert("CName("@.len() == 6 && "CName("@[0] == 'C');
    let q = between_quotes(double, s);
    lemma_between_quotes(double, s);
    lemma_firm(q);
    let a = seq!['n'] + q;
    assert(a.last() == q.last());
    lemma_firm(a);
    lemma_has_prefix("n"@, q);
    let b = "CName("@ + q + seq![')'];
    lemma_firm(b);
    lemma_prefix(b, "n"@);
    assert(b =~= "CName("@ + (q + seq![')']));
    lemma_has_prefix("CName("@, q + seq![')']);
    assert((q + seq![')']).drop_last() =~= q);
    if firm(s) {
        lemma_firm(s);
        lemma_prefix(s, "n"@);
        lemma_prefix(s, "CName("@);
    }
}

// ---- ids -------------------------------------------------------------------

proof fn lemma_markers()
    ensures
        "None"@.len() == 4 && "None"@[0] == 'N',
        "r\""@.len() == 2 && "r\""@[0] == 'r',
        "r'"@.len() == 2 && "r'"@[0] == 'r',
        "ResRef("@.len() == 7 && "ResRef("@[0] == 'R',
        "t"@ == seq!['t'],
        "TweakDBID("@.len() == 10 && "TweakDBID("@[0] == 'T',
        "LocKey#"@.len() == 7 && "LocKey#"@[0] == 'L',
        "<TDBID:"@.len() == 7 && "<TDBID:"@[0] == '<',
        "0x"@ == seq!['0', 'x'],
        "0X"@ == seq!['0', 'X'],
{
    reveal_strlit("None");
    reveal_strlit("r\"");
    reveal_strlit("r'");
    reveal_strlit("ResRef(");
    reveal_strlit("t");
    reveal_strlit("TweakDBID(");
    reveal_strlit("LocKey#");
    reveal_strlit("<TDBID:");
    reveal_strlit("0x");
    reveal_strlit("0X");
    assert("t"@ =~= seq!['t']);
    assert("0x"@ =~= seq!['0', 'x']);
    assert("0X"@ =~= seq!['0', 'X']);
}

/// An id is the hash of the name that stands behind `$`, or between the quotes of
/// `t"..."` or `TweakDBID("...")`.
pub proof fn ids_are_the_hashes_of_names(double: bool, s: Seq<char>)
    ensures
        s.len() > 0 && !is_space(s.last()) ==> id_value(seq!['$'] + s) == Ok::<u64, Seq<char>>(
            id_of(s),
        ),
        id_value(seq!['t'] + between_quotes(double, s)) == Ok::<u64, Seq<char>>(id_of(s)),
        id_value("TweakDBID("@ + between_quotes(double, s) + seq![')']) == Ok::<u64, Seq<char>>(
            id_of(s),
        ),
{
    lemma_markers();
    let a = seq!['$'] + s;
    if s.len() > 0 && !is_space(s.last()) {
        assert(a.last() == s.last());
        lemma_firm(a);
        lemma_other(a);
        assert(a.skip(1) =~= s);
    }
    let q = between_quotes(double, s);
    lemma_between_quotes(double, s);
    lemma_firm(q);
    let b = seq!['t'] + q;
    assert(b.last() == q.last());
    lemma_firm(b);
    lemma_other(b);
    lemma_has_prefix("t"@, q);
    let c = "TweakDBID("@ + q + seq![')'];
    assert(c[0] == 'T');
    assert(c.last() == ')');
    lemma_firm(c);
    lemma_other(c);
    lemma_prefix(c, "t"@);
    assert(c =~= "TweakDBID("@ + (q + seq![')']));
    lemma_has_prefix("TweakDBID("@, q + seq![')']);
    assert((q + seq![')']).drop_last() =~= q);
}

/// What starts neither with `N` nor with `r` nor with `R` is not nothing and no path.
proof fn lemma_other(t: Seq<char>)
    requires
        t.len() > 0,
        t[0] != 'N' && t[0] != 'r' && t[0] != 'R',
    ensures
        t != "None"@,
        !has_prefix(t, "r\""@),
        !has_prefix(t, "r'"@),
        !has_prefix(t, "ResRef("@),
{
    lemma_markers();
    lemma_prefix(t, "r\""@);
    lemma_prefix(t, "r'"@);
    lemma_prefix(t, "ResRef("@);
}

/// What starts with a figure is a plain id.
proof fn lemma_plain(t: Seq<char>)
    requires
        firm(t),
        '0' <= t[0] <= '9',
    ensures
        id_value(t) == plain_id(t),
{
    lemma_markers();
    lemma_firm(t);
    lemma_other(t);
    lemma_prefix(t, "t"@);
    lemma_prefix(t, "TweakDBID("@);
    lemma_prefix(t, "LocKey#"@);
    lemma_prefix(t, "<TDBID:"@);
}

/// An id that is written as a number, in decimal or behind `0x` in hexadecimal, or
/// as a key of a text behind `LocKey#`, is that number; nothing, or `None`, is no id.
pub proof fn ids_are_numbers(n: nat)
    requires
        n < 0x1_0000_0000_0000_0000,
    ensures
        id_value(dec(n)) == Ok::<u64, Seq<char>>(n as u64),
        id_value(seq!['0', 'x'] + hex_lower(n, 16)) == Ok::<u64, Seq<char>>(n as u64),
        id_value(seq!['0', 'X'] + hex_upper(n, 16)) == Ok::<u64, Seq<char>>(n as u64),
        id_value("LocKey#"@ + dec(n)) == Ok::<u64, Seq<char>>(n as u64),
        id_value(Seq::empty()) == Ok::<u64, Seq<char>>(0),
        id_value("None"@) == Ok::<u64, Seq<char>>(0),
{
    lemma_markers();
    let d = dec(n);
    lemma_dec_chars(n);
    lemma_firm(d);
    lemma_plain(d);
    decimal_digits_read_back(n, 0xffff_ffff_ffff_ffff, 0, 0, 0);
    assert(!has_prefix(d, "0x"@) && !has_prefix(d, "0X"@)) by {
        if d.len() > 1 {
            assert('0' <= d[1] <= '9');
            assert(has_prefix(d, "0x"@) ==> d.take(2)[1] == 'x');
            assert(has_prefix(d, "0X"@) ==> d.take(2)[1] == 'X');
        }
    }
    lemma_hex_id(n);
    let l = "LocKey#"@ + d;
    assert(l[0] == 'L');
    assert(l.last() == d.last());
    lemma_firm(l);
    lemma_other(l);
    lemma_prefix(l, "t"@);
    lemma_prefix(l, "TweakDBID("@);
    lemma_has_prefix("LocKey#"@, d);
    assert(trimmed(Seq::<char>::empty()) =~= Seq::<char>::empty());
    reveal_strlit("None");
    assert("None"@.last() == 'e');
    lemma_firm("None"@);
}

proof fn lemma_pow16()
    ensures
        pow16(16) == 0x1_0000_0000_0000_0000,
        pow16(2) == 0x100,
        pow16(8) == 0x1_0000_0000,
{
    reveal_with_fuel(pow16, 17);
}

proof fn lemma_hex_digits(h: Seq<char>, n: nat, max: nat)
    requires
        h.len() > 0,
        forall|i: int| 0 <= i < h.len() ==> digit_value(#[trigger] h[i]) < 16,
        digits_value(h, 16) == n,
        n <= max,
    ensures
        unsigned_within(h, 16, max) == Some(n),
        firm(h),
{
    assert(digit_value(h[0]) < 16);
    assert(digit_value(h[h.len() - 1]) < 16);
    assert(h[0] != '+');
    assert(all_digits(h, 16));
}

proof fn lemma_hex_id(n: nat)
    requires
        n < 0x1_0000_0000_0000_0000,
    ensures
        id_value(seq!['0', 'x'] + hex_lower(n, 16)) == Ok::<u64, Seq<char>>(n as u64),
        id_value(seq!['0', 'X'] + hex_upper(n, 16)) == Ok::<u64, Seq<char>>(n as u64),
{
    lemma_markers();
    lemma_pow16();
    hexadecimal_digits_read_back(n, 16);
    let lo = hex_lower(n, 16);
    let up = hex_upper(n, 16);
    assert forall|i: int| 0 <= i < lo.len() implies digit_value(#[trigger] lo[i]) < 16 by {
        assert(digit_value(up[i]) < 16);
    }
    lemma_hex_digits(lo, n, 0xffff_ffff_ffff_ffff);
    lemma_hex_digits(up, n, 0xffff_ffff_ffff_ffff);
    let a = seq!['0', 'x'] + lo;
    let b = seq!['0', 'X'] + up;
    assert(a.last() == lo.last());
    assert(b.last() == up.last());
    lemma_plain(a);
    lemma_plain(b);
    lemma_has_prefix("0x"@, lo);
    lemma_has_prefix("0X"@, up);
    if has_prefix(b, "0x"@) {
        assert(b.take(2)[1] == 'x');
    }
}

/// An id as it is printed, `<TDBID:hash:length>` in hexadecimal, is that hash with
/// the length above it.
pub proof fn printed_ids_read_back(h: nat, n: nat)
    requires
        h < 0x1_0000_0000,
        n < 0x100,
    ensures
        id_value("<TDBID:"@ + hex_upper(h, 8) + seq![':'] + hex_upper(n, 2) + seq!['>']) == Ok::<
            u64,
            Seq<char>,
        >((h + 0x1_0000_0000 * n) as u64),
{
    lemma_markers();
    lemma_pow16();
    hexadecimal_digits_read_back(h, 8);
    hexadecimal_digits_read_back(n, 2);
    let a = hex_upper(h, 8);
    let b = hex_upper(n, 2);
    lemma_hex_digits(a, h, 0xffff_ffff);
    lemma_hex_digits(b, n, 0xff);
    lemma_firm(a);
    lemma_firm(b);
    let inner = a + seq![':'] + b;
    let t = "<TDBID:"@ + a + seq![':'] + b + seq!['>'];
    assert(t =~= "<TDBID:"@ + (inner + seq!['>']));
    assert(t[0] == '<');
    assert(t.last() == '>');
    lemma_firm(t);
    lemma_other(t);
    lemma_prefix(t, "t"@);
    lemma_prefix(t, "TweakDBID("@);
    lemma_prefix(t, "LocKey#"@);
    lemma_has_prefix("<TDBID:"@, inner + seq!['>']);
    assert((inner + seq!['>']).drop_last() =~= inner);
    lemma_colon(a, b, 0);
    assert(inner.take(a.len() as int) =~= a);
    assert(inner.skip(a.len() as int + 1) =~= b);
    lemma_no_colon(b, 0);
    assert(b.take(b.len() as int) =~= b);
}

proof fn lemma_colon(a: Seq<char>, b: Seq<char>, i: int)
    requires
        forall|k: int| 0 <= k < a.len() ==> digit_value(#[trigger] a[k]) < 16,
        0 <= i <= a.len(),
    ensures
        next_index(a + seq![':'] + b, ':', i) == a.len(),
    decreases a.len() - i,
{
    let s = a + seq![':'] + b;
    if i < a.len() {
        assert(s[i] == a[i]);
        assert(digit_value(a[i]) < 16);
        lemma_colon(a, b, i + 1);
    } else {
        assert(s[i] == ':');
    }
}

proof fn lemma_no_colon(b: Seq<char>, i: int)
    requires
        forall|k: int| 0 <= k < b.len() ==> digit_value(#[trigger] b[k]) < 16,
        0 <= i <= b.len(),
    ensures
        next_index(b, ':', i) == b.len(),
    decreases b.len() - i,
{
    if i < b.len() {
        assert(digit_value(b[i]) < 16);
        lemma_no_colon(b, i + 1);
    }
}

/// A path to a resource is refused.
pub proof fn paths_to_resources_are_refused(double: bool, s: Seq<char>)
    ensures
        id_value(seq!['r'] + between_quotes(double, s)) is Err,
        id_value("ResRef("@ + s + seq![')']) is Err,
{
    reveal_strlit("r\"");
    reveal_strlit("r'");
    lemma_markers();
    let q = between_quotes(double, s);
    lemma_between_quotes(double, s);
    let a = seq!['r'] + q;
    assert(a.last() == q.last());
    lemma_firm(a);
    assert("r\""@ =~= seq!['r', '"']);
    assert("r'"@ =~= seq!['r', '\'']);
    if double {
        assert(a.take(2) =~= seq!['r', '"']);
    } else {
        assert(a.take(2) =~= seq!['r', '\'']);
    }
    assert(a != "None"@) by {
        assert(a[0] == 'r');
    }
    let b = "ResRef("@ + s + seq![')'];
    assert(b[0] == 'R');
    assert(b.last() == ')');
    lemma_firm(b);
    assert(b =~= "ResRef("@ + (s + seq![')']));
    lemma_has_prefix("ResRef("@, s + seq![')']);
}

// ---- colours ---------------------------------------------------------------

/// A colour is the four numbers of its channels, in hexadecimal behind `#` or in
/// decimal between commas, in the order in which they are written.
pub proof fn colours_are_their_channels(r: u8, g: u8, b: u8, a: u8)
    ensures
        encoded(
            14,
            seq!['#'] + hex_upper(r as nat, 2) + hex_upper(g as nat, 2) + hex_upper(b as nat, 2)
                + hex_upper(a as nat, 2),
        ) == Ok::<Seq<u8>, Seq<char>>(seq![r, g, b, a]),
        encoded(
            14,
            joined(seq![dec(r as nat), dec(g as nat), dec(b as nat), dec(a as nat)], seq![',']),
        ) == Ok::<Seq<u8>, Seq<char>>(seq![r, g, b, a]),
{
    lemma_hex_colour(r, g, b, a);
    lemma_listed_colour(r, g, b, a);
}

proof fn lemma_pair(s: Seq<char>, i: int, v: u8)
    requires
        0 <= i,
        i + 2 <= s.len(),
        s.subrange(i, i + 2) == hex_upper(v as nat, 2),
    ensures
        hex_pair(s, i) == Some(v as nat),
{
    lemma_pow16();
    hexadecimal_digits_read_back(v as nat, 2);
    lemma_hex_digits(hex_upper(v as nat, 2), v as nat, 255);
}

proof fn lemma_hex_chars(v: u8)
    ensures
        hex_upper(v as nat, 2).len() == 2,
        forall|i: int|
            0 <= i < 2 ==> {
                let c = #[trigger] hex_upper(v as nat, 2)[i];
                ('0' <= c <= '9') || ('A' <= c <= 'F')
            },
{
    let n = v as nat;
    let h = hex_upper(n, 2);
    reveal_with_fuel(hex_upper, 3);
    digits_count(n % 16);
    digits_count(n / 16 % 16);
    assert(h.len() == 2);
    assert(h[1] == hex_digit_upper(n % 16));
    assert(h[0] == hex_digit_upper(n / 16 % 16));
}

proof fn lemma_ascii_width(s: Seq<char>)
    requires
        forall|i: int| 0 <= i < s.len() ==> (#[trigger] s[i] as u32) < 0x80,
    ensures
        byte_width(s) == s.len(),
    decreases s.len(),
{
    if s.len() > 0 {
        let front = s.drop_last();
        assert forall|i: int| 0 <= i < front.len() implies (#[trigger] front[i] as u32) < 0x80 by {
            assert((s[i] as u32) < 0x80);
        }
        lemma_ascii_width(front);
        assert((s[s.len() - 1] as u32) < 0x80);
    }
}

proof fn lemma_hex_colour(r: u8, g: u8, b: u8, a: u8)
    ensures
        encoded(
            14,
            seq!['#'] + hex_upper(r as nat, 2) + hex_upper(g as nat, 2) + hex_upper(b as nat, 2)
                + hex_upper(a as nat, 2),
        ) == Ok::<Seq<u8>, Seq<char>>(seq![r, g, b, a]),
{
    let hr = hex_upper(r as nat, 2);
    let hg = hex_upper(g as nat, 2);
    let hb = hex_upper(b as nat, 2);
    let ha = hex_upper(a as nat, 2);
    lemma_hex_chars(r);
    lemma_hex_chars(g);
    lemma_hex_chars(b);
    lemma_hex_chars(a);
    let h = hr + hg + hb + ha;
    let t = seq!['#'] + hr + hg + hb + ha;
    assert(t.skip(1) =~= h);
    assert(t[0] == '#');
    assert(t.last() == ha[1]);
    lemma_firm(t);
    assert(h.subrange(0, 2) =~= hr);
    assert(h.subrange(2, 4) =~= hg);
    assert(h.subrange(4, 6) =~= hb);
    assert(h.subrange(6, 8) =~= ha);
    lemma_pair(h, 0, r);
    lemma_pair(h, 2, g);
    lemma_pair(h, 4, b);
    lemma_pair(h, 6, a);
    assert forall|i: int| 0 <= i < h.len() implies (#[trigger] h[i] as u32) < 0x80 by {
        let c = if i < 2 {
            hr[i]
        } else if i < 4 {
            hg[i - 2]
        } else if i < 6 {
            hb[i - 4]
        } else {
            ha[i - 6]
        };
        assert(h[i] == c);
    }
    lemma_ascii_width(h);
}

proof fn lemma_listed_colour(r: u8, g: u8, b: u8, a: u8)
    ensures
        encoded(
            14,
            joined(seq![dec(r as nat), dec(g as nat), dec(b as nat), dec(a as nat)], seq![',']),
        ) == Ok::<Seq<u8>, Seq<char>>(seq![r, g, b, a]),
{
    let ps = seq![dec(r as nat), dec(g as nat), dec(b as nat), dec(a as nat)];
    let vs = seq![r, g, b, a];
    assert forall|i: int| 0 <= i < ps.len() implies !(#[trigger] ps[i]).contains(',') && firm(ps[i])
        && unsigned_within(ps[i], 10, 255) == Some(vs[i] as nat) && '0' <= ps[i][0] <= '9' by {
        lemma_dec_chars(vs[i] as nat);
        decimal_digits_read_back(vs[i] as nat, 255, 0, 0, 0);
        assert(ps[i] == dec(vs[i] as nat));
        let d = ps[i];
        if d.contains(',') {
            let k = choose|k: int| 0 <= k < d.len() && d[k] == ',';
            assert('0' <= d[k] <= '9');
        }
    }
    joined_texts_split_back(ps, ',');
    let s = joined(ps, seq![',']);
    lemma_joined_ends(ps);
    assert(s[0] == ps[0][0]);
    assert('0' <= ps[0][0] <= '9');
    assert(firm(ps[3]));
    lemma_firm(s);
    lemma_channels(ps, vs, 0);
    assert(vs.skip(0) =~= vs);
}

proof fn lemma_joined_ends(ps: Seq<Seq<char>>)
    requires
        ps.len() > 0,
        forall|i: int| 0 <= i < ps.len() ==> (#[trigger] ps[i]).len() > 0,
    ensures
        joined(ps, seq![',']).len() > 0,
        joined(ps, seq![','])[0] == ps[0][0],
        joined(ps, seq![',']).last() == ps.last().last(),
    decreases ps.len(),
{
    assert(ps[0].len() > 0);
    assert(ps[ps.len() - 1].len() > 0);
    if ps.len() > 1 {
        let front = ps.drop_last();
        assert forall|i: int| 0 <= i < front.len() implies (#[trigger] front[i]).len() > 0 by {
            assert(ps[i].len() > 0);
        }
        lemma_joined_ends(front);
    }
}

proof fn lemma_channels(ps: Seq<Seq<char>>, vs: Seq<u8>, i: int)
    requires
        ps.len() == vs.len(),
        0 <= i <= ps.len(),
        forall|k: int|
            0 <= k < ps.len() ==> firm(#[trigger] ps[k]) && unsigned_within(ps[k], 10, 255)
                == Some(vs[k] as nat),
    ensures
        channel_values(ps, i) == Ok::<Seq<u8>, Seq<char>>(vs.skip(i)),
    decreases ps.len() - i,
{
    if i < ps.len() {
        assert(firm(ps[i]));
        lemma_firm(ps[i]);
        lemma_channels(ps, vs, i + 1);
        assert(seq![vs[i]] + vs.skip(i + 1) =~= vs.skip(i));
    } else {
        assert(vs.skip(i) =~= Seq::empty());
    }
}

// ---- floats ----------------------------------------------------------------

/// Floats are the bytes of their bit patterns, all of them and in their order.
pub proof fn floats_are_their_patterns(texts: Seq<Seq<char>>, bits: Seq<u32>, label: Seq<char>)
    requires
        texts.len() == bits.len(),
    ensures
        float_bytes(texts, bits.map_values(|b: u32| Some(b)), label, 0) == Ok::<
            Seq<u8>,
            Seq<char>,
        >(patterns(bits.map_values(|b: u32| b as nat))),
{
    lemma_patterns(texts, bits, label, 0);
    assert(bits.map_values(|b: u32| b as nat).skip(0) =~= bits.map_values(|b: u32| b as nat));
}

proof fn lemma_patterns(texts: Seq<Seq<char>>, bits: Seq<u32>, label: Seq<char>, i: int)
    requires
        texts.len() == bits.len(),
        0 <= i <= bits.len(),
    ensures
        float_bytes(texts, bits.map_values(|b: u32| Some(b)), label, i) == Ok::<
            Seq<u8>,
            Seq<char>,
        >(patterns(bits.map_values(|b: u32| b as nat).skip(i))),
    decreases bits.len() - i,
{
    let ns = bits.map_values(|b: u32| b as nat);
    if i < bits.len() {
        lemma_patterns(texts, bits, label, i + 1);
        assert(ns.skip(i).skip(1) =~= ns.skip(i + 1));
        assert(ns.skip(i)[0] == bits[i] as nat);
    } else {
        assert(ns.skip(i) =~= Seq::empty());
    }
}

} // verus!
