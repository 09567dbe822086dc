//! What numbers in texts and in bits mean.
use vstd::prelude::*;

use crate::bits::{bit_is_set, masked, shifted_left, shifted_right, width_mask};
use crate::numbers::{
    after_spaces, all_digits, c_space, clamped_i64, clamped_u64, digit_value, digits_end,
    digits_value, hex_prefix, number_at_start, signed_within, unsigned_within,
};
use crate::text::{dec, dec_int, digit_of, hex_digit_lower, hex_digit_upper, hex_lower, hex_upper};

verus! {

// ---- digits ----------------------------------------------------------------

/// What each digit counts: the figures themselves, and the letters from ten on,
/// small and capital alike.
pub proof fn digits_count(d: nat)
    ensures
        d < 10 ==> digit_value(((48 + d) as u8) as char) == d,
        d < 26 ==> digit_value(((97 + d) as u8) as char) == 10 + d && digit_value(
            ((65 + d) as u8) as char,
        ) == 10 + d,
        d < 10 ==> digit_of(d) == ((48 + d) as u8) as char,
        d < 10 ==> hex_digit_upper(d) == digit_of(d) && hex_digit_lower(d) == digit_of(d),
        10 <= d < 16 ==> 'A' <= hex_digit_upper(d) <= 'F' && 'a' <= hex_digit_lower(d) <= 'f',
        d < 16 ==> digit_value(hex_digit_upper(d)) == d && digit_value(hex_digit_lower(d)) == d,
{
}

/// Sixteen to the power.
pub open spec fn pow16(n: nat) -> nat
    decreases n,
{
    if n == 0 {
        1
    } else {
        16 * pow16((n - 1) as nat)
    }
}

/// A number in hexadecimal digits, capital or small, is the number that the digits
/// denote, and has as many digits as asked for.
pub proof fn hexadecimal_digits_read_back(n: nat, width: nat)
    requires
        n < pow16(width),
    ensures
        hex_upper(n, width).len() == width,
        hex_lower(n, width).len() == width,
        digits_value(hex_upper(n, width), 16) == n,
        digits_value(hex_lower(n, width), 16) == n,
        forall|i: int|
            0 <= i < width ==> digit_value(#[trigger] hex_upper(n, width)[i]) < 16 && digit_value(
                hex_lower(n, width)[i],
            ) < 16,
    decreases width,
{
    if width > 0 {
        let m = (width - 1) as nat;
        assert(n / 16 < pow16(m)) by {
            assert(pow16(width) == 16 * pow16(m));
        }
        hexadecimal_digits_read_back(n / 16, m);
        let u = hex_upper(n, width);
        let l = hex_lower(n, width);
        digits_count(n % 16);
        assert(u.drop_last() =~= hex_upper(n / 16, m));
        assert(l.drop_last() =~= hex_lower(n / 16, m));
        assert(n == (n / 16) * 16 + n % 16);
        assert forall|i: int| 0 <= i < width implies digit_value(#[trigger] u[i]) < 16
            && digit_value(l[i]) < 16 by {
            if i < m {
                assert(u[i] == hex_upper(n / 16, m)[i]);
                assert(l[i] == hex_lower(n / 16, m)[i]);
            }
        }
    }
}

proof fn lemma_dec(n: nat)
    ensures
        dec(n).len() > 0,
        digits_value(dec(n), 10) == n,
        forall|i: int| 0 <= i < dec(n).len() ==> '0' <= #[trigger] dec(n)[i] <= '9',
        n > 0 ==> dec(n)[0] != '0',
    decreases n,
{
    let s = dec(n);
    if n < 10 {
        assert(s.drop_last() =~= Seq::empty());
        assert(digits_value(s.drop_last(), 10) == 0);
    } else {
        lemma_dec(n / 10);
        assert(s.drop_last() =~= dec(n / 10));
        assert forall|i: int| 0 <= i < s.len() implies '0' <= #[trigger] s[i] <= '9' by {
            if i < s.len() - 1 {
                assert(s[i] == dec(n / 10)[i]);
            }
        }
        assert(s[0] == dec(n / 10)[0]);
    }
}

/// A number in decimal digits is read as that number wherever one is asked for, if
/// it is not above the limit; a sign counts.
pub proof fn decimal_digits_read_back(n: nat, max: nat, v: int, low: int, high: int)
    ensures
        unsigned_within(dec(n), 10, max) == if n <= max {
            Some(n)
        } else {
            None
        },
        signed_within(dec_int(v), low, high) == if low <= v <= high {
            Some(v)
        } else {
            None
        },
{
    lemma_dec(n);
    let s = dec(n);
    assert('0' <= s[0] <= '9');
    assert(all_digits(s, 10)) by {
        assert forall|i: int| 0 <= i < s.len() implies digit_value(#[trigger] s[i]) < 10 by {
            assert('0' <= s[i] <= '9');
        }
    }
    let m = (if v < 0 {
        -v
    } else {
        v
    }) as nat;
    lemma_dec(m);
    let d = dec(m);
    assert('0' <= d[0] <= '9');
    assert(all_digits(d, 10)) by {
        assert forall|i: int| 0 <= i < d.len() implies digit_value(#[trigger] d[i]) < 10 by {
            assert('0' <= d[i] <= '9');
        }
    }
    if v < 0 {
        assert(dec_int(v).skip(1) =~= d);
    }
}

// ---- numbers at the start of a text ----------------------------------------

pub open spec fn all_spaces(p: Seq<char>) -> bool {
    forall|i: int| 0 <= i < p.len() ==> #[trigger] p[i] == ' ' || p[i] == '\t' || p[i] == '\n'
        || p[i] == '\r'
}

pub open spec fn sign_text(negative: Option<bool>) -> Seq<char> {
    match negative {
        None => Seq::empty(),
        Some(true) => seq!['-'],
        Some(false) => seq!['+'],
    }
}

/// Digits of the base, and at least one.
pub open spec fn are_digits(d: Seq<char>, base: int) -> bool {
    d.len() > 0 && forall|i: int| 0 <= i < d.len() ==> digit_value(#[trigger] d[i]) < base
}

/// Does the text go on with something that is no digit?
pub open spec fn ends_digits(r: Seq<char>, base: int) -> bool {
    r.len() > 0 ==> digit_value(r[0]) >= base
}

proof fn lemma_spaces(p: Seq<char>, x: Seq<char>, i: int)
    requires
        all_spaces(p),
        x.len() > 0,
        !c_space(x[0]),
        0 <= i <= p.len(),
    ensures
        after_spaces(p + x, i) == p.len(),
    decreases p.len() - i,
{
    let s = p + x;
    if i < p.len() {
        assert(s[i] == p[i]);
        assert(c_space(s[i]));
        lemma_spaces(p, x, i + 1);
    } else {
        assert(s[i] == x[0]);
    }
}

proof fn lemma_digits(a: Seq<char>, d: Seq<char>, r: Seq<char>, base: int, i: int)
    requires
        are_digits(d, base),
        ends_digits(r, base),
        0 <= i <= d.len(),
    ensures
        digits_end(a + d + r, a.len() + i, base) == a.len() + d.len(),
    decreases d.len() - i,
{
    let s = a + d + r;
    if i < d.len() {
        assert(s[a.len() + i] == d[i]);
        lemma_digits(a, d, r, base, i + 1);
    } else if r.len() > 0 {
        assert(s[a.len() + i] == r[0]);
    }
}

/// A number is read behind blanks and a sign, with its digits up to the first that
/// is none; `0x` may stand before hexadecimal ones.
pub proof fn numbers_are_their_digits(
    p: Seq<char>,
    negative: Option<bool>,
    prefix: Seq<char>,
    d: Seq<char>,
    r: Seq<char>,
    asked: int,
    base: int,
)
    requires
        all_spaces(p),
        2 <= base <= 36,
        are_digits(d, base),
        ends_digits(r, base),
        (prefix == seq!['0', 'x'] || prefix == seq!['0', 'X']) && base == 16 && (asked == 16
            || asked == 0) || prefix.len() == 0 && asked == base && (base != 16 || !(d[0] == '0'
            && r.len() > 0 && (r[0] == 'x' || r[0] == 'X'))) || prefix.len() == 0 && asked == 0
            && base == 10 && d[0] != '0' || prefix.len() == 0 && asked == 0 && base == 8 && d[0]
            == '0' && !(d.len() == 1 && r.len() > 0 && (r[0] == 'x' || r[0] == 'X')),
    ensures
        ({
            let s = p + sign_text(negative) + prefix + d + r;
            number_at_start(s, asked) == Some(
                (s.len() - r.len(), negative == Some(true), digits_value(d, base as nat)),
            )
        }),
{
    let sg = sign_text(negative);
    let x = sg + prefix + d + r;
    let s = p + sg + prefix + d + r;
    assert(s =~= p + x);
    let start = p.len() + sg.len() + prefix.len();
    let a = p + sg + prefix;
    let c0 = if prefix.len() > 0 {
        '0'
    } else {
        d[0]
    };
    assert(digit_value(d[0]) < base);
    let b = (p.len() + sg.len()) as int;
    assert(s[b] == c0);
    assert(digit_value(c0) < 99);
    assert(!c_space(c0) && c0 != '+' && c0 != '-');
    if sg.len() > 0 {
        assert(x[0] == sg[0]);
    } else {
        assert(x[0] == c0);
    }
    lemma_spaces(p, x, 0);
    assert(s[p.len() as int] == x[0]);
    if prefix.len() > 0 {
        assert(s[b] == '0' && s[b + 1] == prefix[1]);
    } else {
        if b + 1 < s.len() {
            if d.len() > 1 {
                assert(s[b + 1] == d[1]);
                assert(digit_value(d[1]) < base);
            } else {
                assert(s[b + 1] == r[0]);
            }
        }
    }
    if prefix.len() == 0 && (asked == 0 || asked == 16) {
        assert(!hex_prefix(s, b) || base > 16 || (base == 16)) ;
    }
    lemma_digits(a, d, r, base, 0);
    assert(s =~= a + d + r);
    assert(s.subrange(start as int, start as int + d.len()) =~= d);
}

/// A number that does not fit is the nearest that does; an unsigned one with a minus
/// counts back from the end.
pub proof fn numbers_are_kept_in_range(negative: bool, v: nat)
    ensures
        ({
            let x = if negative {
                -(v as int)
            } else {
                v as int
            };
            let r = clamped_i64(negative, v);
            &&& -0x8000_0000_0000_0000 <= r <= 0x7fff_ffff_ffff_ffff
            &&& -0x8000_0000_0000_0000 <= x <= 0x7fff_ffff_ffff_ffff ==> r == x
            &&& x > 0x7fff_ffff_ffff_ffff ==> r == 0x7fff_ffff_ffff_ffff
            &&& x < -0x8000_0000_0000_0000 ==> r == -0x8000_0000_0000_0000
        }),
        ({
            let u = clamped_u64(negative, v);
            &&& 0 <= u < 0x1_0000_0000_0000_0000
            &&& v < 0x1_0000_0000_0000_0000 && !negative ==> u == v
            &&& 0 < v < 0x1_0000_0000_0000_0000 && negative ==> u + v == 0x1_0000_0000_0000_0000
            &&& v == 0 ==> u == 0
            &&& v >= 0x1_0000_0000_0000_0000 ==> u == 0xffff_ffff_ffff_ffff
        }),
{
}

// ---- bits ------------------------------------------------------------------

/// A shift moves every bit by the same way, brings in zeros, and drops what leaves
/// the width; its amount counts modulo 64, and a negative one moves nothing.
pub proof fn shifts_move_bits(value: u64, n: int, width: u32, m: int)
    requires
        0 <= m < 64,
    ensures
        0 <= n < 64 ==> bit_is_set(shifted_left(value, n, width), m) == (n <= m && m < width
            && bit_is_set(value, m - n)),
        0 <= n < 64 ==> bit_is_set(shifted_right(value, n), m) == (m + n < 64 && bit_is_set(
            value,
            m + n,
        )),
        n >= 0 ==> shifted_left(value, n, width) == shifted_left(value, n % 64, width)
            && shifted_right(value, n) == shifted_right(value, n % 64),
        n < 0 ==> shifted_left(value, n, width) == value && shifted_right(value, n) == value,
{
    if 0 <= n < 64 {
        let k = n as u64;
        let j = m as u64;
        assert((n % 64) as u64 == k);
        lemma_shifts(value, k, j);
        let x = value << k;
        if width < 64 {
            lemma_mask(x, width as u64, j);
        } else {
            assert(x & 0xffff_ffff_ffff_ffffu64 == x) by (bit_vector);
        }
        if n <= m {
            assert((m - n) as u64 == (j - k) as u64);
        }
        if m + n < 64 {
            assert((m + n) as u64 == (j + k) as u64);
        }
    }
}

proof fn lemma_shifts(v: u64, k: u64, j: u64)
    requires
        k < 64,
        j < 64,
    ensures
        ((v << k) >> j) & 1 == if j >= k {
            (v >> ((j - k) as u64)) & 1
        } else {
            0
        },
        ((v >> k) >> j) & 1 == if j + k < 64 {
            (v >> ((j + k) as u64)) & 1
        } else {
            0
        },
{
    assert(((v << k) >> j) & 1 == (if j >= k {
        (v >> ((j - k) as u64)) & 1
    } else {
        0
    })) by (bit_vector)
        requires
            k < 64,
            j < 64,
    ;
    assert(((v >> k) >> j) & 1 == (if j + k < 64 {
        (v >> ((j + k) as u64)) & 1
    } else {
        0
    })) by (bit_vector)
        requires
            k < 64,
            j < 64,
    ;
}

proof fn lemma_mask(x: u64, w: u64, j: u64)
    requires
        w < 64,
        j < 64,
    ensures
        ((x & (((1u64 << w) - 1) as u64)) >> j) & 1 == if j < w {
            (x >> j) & 1
        } else {
            0
        },
{
    assert(((x & (((1u64 << w) - 1) as u64)) >> j) & 1 == (if j < w {
        (x >> j) & 1
    } else {
        0
    })) by (bit_vector)
        requires
            w < 64,
            j < 64,
    ;
}

/// An argument is cut to the width of its type.
pub proof fn arguments_are_cut_to_their_width(raw: nat)
    ensures
        masked(raw, 1) == raw % 256,
        masked(raw, 2) == raw % 65536,
        masked(raw, 4) == raw % 4294967296,
        masked(raw, 8) == raw,
        width_mask(64) == 0xffff_ffff_ffff_ffff,
{
}

} // verus!
