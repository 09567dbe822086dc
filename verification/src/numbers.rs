//! Reading numbers: the integers of a document, and the C-style numbers that
//! scripts hand over.
use vstd::prelude::*;
use vstd::slice::slice_subrange;

use crate::bits::{mask_arg, masked};
use crate::text::{chars_of, dec, dec_int};

verus! {

// ---- digits ----------------------------------------------------------------

/// The value of a digit or letter as a digit; 99 for other characters.
pub open spec fn digit_value(c: char) -> nat {
    if '0' <= c <= '9' {
        (c as u32 - 48) as nat
    } else if 'a' <= c <= 'z' {
        (c as u32 - 87) as nat
    } else if 'A' <= c <= 'Z' {
        (c as u32 - 55) as nat
    } else {
        99
    }
}

/// The number that a row of digits denotes.
pub open spec fn digits_value(s: Seq<char>, radix: nat) -> nat
    decreases s.len(),
{
    if s.len() == 0 {
        0
    } else {
        digits_value(s.drop_last(), radix) * radix + digit_value(s.last())
    }
}

/// Is the text a row of at least one digit?
pub open spec fn all_digits(s: Seq<char>, radix: nat) -> bool {
    s.len() > 0 && forall|i: int| 0 <= i < s.len() ==> digit_value(#[trigger] s[i]) < radix
}

/// A number with an optional plus sign.
pub open spec fn unsigned_number(s: Seq<char>, radix: nat) -> Option<nat> {
    let t = if s.len() > 0 && s[0] == '+' {
        s.skip(1)
    } else {
        s
    };
    if all_digits(t, radix) {
        Some(digits_value(t, radix))
    } else {
        None
    }
}

/// A decimal number with an optional sign.
pub open spec fn signed_number(s: Seq<char>) -> Option<int> {
    if s.len() > 0 && s[0] == '-' {
        if all_digits(s.skip(1), 10) {
            Some(-(digits_value(s.skip(1), 10) as int))
        } else {
            None
        }
    } else {
        match unsigned_number(s, 10) {
            Some(n) => Some(n as int),
            None => None,
        }
    }
}

/// The number, where it is no greater than `max`.
pub open spec fn unsigned_within(s: Seq<char>, radix: nat, max: nat) -> Option<nat> {
    match unsigned_number(s, radix) {
        Some(n) if n <= max => Some(n),
        _ => None,
    }
}

/// The number, where it lies between `min` and `max`.
pub open spec fn signed_within(s: Seq<char>, min: int, max: int) -> Option<int> {
    match signed_number(s) {
        Some(n) if min <= n <= max => Some(n),
        _ => None,
    }
}

pub fn digit_of(c: char) -> (r: u32)
    ensures
        r == digit_value(c),
        r <= 99,
{
    if '0' <= c && c <= '9' {
        c as u32 - 48
    } else if 'a' <= c && c <= 'z' {
        c as u32 - 87
    } else if 'A' <= c && c <= 'Z' {
        c as u32 - 55
    } else {
        99
    }
}

/// More digits make no smaller number.
proof fn lemma_digits_grow(s: Seq<char>, radix: nat, i: int)
    requires
        radix >= 1,
        0 <= i <= s.len(),
    ensures
        digits_value(s.take(i), radix) <= digits_value(s, radix),
    decreases s.len(),
{
    if i < s.len() {
        lemma_digits_grow(s.drop_last(), radix, i);
        assert(s.drop_last().take(i) =~= s.take(i));
        let a = digits_value(s.drop_last(), radix);
        assert(a <= a * radix) by (nonlinear_arith)
            requires
                radix >= 1,
        ;
    } else {
        assert(s.take(i) =~= s);
    }
}

/// The value of a row of digits, where it is no greater than `max`.
fn digits_within(s: &[char], radix: u32, max: u64) -> (r: Option<u64>)
    requires
        2 <= radix <= 36,
    ensures
        match r {
            Some(v) => all_digits(s@, radix as nat) && v == digits_value(s@, radix as nat) && v
                <= max,
            None => !all_digits(s@, radix as nat) || digits_value(s@, radix as nat) > max,
        },
{
    if s.len() == 0 {
        return None;
    }
    let mut acc: u128 = 0;
    let mut i: usize = 0;
    proof {
        assert(s@.take(0) =~= Seq::empty());
    }
    while i < s.len()
        invariant
            i <= s.len(),
            2 <= radix <= 36,
            acc == digits_value(s@.take(i as int), radix as nat),
            acc <= max,
            forall|k: int| 0 <= k < i ==> digit_value(#[trigger] s@[k]) < radix,
        decreases s.len() - i,
    {
        let d: u32 = digit_of(s[i]);
        if d >= radix {
            return None;
        }
        proof {
            assert(s@.take(i + 1).drop_last() =~= s@.take(i as int));
            lemma_digits_grow(s@, radix as nat, i + 1);
            assert(acc * (radix as u128) <= 0xFFFF_FFFF_FFFF_FFFF * 36) by (nonlinear_arith)
                requires
                    acc <= 0xFFFF_FFFF_FFFF_FFFF,
                    radix <= 36,
            ;
        }
        acc = acc * (radix as u128) + d as u128;
        if acc > max as u128 {
            return None;
        }
        i += 1;
    }
    proof {
        assert(s@.take(i as int) =~= s@);
    }
    Some(acc as u64)
}

/// An unsigned number in the given base, up to `max`.
pub fn parse_unsigned(s: &[char], radix: u32, max: u64) -> (r: Option<u64>)
    requires
        2 <= radix <= 36,
    ensures
        match r {
            Some(v) => unsigned_within(s@, radix as nat, max as nat) == Some(v as nat),
            None => unsigned_within(s@, radix as nat, max as nat) is None,
        },
{
    if s.len() > 0 && s[0] == '+' {
        proof {
            assert(s@.subrange(1, s@.len() as int) =~= s@.skip(1));
        }
        digits_within(slice_subrange(s, 1, s.len()), radix, max)
    } else {
        digits_within(s, radix, max)
    }
}

/// A decimal number between `min` and `max`.
pub fn parse_signed(s: &[char], min: i64, max: i64) -> (r: Option<i64>)
    requires
        min < 0 <= max,
    ensures
        match r {
            Some(v) => signed_within(s@, min as int, max as int) == Some(v as int),
            None => signed_within(s@, min as int, max as int) is None,
        },
{
    if s.len() > 0 && s[0] == '-' {
        proof {
            assert(s@.subrange(1, s@.len() as int) =~= s@.skip(1));
        }
        let limit: u64 = (-(min as i128)) as u64;
        match digits_within(slice_subrange(s, 1, s.len()), 10, limit) {
            Some(v) => Some((-(v as i128)) as i64),
            None => None,
        }
    } else {
        match parse_unsigned(s, 10, max as u64) {
            Some(v) => Some(v as i64),
            None => None,
        }
    }
}

// ---- C-style numbers -------------------------------------------------------

/// The blanks that C's number readers pass over.
pub open spec fn c_space(c: char) -> bool {
    c == ' ' || c == '\t' || c == '\n' || c == '\u{b}' || c == '\u{c}' || c == '\r'
}

pub open spec fn after_spaces(s: Seq<char>, i: int) -> int
    decreases s.len() - i,
{
    if 0 <= i < s.len() && c_space(s[i]) {
        after_spaces(s, i + 1)
    } else {
        i
    }
}

pub open spec fn hex_prefix(s: Seq<char>, i: int) -> bool {
    i + 1 < s.len() && s[i] == '0' && (s[i + 1] == 'x' || s[i + 1] == 'X')
}

/// What stands before the digits: where they start, whether a minus sign was
/// there, and the base that holds.
pub struct HeadV {
    pub start: int,
    pub neg: bool,
    pub base: int,
}

/// Base 0 is found from the text: `0x` means 16, `0` means 8, and that zero is a
/// digit of the number. In base 16 a leading `0x` is passed over.
pub open spec fn number_head(s: Seq<char>, base_in: int) -> HeadV {
    let a = after_spaces(s, 0);
    let signed = a < s.len() && (s[a] == '+' || s[a] == '-');
    let neg = signed && s[a] == '-';
    let b = if signed {
        a + 1
    } else {
        a
    };
    if base_in == 0 && hex_prefix(s, b) {
        HeadV { start: b + 2, neg, base: 16 }
    } else if base_in == 0 && b < s.len() && s[b] == '0' {
        HeadV { start: b, neg, base: 8 }
    } else if base_in == 0 {
        HeadV { start: b, neg, base: 10 }
    } else if base_in == 16 && hex_prefix(s, b) {
        HeadV { start: b + 2, neg, base: 16 }
    } else {
        HeadV { start: b, neg, base: base_in }
    }
}

/// Where the digits end.
pub open spec fn digits_end(s: Seq<char>, i: int, base: int) -> int
    decreases s.len() - i,
{
    if 0 <= i < s.len() && digit_value(s[i]) < base {
        digits_end(s, i + 1, base)
    } else {
        i
    }
}

/// The number at the start of a text: how many characters it takes, whether it
/// has a minus sign, and its magnitude. None where no digit stands there or
/// where the base is no base.
pub open spec fn number_at_start(s: Seq<char>, base_in: int) -> Option<(int, bool, nat)> {
    let h = number_head(s, base_in);
    let end = digits_end(s, h.start, h.base);
    if !(2 <= h.base <= 36) || end == h.start {
        None
    } else {
        Some((end, h.neg, digits_value(s.subrange(h.start, end), h.base as nat)))
    }
}

/// The number that a whole text is.
pub open spec fn whole_number(s: Seq<char>, base: int) -> Option<(bool, nat)> {
    match number_at_start(s, base) {
        Some((end, neg, v)) if end == s.len() => Some((neg, v)),
        _ => None,
    }
}

proof fn lemma_after_spaces(s: Seq<char>, i: int)
    requires
        0 <= i <= s.len(),
    ensures
        i <= after_spaces(s, i) <= s.len(),
    decreases s.len() - i,
{
    if i < s.len() && c_space(s[i]) {
        lemma_after_spaces(s, i + 1);
    }
}

/// Scans the number at the start of a text. The magnitude stops one past the
/// largest 64-bit number, which tells that 64 bits do not hold it.
fn scan_number(s: &str, base_in: i32) -> (r: Option<(usize, bool, u128)>)
    ensures
        match r {
            Some((end, neg, acc)) => match number_at_start(s@, base_in as int) {
                Some((e, n, v)) => end == e && neg == n && acc == (if v <= u64::MAX {
                    v
                } else {
                    0x1_0000_0000_0000_0000
                }) && end <= s@.len(),
                None => false,
            },
            None => number_at_start(s@, base_in as int) is None,
        },
{
    let v = chars_of(s);
    let n: usize = v.len();
    let mut i: usize = 0;
    while i < n && (v[i] == ' ' || v[i] == '\t' || v[i] == '\n' || v[i] == '\u{b}' || v[i] == '\u{c}'
        || v[i] == '\r')
        invariant
            i <= n,
            n == v.len(),
            after_spaces(v@, 0) == after_spaces(v@, i as int),
        decreases n - i,
    {
        i += 1;
    }
    let mut neg: bool = false;
    if i < n && (v[i] == '+' || v[i] == '-') {
        neg = v[i] == '-';
        i += 1;
    }
    let mut base: i32 = base_in;
    let hex: bool = n - i > 1 && v[i] == '0' && (v[i + 1] == 'x' || v[i + 1] == 'X');
    if base == 0 {
        if hex {
            base = 16;
            i += 2;
        } else if i < n && v[i] == '0' {
            base = 8;
        } else {
            base = 10;
        }
    } else if base == 16 && hex {
        i += 2;
    }
    let ghost head = number_head(v@, base_in as int);
    assert(head == (HeadV { start: i as int, neg, base: base as int }));
    if base < 2 || base > 36 {
        return None;
    }
    let start: usize = i;
    let mut acc: u128 = 0;
    let ghost mut total: nat = 0;
    proof {
        assert(v@.subrange(start as int, start as int) =~= Seq::empty());
    }
    while i < n && digit_of(v[i]) < base as u32
        invariant
            start <= i <= n,
            n == v.len(),
            2 <= base <= 36,
            digits_end(v@, start as int, base as int) == digits_end(v@, i as int, base as int),
            total == digits_value(v@.subrange(start as int, i as int), base as nat),
            acc == (if total <= u64::MAX {
                total
            } else {
                0x1_0000_0000_0000_0000
            }),
        decreases n - i,
    {
        let d: u32 = digit_of(v[i]);
        proof {
            let next = v@.subrange(start as int, i + 1);
            assert(next.drop_last() =~= v@.subrange(start as int, i as int));
            assert(acc * (base as u128) <= 0x1_0000_0000_0000_0000 * 36) by (nonlinear_arith)
                requires
                    acc <= 0x1_0000_0000_0000_0000,
                    2 <= base <= 36,
            ;
            if total > u64::MAX {
                assert(total * (base as nat) >= total) by (nonlinear_arith)
                    requires
                        base >= 2,
                ;
                assert(acc * (base as u128) >= acc) by (nonlinear_arith)
                    requires
                        base >= 2,
                ;
            }
            total = total * (base as nat) + d as nat;
        }
        acc = acc * (base as u128) + d as u128;
        if acc > u64::MAX as u128 {
            acc = 0x1_0000_0000_0000_0000;
        }
        i += 1;
    }
    if i == start {
        return None;
    }
    Some((i, neg, acc))
}

/// Reads the number at the start of a text. The magnitude stops at the largest
/// 64-bit number.
pub fn parse_number_core(s: &str, base_in: i32) -> (r: Option<(usize, bool, u128)>)
    ensures
        match r {
            Some((end, neg, acc)) => match number_at_start(s@, base_in as int) {
                Some((e, n, v)) => end == e && neg == n && acc == (if v <= u64::MAX {
                    v
                } else {
                    u64::MAX as nat
                }) && end <= s@.len(),
                None => false,
            },
            None => number_at_start(s@, base_in as int) is None,
        },
{
    match scan_number(s, base_in) {
        None => None,
        Some((end, neg, acc)) => {
            if acc > u64::MAX as u128 {
                Some((end, neg, u64::MAX as u128))
            } else {
                Some((end, neg, acc))
            }
        },
    }
}

/// A signed number, clamped to what 64 bits hold.
pub open spec fn clamped_i64(neg: bool, v: nat) -> int {
    if neg && v > 0x8000_0000_0000_0000 {
        i64::MIN as int
    } else if neg {
        -(v as int)
    } else if v > i64::MAX {
        i64::MAX as int
    } else {
        v as int
    }
}

/// An unsigned number: the largest where 64 bits do not hold it, whatever its
/// sign; else a minus sign negates it modulo 2 to the 64.
pub open spec fn clamped_u64(neg: bool, v: nat) -> int {
    if v > u64::MAX {
        u64::MAX as int
    } else if neg && v != 0 {
        0x1_0000_0000_0000_0000 - v
    } else {
        v as int
    }
}

/// Reads a whole text as a signed number, as C's `strtoll` would.
pub fn strtoll_like(s: &str, base: i32) -> (r: Option<i64>)
    ensures
        match r {
            Some(v) => whole_number(s@, base as int) is Some && v == clamped_i64(
                (whole_number(s@, base as int)->0).0,
                (whole_number(s@, base as int)->0).1,
            ),
            None => whole_number(s@, base as int) is None,
        },
{
    let n: usize = chars_of(s).len();
    match parse_number_core(s, base) {
        None => None,
        Some((end, neg, acc)) => {
            if end != n {
                return None;
            }
            Some(
                if neg {
                    if acc > 0x8000_0000_0000_0000 {
                        i64::MIN
                    } else {
                        (-(acc as i128)) as i64
                    }
                } else if acc > i64::MAX as u128 {
                    i64::MAX
                } else {
                    acc as i64
                },
            )
        },
    }
}

/// Reads a whole text as an unsigned number, as C's `strtoull` would.
pub fn strtoull_like(s: &str, base: i32) -> (r: Option<u64>)
    ensures
        match r {
            Some(v) => whole_number(s@, base as int) is Some && v == clamped_u64(
                (whole_number(s@, base as int)->0).0,
                (whole_number(s@, base as int)->0).1,
            ),
            None => whole_number(s@, base as int) is None,
        },
{
    let n: usize = chars_of(s).len();
    match scan_number(s, base) {
        None => None,
        Some((end, neg, acc)) => {
            if end != n {
                return None;
            }
            if acc > u64::MAX as u128 {
                return Some(u64::MAX);
            }
            let v: u64 = acc as u64;
            Some(
                if neg && v != 0 {
                    (u64::MAX - v) + 1
                } else {
                    v
                },
            )
        },
    }
}

/// The bit pattern of a signed number in 64 bits.
pub open spec fn pattern64(v: int) -> int {
    if v < 0 {
        v + 0x1_0000_0000_0000_0000
    } else {
        v
    }
}

/// What a script gets for a text read as a signed number of `width` bytes: its
/// low bytes, and zero where it is no number.
pub fn parse_int(s: &str, base: i32, width: u8) -> (r: u64)
    ensures
        r == masked(
            match whole_number(s@, base as int) {
                Some((neg, v)) => pattern64(clamped_i64(neg, v)) as nat,
                None => 0,
            },
            width,
        ),
{
    let v: i64 = match strtoll_like(s, base) {
        Some(v) => v,
        None => 0,
    };
    let bits: u64 = if v < 0 {
        ((v as i128) + 0x1_0000_0000_0000_0000) as u64
    } else {
        v as u64
    };
    mask_arg(bits, width)
}

/// What a script gets for a text read as an unsigned number of `width` bytes.
pub fn parse_uint(s: &str, base: i32, width: u8) -> (r: u64)
    ensures
        r == masked(
            match whole_number(s@, base as int) {
                Some((neg, v)) => clamped_u64(neg, v) as nat,
                None => 0,
            },
            width,
        ),
{
    let v: u64 = match strtoull_like(s, base) {
        Some(v) => v,
        None => 0,
    };
    mask_arg(v, width)
}

// ---- laws ------------------------------------------------------------------

/// The decimal text of a 64-bit number is read back as that number, the least one
/// included.
pub proof fn decimal_text_reads_back(v: i64)
    ensures
        ({
            let n = whole_number(dec_int(v as int), 10);
            n is Some && clamped_i64((n->0).0, (n->0).1) == v
        }),
{
    let neg = v < 0;
    let m = (if neg {
        -(v as int)
    } else {
        v as int
    }) as nat;
    let s = dec_int(v as int);
    let d = dec(m);
    lemma_dec_value(m);
    let start: int = if neg {
        1
    } else {
        0
    };
    assert(s.len() == start + d.len());
    assert forall|i: int| start <= i < s.len() implies digit_value(#[trigger] s[i]) < 10 by {
        assert(s[i] == d[i - start]);
    }
    assert(!c_space(s[0]));
    assert(after_spaces(s, 0) == 0);
    if !neg {
        assert(digit_value(s[0]) < 10);
    }
    assert(number_head(s, 10) == (HeadV { start, neg, base: 10 }));
    lemma_digits_end(s, start, 10);
    assert(s.subrange(start, s.len() as int) =~= d);
}

/// The unsigned decimal text of a 64-bit number is read back as that number.
pub proof fn unsigned_text_reads_back(v: u64)
    ensures
        ({
            let n = whole_number(dec(v as nat), 10);
            n is Some && clamped_u64((n->0).0, (n->0).1) == v
        }),
{
    let s = dec(v as nat);
    lemma_dec_value(v as nat);
    assert(digit_value(s[0]) < 10);
    assert(after_spaces(s, 0) == 0);
    assert(number_head(s, 10) == (HeadV { start: 0, neg: false, base: 10 }));
    lemma_digits_end(s, 0, 10);
    assert(s.subrange(0, s.len() as int) =~= s);
}

proof fn lemma_dec_value(n: nat)
    ensures
        dec(n).len() > 0,
        digits_value(dec(n), 10) == n,
        forall|i: int| 0 <= i < dec(n).len() ==> digit_value(#[trigger] dec(n)[i]) < 10,
    decreases n,
{
    let d = crate::text::digit_of(n % 10);
    assert(digit_value(d) == n % 10);
    if n < 10 {
        assert(dec(n).drop_last() =~= Seq::empty());
        assert(digits_value(dec(n).drop_last(), 10) == 0);
    } else {
        lemma_dec_value(n / 10);
        assert(dec(n).drop_last() =~= dec(n / 10));
    }
}

proof fn lemma_digits_end(s: Seq<char>, i: int, base: int)
    requires
        0 <= i <= s.len(),
        forall|k: int| i <= k < s.len() ==> digit_value(#[trigger] s[k]) < base,
    ensures
        digits_end(s, i, base) == s.len(),
    decreases s.len() - i,
{
    if i < s.len() {
        lemma_digits_end(s, i + 1, base);
    }
}

} // verus!
