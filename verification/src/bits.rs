//! Bit utilities for scripts: test, set and shift a bit in numbers of one, two,
//! four or eight bytes.
use vstd::prelude::*;

verus! {

/// Is bit `n` set? Outside the 64 bits none is.
pub open spec fn bit_is_set(value: u64, n: int) -> bool {
    0 <= n < 64 && (value >> (n as u64)) & 1 == 1
}

pub fn bit_test(value: u64, n: i32) -> (r: bool)
    ensures
        r == bit_is_set(value, n as int),
{
    if n < 0 || n >= 64 {
        return false;
    }
    (value >> (n as u64)) & 1 == 1
}

/// The number with bit `n` set or cleared; unchanged where there is no such bit.
pub open spec fn with_bit(value: u64, n: int, state: bool) -> u64 {
    if !(0 <= n < 64) {
        value
    } else if state {
        value | (1u64 << (n as u64))
    } else {
        value & !(1u64 << (n as u64))
    }
}

pub fn bit_set(value: u64, n: i32, state: bool) -> (r: u64)
    ensures
        r == with_bit(value, n as int, state),
{
    if n < 0 || n >= 64 {
        return value;
    }
    if state {
        value | (1u64 << (n as u64))
    } else {
        value & !(1u64 << (n as u64))
    }
}

/// All bits of a number of that width.
pub open spec fn width_mask(width_bits: u32) -> u64 {
    if width_bits >= 64 {
        u64::MAX
    } else {
        ((1u64 << (width_bits as u64)) - 1) as u64
    }
}

/// A shift to the left by `n` modulo 64, cut to the width; a negative `n`
/// changes nothing.
pub open spec fn shifted_left(value: u64, n: int, width_bits: u32) -> u64 {
    if n < 0 {
        value
    } else {
        (value << ((n % 64) as u64)) & width_mask(width_bits)
    }
}

pub fn bit_shl(value: u64, n: i32, width_bits: u32) -> (r: u64)
    ensures
        r == shifted_left(value, n as int, width_bits),
{
    if n < 0 {
        return value;
    }
    let shifted: u64 = value << ((n as u64) % 64);
    let mask: u64 = if width_bits >= 64 {
        u64::MAX
    } else {
        let w: u64 = width_bits as u64;
        assert((1u64 << w) >= 1) by (bit_vector)
            requires
                w < 64,
        ;
        (1u64 << w) - 1
    };
    shifted & mask
}

/// A shift to the right by `n` modulo 64; a negative `n` changes nothing.
pub open spec fn shifted_right(value: u64, n: int) -> u64 {
    if n < 0 {
        value
    } else {
        value >> ((n % 64) as u64)
    }
}

pub fn bit_shr(value: u64, n: i32) -> (r: u64)
    ensures
        r == shifted_right(value, n as int),
{
    if n < 0 {
        value
    } else {
        value >> ((n as u64) % 64)
    }
}

/// The low bytes of a raw argument: one, two or four of them, else all eight.
pub open spec fn masked(raw: nat, width_bytes: u8) -> nat {
    if width_bytes == 1 {
        raw % 0x100
    } else if width_bytes == 2 {
        raw % 0x1_0000
    } else if width_bytes == 4 {
        raw % 0x1_0000_0000
    } else {
        raw
    }
}

pub fn mask_arg(raw: u64, width_bytes: u8) -> (r: u64)
    ensures
        r == masked(raw as nat, width_bytes),
{
    if width_bytes == 1 {
        raw % 0x100
    } else if width_bytes == 2 {
        raw % 0x1_0000
    } else if width_bytes == 4 {
        raw % 0x1_0000_0000
    } else {
        raw
    }
}

// ---- laws ------------------------------------------------------------------

/// A bit that was set or cleared reads back, and no other bit changes.
pub proof fn set_then_test(value: u64, n: int, state: bool, m: int)
    requires
        0 <= n < 64,
    ensures
        bit_is_set(with_bit(value, n, state), n) == state,
        m != n ==> bit_is_set(with_bit(value, n, state), m) == bit_is_set(value, m),
{
    let a = n as u64;
    assert((value | (1u64 << a)) >> a & 1 == 1) by (bit_vector)
        requires
            a < 64,
    ;
    assert((value & !(1u64 << a)) >> a & 1 == 0) by (bit_vector)
        requires
            a < 64,
    ;
    if 0 <= m < 64 && m != n {
        let b = m as u64;
        assert((value | (1u64 << a)) >> b & 1 == value >> b & 1) by (bit_vector)
            requires
                a < 64,
                b < 64,
                a != b,
        ;
        assert((value & !(1u64 << a)) >> b & 1 == value >> b & 1) by (bit_vector)
            requires
                a < 64,
                b < 64,
                a != b,
        ;
    }
}

/// Setting a bit twice is setting it the second way.
pub proof fn set_overrides(value: u64, n: int, first: bool, second: bool)
    ensures
        with_bit(with_bit(value, n, first), n, second) == with_bit(value, n, second),
{
    if 0 <= n < 64 {
        let b = 1u64 << (n as u64);
        assert((value | b) | b == value | b) by (bit_vector);
        assert((value | b) & !b == value & !b) by (bit_vector);
        assert((value & !b) | b == value | b) by (bit_vector);
        assert((value & !b) & !b == value & !b) by (bit_vector);
    }
}

} // verus!
