//! What the natives for scripts answer: from the values and texts of a call to
//! the bytes of its result.
use vstd::prelude::*;
use vstd::utf8::encode_utf8;

use crate::bits::{bit_is_set, bit_set, bit_shl, bit_shr, bit_test, mask_arg, masked, shifted_left,
    shifted_right, with_bit};
use crate::calls::{string_image, write_cstring_inline_ret, write_uint_ret};
use crate::cursor::le_bytes;
use crate::hashes::{fnv1a32_seeded, fnv1a64_seeded, fnv32_from, fnv64_from, murmur3_32,
    murmur3_of};
use crate::numbers::{clamped_i64, clamped_u64, parse_int, parse_uint, pattern64, whole_number};
use crate::strutil::{left_of, lower_of, mid_of, right_of, upper_of, utf8_str_left,
    utf8_str_lower, utf8_str_mid, utf8_str_right, utf8_str_upper};
use crate::text::chars_of;

verus! {

// ---- the values of a call --------------------------------------------------

/// The value of a parameter, or another one where the call has none there.
pub open spec fn value_at(args: Seq<u64>, i: int, other: u64) -> u64 {
    if 0 <= i < args.len() {
        args[i]
    } else {
        other
    }
}

pub fn arg(args: &Vec<u64>, i: usize, other: u64) -> (r: u64)
    ensures
        r == value_at(args@, i as int, other),
{
    if i < args.len() {
        args[i]
    } else {
        other
    }
}

/// The low half of a value as a number with a sign.
pub open spec fn low_signed(v: u64) -> int {
    let w = v as int % 0x1_0000_0000;
    if w >= 0x8000_0000 {
        w - 0x1_0000_0000
    } else {
        w
    }
}

pub fn as_signed(v: u64) -> (r: i32)
    ensures
        r == low_signed(v),
{
    let w: i64 = (v % 0x1_0000_0000) as i64;
    if w >= 0x8000_0000 {
        (w - 0x1_0000_0000) as i32
    } else {
        w as i32
    }
}

/// The text of a parameter; empty where the call has none there.
pub open spec fn text_at(texts: Seq<Option<String>>, i: int) -> Seq<char> {
    if 0 <= i < texts.len() {
        match texts[i] {
            Some(s) => s@,
            None => Seq::empty(),
        }
    } else {
        Seq::empty()
    }
}

fn text(texts: &Vec<Option<String>>, i: usize) -> (r: String)
    ensures
        r@ == text_at(texts@, i as int),
{
    if i < texts.len() {
        match &texts[i] {
            Some(s) => {
                let v = chars_of(s.as_str());
                return crate::text::string_of(v.as_slice());
            },
            None => {},
        }
    }
    String::new()
}

// ---- bits ------------------------------------------------------------------

/// What a native on bits does.
#[derive(Clone, Copy, PartialEq, Eq, Structural, Debug)]
pub enum BitOp {
    Test,
    Assign,
    ShiftLeft,
    ShiftRight,
}

/// The bytes of a number that a native returns.
pub open spec fn number_image(v: nat, width: u8) -> Seq<u8> {
    le_bytes(
        v,
        if width == 1 || width == 2 || width == 4 {
            width as nat
        } else {
            8
        },
    )
}

/// The answer of a native on the bits of a number of `width` bytes.
pub open spec fn bits_answer_of(op: BitOp, width: u8, args: Seq<u64>) -> Seq<u8> {
    let value = masked(value_at(args, 0, 0) as nat, width) as u64;
    let n = low_signed(value_at(args, 1, 0));
    match op {
        BitOp::Test => seq![
            if bit_is_set(value, n) {
                1u8
            } else {
                0u8
            },
        ],
        BitOp::Assign => number_image(
            with_bit(value, n, value_at(args, 2, 0) != 0) as nat,
            width,
        ),
        BitOp::ShiftLeft => number_image(
            shifted_left(value, n, (8 * width) as u32) as nat,
            width,
        ),
        BitOp::ShiftRight => number_image(shifted_right(value, n) as nat, width),
    }
}

pub fn bits_answer(op: BitOp, width: u8, args: &Vec<u64>) -> (r: Vec<u8>)
    ensures
        r@ == bits_answer_of(op, width, args@),
{
    let value: u64 = mask_arg(arg(args, 0, 0), width);
    let n: i32 = as_signed(arg(args, 1, 0));
    match op {
        BitOp::Test => {
            let mut out: Vec<u8> = Vec::new();
            out.push(
                if bit_test(value, n) {
                    1
                } else {
                    0
                },
            );
            proof {
                assert(out@ =~= bits_answer_of(op, width, args@));
            }
            out
        },
        BitOp::Assign => write_uint_ret(bit_set(value, n, arg(args, 2, 0) != 0), width),
        BitOp::ShiftLeft => write_uint_ret(bit_shl(value, n, 8 * (width as u32)), width),
        BitOp::ShiftRight => write_uint_ret(bit_shr(value, n), width),
    }
}

// ---- hashes ----------------------------------------------------------------

/// Which hash a native computes.
#[derive(Clone, Copy, PartialEq, Eq, Structural, Debug)]
pub enum HashOp {
    Fnv64,
    Fnv32,
    Murmur,
}

/// The answer of a native that hashes a text, with its seed where the call has
/// none.
pub open spec fn hash_answer_of(op: HashOp, s: Seq<char>, args: Seq<u64>) -> Seq<u8> {
    let bytes = encode_utf8(s);
    match op {
        HashOp::Fnv64 => le_bytes(
            fnv64_from(bytes, value_at(args, 1, 0xcbf2_9ce4_8422_2325)) as nat,
            8,
        ),
        HashOp::Fnv32 => le_bytes(
            fnv32_from(bytes, (value_at(args, 1, 0x811c_9dc5) as int % 0x1_0000_0000) as u32) as nat,
            4,
        ),
        HashOp::Murmur => le_bytes(
            murmur3_of(bytes, (value_at(args, 1, 0x5eed_ba5e) as int % 0x1_0000_0000) as u32) as nat,
            4,
        ),
    }
}

pub fn hash_answer(op: HashOp, args: &Vec<u64>, texts: &Vec<Option<String>>) -> (r: Vec<u8>)
    ensures
        r@ == hash_answer_of(op, text_at(texts@, 0), args@),
{
    let s = text(texts, 0);
    let bytes = s.as_str().as_bytes();
    match op {
        HashOp::Fnv64 => write_uint_ret(
            fnv1a64_seeded(bytes, arg(args, 1, 0xcbf2_9ce4_8422_2325)),
            8,
        ),
        HashOp::Fnv32 => {
            let seed: u32 = (arg(args, 1, 0x811c_9dc5) % 0x1_0000_0000) as u32;
            write_uint_ret(fnv1a32_seeded(bytes, seed) as u64, 4)
        },
        HashOp::Murmur => {
            let seed: u32 = (arg(args, 1, 0x5eed_ba5e) % 0x1_0000_0000) as u32;
            write_uint_ret(murmur3_32(bytes, seed) as u64, 4)
        },
    }
}

// ---- numbers ---------------------------------------------------------------

/// The answer of a native that reads a number of `width` bytes from a text.
pub open spec fn number_answer_of(signed: bool, width: u8, s: Seq<char>, args: Seq<u64>) -> Seq<u8> {
    let base = low_signed(value_at(args, 1, 10));
    let bits = match whole_number(s, base) {
        Some((neg, v)) => if signed {
            pattern64(clamped_i64(neg, v)) as nat
        } else {
            clamped_u64(neg, v) as nat
        },
        None => 0,
    };
    number_image(masked(bits, width), width)
}

pub fn number_answer(
    signed: bool,
    width: u8,
    args: &Vec<u64>,
    texts: &Vec<Option<String>>,
) -> (r: Vec<u8>)
    ensures
        r@ == number_answer_of(signed, width, text_at(texts@, 0), args@),
{
    let s = text(texts, 0);
    let base: i32 = as_signed(arg(args, 1, 10));
    if signed {
        write_uint_ret(parse_int(s.as_str(), base, width), width)
    } else {
        write_uint_ret(parse_uint(s.as_str(), base, width), width)
    }
}

// ---- texts -----------------------------------------------------------------

/// What a native on texts does.
#[derive(Clone, Copy, PartialEq, Eq, Structural, Debug)]
pub enum TextOp {
    Left,
    Right,
    Mid,
    Lower,
    Upper,
}

/// The text that a native on texts makes.
pub open spec fn made_text(op: TextOp, s: Seq<char>, args: Seq<u64>) -> Seq<char> {
    let a = low_signed(value_at(args, 1, 0));
    let b = low_signed(value_at(args, 2, 0));
    match op {
        TextOp::Left => left_of(s, a),
        TextOp::Right => right_of(s, a),
        TextOp::Mid => mid_of(s, a, b),
        TextOp::Lower => lower_of(s),
        TextOp::Upper => upper_of(s),
    }
}

/// The answer of a native on texts: the image of the text it makes, none where
/// that is too long for a result.
pub fn text_answer(op: TextOp, args: &Vec<u64>, texts: &Vec<Option<String>>) -> (r: Option<Vec<u8>>)
    ensures
        match r {
            Some(v) => string_image(made_text(op, text_at(texts@, 0), args@)) == Some(v@),
            None => string_image(made_text(op, text_at(texts@, 0), args@)) is None,
        },
{
    let s = text(texts, 0);
    let a: i32 = as_signed(arg(args, 1, 0));
    let b: i32 = as_signed(arg(args, 2, 0));
    let t: String = match op {
        TextOp::Left => utf8_str_left(s.as_str(), a),
        TextOp::Right => utf8_str_right(s.as_str(), a),
        TextOp::Mid => utf8_str_mid(s.as_str(), a, b),
        TextOp::Lower => utf8_str_lower(s.as_str()),
        TextOp::Upper => utf8_str_upper(s.as_str()),
    };
    write_cstring_inline_ret(t.as_str())
}

/// The answer of the native that counts the characters of a text: the low four
/// bytes of the count.
pub fn length_answer(texts: &Vec<Option<String>>) -> (r: Vec<u8>)
    ensures
        r@ == le_bytes(text_at(texts@, 0).len(), 4),
{
    let s = text(texts, 0);
    let n: usize = chars_of(s.as_str()).len();
    write_uint_ret(n as u64, 4)
}

// ---- names -----------------------------------------------------------------

/// The answer of the natives between names and their hashes: a name is its hash.
pub fn name_answer(args: &Vec<u64>) -> (r: Vec<u8>)
    ensures
        r@ == le_bytes(value_at(args@, 0, 0) as nat, 8),
{
    write_uint_ret(arg(args, 0, 0), 8)
}

/// From a name to its hash and back leads to the name.
pub proof fn names_are_their_hashes(v: u64)
    ensures
        crate::cursor::le_value(le_bytes(v as nat, 8)) == v,
{
    reveal_with_fuel(crate::cursor::pow256, 9);
    crate::cursor::le_round_trip(v as nat, 8);
}

} // verus!
