//! String utilities for scripts. They count and cut in characters, not bytes.
use vstd::prelude::*;
use vstd::slice::slice_subrange;

use crate::text::{chars_of, push_chars, string_of};

verus! {

pub fn utf8_str_len(s: &str) -> (r: i32)
    requires
        s@.len() <= i32::MAX,
    ensures
        r == s@.len(),
{
    chars_of(s).len() as i32
}

/// The lesser of a length and what there is.
pub open spec fn at_most(length: int, n: nat) -> int {
    if length <= 0 {
        0
    } else if length < n {
        length
    } else {
        n as int
    }
}

/// The first characters, as many as there are up to `length`.
pub open spec fn left_of(s: Seq<char>, length: int) -> Seq<char> {
    s.take(at_most(length, s.len()))
}

/// The last characters, as many as there are up to `length`.
pub open spec fn right_of(s: Seq<char>, length: int) -> Seq<char> {
    s.skip(s.len() - at_most(length, s.len()))
}

/// The characters behind an offset, as many as there are up to `length`.
pub open spec fn mid_of(s: Seq<char>, offset: int, length: int) -> Seq<char> {
    left_of(s.skip(at_most(offset, s.len())), length)
}

fn bounded(length: i32, n: usize) -> (r: usize)
    ensures
        r == at_most(length as int, n as nat),
{
    if length <= 0 {
        0
    } else if (length as u64) < n as u64 {
        length as usize
    } else {
        n
    }
}

pub fn utf8_str_left(s: &str, length: i32) -> (r: String)
    ensures
        r@ == left_of(s@, length as int),
{
    let v = chars_of(s);
    let k: usize = bounded(length, v.len());
    proof {
        assert(v@.subrange(0, k as int) =~= v@.take(k as int));
    }
    string_of(slice_subrange(v.as_slice(), 0, k))
}

pub fn utf8_str_right(s: &str, length: i32) -> (r: String)
    ensures
        r@ == right_of(s@, length as int),
{
    let v = chars_of(s);
    let k: usize = v.len() - bounded(length, v.len());
    proof {
        assert(v@.subrange(k as int, v@.len() as int) =~= v@.skip(k as int));
    }
    string_of(slice_subrange(v.as_slice(), k, v.len()))
}

pub fn utf8_str_mid(s: &str, offset: i32, length: i32) -> (r: String)
    ensures
        r@ == mid_of(s@, offset as int, length as int),
{
    let v = chars_of(s);
    let from: usize = bounded(offset, v.len());
    let k: usize = bounded(length, v.len() - from);
    proof {
        assert(v@.subrange(from as int, from + k) =~= v@.skip(from as int).take(k as int));
    }
    string_of(slice_subrange(v.as_slice(), from, from + k))
}

/// What `char::to_lowercase` makes of a character beyond ASCII.
pub uninterp spec fn lowered(c: char) -> Seq<char>;

/// What `char::to_uppercase` makes of a character beyond ASCII.
pub uninterp spec fn raised(c: char) -> Seq<char>;

/// An ASCII letter in lower case.
pub open spec fn ascii_lower(c: char) -> char {
    if 'A' <= c <= 'Z' {
        ((c as u8 + 32) as u8) as char
    } else {
        c
    }
}

/// An ASCII letter in upper case.
pub open spec fn ascii_upper(c: char) -> char {
    if 'a' <= c <= 'z' {
        ((c as u8 - 32) as u8) as char
    } else {
        c
    }
}

/// `char::to_lowercase`: an ASCII letter becomes the small one, other ASCII
/// stays. Beyond ASCII the result depends on the character alone.
#[verifier::external_body]
fn lower_chars(c: char) -> (r: Vec<char>)
    ensures
        (c as u32) < 128 ==> r@ == seq![ascii_lower(c)],
        (c as u32) >= 128 ==> r@ == lowered(c),
{
    c.to_lowercase().collect()
}

/// `char::to_uppercase`: an ASCII letter becomes the capital one, other ASCII
/// stays. Beyond ASCII the result depends on the character alone.
#[verifier::external_body]
fn upper_chars(c: char) -> (r: Vec<char>)
    ensures
        (c as u32) < 128 ==> r@ == seq![ascii_upper(c)],
        (c as u32) >= 128 ==> r@ == raised(c),
{
    c.to_uppercase().collect()
}

/// Every character in lower case, one after another.
pub open spec fn lower_of(s: Seq<char>) -> Seq<char>
    decreases s.len(),
{
    if s.len() == 0 {
        Seq::empty()
    } else {
        lower_of(s.drop_last()) + (if (s.last() as u32) < 128 {
            seq![ascii_lower(s.last())]
        } else {
            lowered(s.last())
        })
    }
}

/// Every character in upper case, one after another.
pub open spec fn upper_of(s: Seq<char>) -> Seq<char>
    decreases s.len(),
{
    if s.len() == 0 {
        Seq::empty()
    } else {
        upper_of(s.drop_last()) + (if (s.last() as u32) < 128 {
            seq![ascii_upper(s.last())]
        } else {
            raised(s.last())
        })
    }
}

pub fn utf8_str_lower(s: &str) -> (r: String)
    ensures
        r@ == lower_of(s@),
{
    let v = chars_of(s);
    let mut out: Vec<char> = Vec::new();
    let mut i: usize = 0;
    while i < v.len()
        invariant
            i <= v.len(),
            out@ == lower_of(v@.take(i as int)),
        decreases v.len() - i,
    {
        let low = lower_chars(v[i]);
        push_chars(&mut out, low.as_slice());
        proof {
            assert(v@.take(i + 1).drop_last() =~= v@.take(i as int));
        }
        i += 1;
    }
    proof {
        assert(v@.take(i as int) =~= v@);
    }
    string_of(out.as_slice())
}

pub fn utf8_str_upper(s: &str) -> (r: String)
    ensures
        r@ == upper_of(s@),
{
    let v = chars_of(s);
    let mut out: Vec<char> = Vec::new();
    let mut i: usize = 0;
    while i < v.len()
        invariant
            i <= v.len(),
            out@ == upper_of(v@.take(i as int)),
        decreases v.len() - i,
    {
        let up = upper_chars(v[i]);
        push_chars(&mut out, up.as_slice());
        proof {
            assert(v@.take(i + 1).drop_last() =~= v@.take(i as int));
        }
        i += 1;
    }
    proof {
        assert(v@.take(i as int) =~= v@);
    }
    string_of(out.as_slice())
}

/// What is cut off the left and what is left over make up the whole, wherever
/// the cut is.
pub proof fn left_and_right_make_whole(s: Seq<char>, k: int)
    requires
        0 <= k <= s.len(),
    ensures
        left_of(s, k) + right_of(s, s.len() - k) == s,
{
    assert(left_of(s, k) + right_of(s, s.len() - k) =~= s);
}

} // verus!
