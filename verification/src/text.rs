//! Text as a sequence of characters: whitespace, lines, searching, decimal
//! numbers, and the bridge between `str`/`String` and vectors of characters.
use vstd::prelude::*;
use vstd::slice::slice_subrange;

verus! {

/// `String::push` appends one character to the end of the string.
pub assume_specification[ String::push ](s: &mut String, c: char)
    ensures
        final(s)@ == old(s)@.push(c),
;

// ---- str and String --------------------------------------------------------

/// The characters of a string slice.
pub fn chars_of(s: &str) -> (r: Vec<char>)
    ensures
        r@ == s@,
{
    let mut out: Vec<char> = Vec::new();
    for c in it: s.chars()
        invariant
            it.seq() == s@,
            out@ == s@.subrange(0, it.index() as int),
    {
        out.push(c);
        proof {
            assert(out@ =~= s@.subrange(0, it.index() + 1));
        }
    }
    proof {
        assert(s@.subrange(0, s@.len() as int) =~= s@);
    }
    out
}

/// The string made of the given characters.
pub fn string_of(v: &[char]) -> (r: String)
    ensures
        r@ == v@,
{
    let mut out: String = String::new();
    let mut i: usize = 0;
    while i < v.len()
        invariant
            i <= v.len(),
            out@ == v@.subrange(0, i as int),
        decreases v.len() - i,
    {
        out.push(v[i]);
        i += 1;
        proof {
            assert(v@.subrange(0, i as int) =~= v@.subrange(0, i - 1).push(v@[i - 1]));
        }
    }
    proof {
        assert(v@.subrange(0, v@.len() as int) =~= v@);
    }
    out
}

// ---- whitespace ------------------------------------------------------------

/// The characters with the Unicode `White_Space` property.
pub open spec fn is_space(c: char) -> bool {
    ||| 0x09 <= c as u32 <= 0x0d
    ||| c as u32 == 0x20
    ||| c as u32 == 0x85
    ||| c as u32 == 0xa0
    ||| c as u32 == 0x1680
    ||| 0x2000 <= c as u32 <= 0x200a
    ||| c as u32 == 0x2028
    ||| c as u32 == 0x2029
    ||| c as u32 == 0x202f
    ||| c as u32 == 0x205f
    ||| c as u32 == 0x3000
}

pub fn is_whitespace(c: char) -> (r: bool)
    ensures
        r == is_space(c),
{
    let u: u32 = c as u32;
    (0x09 <= u && u <= 0x0d) || u == 0x20 || u == 0x85 || u == 0xa0 || u == 0x1680 || (0x2000 <= u
        && u <= 0x200a) || u == 0x2028 || u == 0x2029 || u == 0x202f || u == 0x205f || u == 0x3000
}

/// `s` without its leading whitespace.
pub open spec fn trimmed_start(s: Seq<char>) -> Seq<char>
    decreases s.len(),
{
    if s.len() > 0 && is_space(s[0]) {
        trimmed_start(s.skip(1))
    } else {
        s
    }
}

/// `s` without its trailing whitespace.
pub open spec fn trimmed_end(s: Seq<char>) -> Seq<char>
    decreases s.len(),
{
    if s.len() > 0 && is_space(s.last()) {
        trimmed_end(s.drop_last())
    } else {
        s
    }
}

/// `s` without leading and trailing whitespace.
pub open spec fn trimmed(s: Seq<char>) -> Seq<char> {
    trimmed_end(trimmed_start(s))
}

/// Trimming the start leaves a suffix of the text.
pub proof fn lemma_trimmed_start(s: Seq<char>)
    ensures
        trimmed_start(s).len() <= s.len(),
        trimmed_start(s) == s.skip(s.len() - trimmed_start(s).len()),
        trimmed_start(s).len() > 0 ==> !is_space(trimmed_start(s)[0]),
    decreases s.len(),
{
    if s.len() > 0 && is_space(s[0]) {
        lemma_trimmed_start(s.skip(1));
        assert(s.skip(1).skip(s.skip(1).len() - trimmed_start(s).len()) =~= s.skip(
            s.len() - trimmed_start(s).len(),
        ));
    } else {
        assert(s.skip(0) =~= s);
    }
}

/// Trimming the end leaves a prefix of the text.
pub proof fn lemma_trimmed_end(s: Seq<char>)
    ensures
        trimmed_end(s).len() <= s.len(),
        trimmed_end(s) == s.take(trimmed_end(s).len() as int),
        trimmed_end(s).len() > 0 ==> !is_space(trimmed_end(s).last()),
    decreases s.len(),
{
    if s.len() > 0 && is_space(s.last()) {
        lemma_trimmed_end(s.drop_last());
        assert(s.drop_last().take(trimmed_end(s).len() as int) =~= s.take(
            trimmed_end(s).len() as int,
        ));
    } else {
        assert(s.take(s.len() as int) =~= s);
    }
}

pub proof fn lemma_trimmed_len(s: Seq<char>)
    ensures
        trimmed(s).len() <= s.len(),
{
    lemma_trimmed_start(s);
    lemma_trimmed_end(trimmed_start(s));
}

pub fn trim_start(s: &[char]) -> (r: &[char])
    ensures
        r@ == trimmed_start(s@),
        r@.len() <= s@.len(),
{
    let mut i: usize = 0;
    proof {
        assert(s@.skip(0) =~= s@);
    }
    while i < s.len() && is_whitespace(s[i])
        invariant
            i <= s.len(),
            trimmed_start(s@) == trimmed_start(s@.skip(i as int)),
        decreases s.len() - i,
    {
        proof {
            assert(s@.skip(i as int).skip(1) =~= s@.skip(i + 1));
        }
        i += 1;
    }
    proof {
        assert(s@.subrange(i as int, s@.len() as int) =~= s@.skip(i as int));
    }
    slice_subrange(s, i, s.len())
}

pub fn trim_end(s: &[char]) -> (r: &[char])
    ensures
        r@ == trimmed_end(s@),
        r@.len() <= s@.len(),
{
    let mut n: usize = s.len();
    proof {
        assert(s@.take(n as int) =~= s@);
    }
    while n > 0 && is_whitespace(s[n - 1])
        invariant
            n <= s.len(),
            trimmed_end(s@) == trimmed_end(s@.take(n as int)),
        decreases n,
    {
        proof {
            assert(s@.take(n as int).drop_last() =~= s@.take(n - 1));
        }
        n -= 1;
    }
    proof {
        assert(s@.subrange(0, n as int) =~= s@.take(n as int));
    }
    slice_subrange(s, 0, n)
}

pub fn trim(s: &[char]) -> (r: &[char])
    ensures
        r@ == trimmed(s@),
        r@.len() <= s@.len(),
{
    trim_end(trim_start(s))
}

// ---- comparison and search -------------------------------------------------

pub open spec fn has_prefix(s: Seq<char>, p: Seq<char>) -> bool {
    p.len() <= s.len() && s.take(p.len() as int) == p
}

pub open spec fn has_suffix(s: Seq<char>, p: Seq<char>) -> bool {
    p.len() <= s.len() && s.skip(s.len() - p.len()) == p
}

/// The first position at or after `i` that holds `c`, or the length.
pub open spec fn next_index(s: Seq<char>, c: char, i: int) -> int
    decreases s.len() - i,
{
    if i >= s.len() {
        s.len() as int
    } else if s[i] == c {
        i
    } else {
        next_index(s, c, i + 1)
    }
}

pub proof fn lemma_next_index(s: Seq<char>, c: char, i: int)
    requires
        0 <= i <= s.len(),
    ensures
        i <= next_index(s, c, i) <= s.len(),
        next_index(s, c, i) < s.len() ==> s[next_index(s, c, i)] == c,
        forall|k: int| i <= k < next_index(s, c, i) ==> s[k] != c,
    decreases s.len() - i,
{
    if i < s.len() && s[i] != c {
        lemma_next_index(s, c, i + 1);
    }
}

pub fn index_of(s: &[char], c: char, from: usize) -> (r: usize)
    requires
        from <= s@.len(),
    ensures
        r == next_index(s@, c, from as int),
        from <= r <= s@.len(),
        r < s@.len() ==> s@[r as int] == c,
{
    let mut i: usize = from;
    while i < s.len() && s[i] != c
        invariant
            from <= i <= s.len(),
            next_index(s@, c, from as int) == next_index(s@, c, i as int),
        decreases s.len() - i,
    {
        i += 1;
    }
    i
}

pub fn contains_char(s: &[char], c: char) -> (r: bool)
    ensures
        r == s@.contains(c),
{
    let i: usize = index_of(s, c, 0);
    proof {
        lemma_next_index(s@, c, 0);
        if i < s.len() {
            assert(s@[i as int] == c);
        }
    }
    i < s.len()
}

pub fn same(a: &[char], b: &[char]) -> (r: bool)
    ensures
        r == (a@ == b@),
{
    if a.len() != b.len() {
        return false;
    }
    let mut i: usize = 0;
    while i < a.len()
        invariant
            i <= a.len(),
            a.len() == b.len(),
            forall|k: int| 0 <= k < i ==> a@[k] == b@[k],
        decreases a.len() - i,
    {
        if a[i] != b[i] {
            return false;
        }
        i += 1;
    }
    proof {
        assert(a@ =~= b@);
    }
    true
}

/// Does the text equal the given literal?
pub fn is_lit(a: &[char], lit: &str) -> (r: bool)
    ensures
        r == (a@ == lit@),
{
    let b = chars_of(lit);
    same(a, b.as_slice())
}

/// Do two strings hold the same characters?
pub fn same_str(a: &str, b: &str) -> (r: bool)
    ensures
        r == (a@ == b@),
{
    let x = chars_of(a);
    is_lit(x.as_slice(), b)
}

pub fn starts_with(s: &[char], p: &str) -> (r: bool)
    ensures
        r == has_prefix(s@, p@),
{
    let q = chars_of(p);
    if q.len() > s.len() {
        return false;
    }
    proof {
        assert(s@.subrange(0, q@.len() as int) =~= s@.take(q@.len() as int));
    }
    same(slice_subrange(s, 0, q.len()), q.as_slice())
}

pub fn ends_with(s: &[char], p: &str) -> (r: bool)
    ensures
        r == has_suffix(s@, p@),
{
    let q = chars_of(p);
    if q.len() > s.len() {
        return false;
    }
    proof {
        assert(s@.subrange(s@.len() - q@.len(), s@.len() as int) =~= s@.skip(s@.len() - q@.len()));
    }
    same(slice_subrange(s, s.len() - q.len(), s.len()), q.as_slice())
}

pub fn starts_with_char(s: &[char], c: char) -> (r: bool)
    ensures
        r == (s@.len() > 0 && s@[0] == c),
{
    s.len() > 0 && s[0] == c
}

/// Does `p` occur in `s` at position `i`?
pub open spec fn occurs_at(s: Seq<char>, p: Seq<char>, i: int) -> bool {
    0 <= i && i + p.len() <= s.len() && s.subrange(i, i + p.len()) == p
}

/// The first position at or after `i` where `p` occurs.
pub open spec fn next_occurrence(s: Seq<char>, p: Seq<char>, i: int) -> Option<int>
    decreases s.len() - i,
{
    if i < 0 || i + p.len() > s.len() {
        None
    } else if occurs_at(s, p, i) {
        Some(i)
    } else if i >= s.len() {
        None
    } else {
        next_occurrence(s, p, i + 1)
    }
}

pub fn find(s: &[char], p: &[char], from: usize) -> (r: Option<usize>)
    requires
        from <= s@.len(),
    ensures
        match r {
            Some(i) => next_occurrence(s@, p@, from as int) == Some(i as int) && from <= i && i
                + p@.len() <= s@.len() && s@.subrange(i as int, i + p@.len()) == p@,
            None => next_occurrence(s@, p@, from as int) is None,
        },
{
    let mut i: usize = from;
    while p.len() <= s.len() - i
        invariant
            from <= i <= s.len(),
            next_occurrence(s@, p@, from as int) == next_occurrence(s@, p@, i as int),
        decreases s.len() - i,
    {
        if same(slice_subrange(s, i, i + p.len()), p) {
            return Some(i);
        }
        if i == s.len() {
            return None;
        }
        i += 1;
    }
    None
}

// ---- lines -----------------------------------------------------------------

pub open spec fn drop_cr(l: Seq<char>) -> Seq<char> {
    if l.len() > 0 && l.last() == '\r' {
        l.drop_last()
    } else {
        l
    }
}

/// The lines of a text: each ends at `\n` or `\r\n`, and a final line needs no
/// terminator.
pub open spec fn lines_of(s: Seq<char>) -> Seq<Seq<char>>
    decreases s.len(),
    via lines_of_decreases
{
    if s.len() == 0 {
        Seq::empty()
    } else {
        let k = next_index(s, '\n', 0);
        if k == s.len() {
            seq![s]
        } else {
            seq![drop_cr(s.take(k))] + lines_of(s.skip(k + 1))
        }
    }
}

#[via_fn]
proof fn lines_of_decreases(s: Seq<char>) {
    lemma_next_index(s, '\n', 0);
}

/// The views of a sequence of slices.
pub open spec fn slices_view(v: Seq<&[char]>) -> Seq<Seq<char>> {
    v.map_values(|x: &[char]| x@)
}

/// The views of a sequence of strings.
pub open spec fn strings_view(v: Seq<String>) -> Seq<Seq<char>> {
    v.map_values(|x: String| x@)
}

/// The views of a sequence of vectors.
pub open spec fn vecs_view(v: Seq<Vec<char>>) -> Seq<Seq<char>> {
    v.map_values(|x: Vec<char>| x@)
}

pub fn split_lines<'a>(s: &'a [char]) -> (r: Vec<&'a [char]>)
    ensures
        slices_view(r@) == lines_of(s@),
{
    let mut out: Vec<&'a [char]> = Vec::new();
    let mut i: usize = 0;
    proof {
        assert(s@.skip(0) =~= s@);
        assert(slices_view(out@) + lines_of(s@) =~= lines_of(s@));
    }
    while i < s.len()
        invariant
            i <= s.len(),
            slices_view(out@) + lines_of(s@.skip(i as int)) == lines_of(s@),
        decreases s.len() - i,
    {
        let ghost rest = s@.skip(i as int);
        let ghost before = out@;
        let k: usize = index_of(s, '\n', i);
        proof {
            lemma_next_index_skip(s@, '\n', i as int);
            assert(rest.take(k - i) =~= s@.subrange(i as int, k as int));
        }
        if k == s.len() {
            let l = slice_subrange(s, i, k);
            out.push(l);
            proof {
                assert(l@ =~= rest);
                assert(slices_view(out@) =~= slices_view(before).push(l@));
                assert(slices_view(out@) =~= lines_of(s@));
                assert(s@.skip(k as int) =~= Seq::<char>::empty());
                assert(slices_view(out@) + lines_of(s@.skip(k as int)) =~= lines_of(s@));
            }
            i = k;
        } else {
            let e: usize = if k > i && s[k - 1] == '\r' {
                k - 1
            } else {
                k
            };
            let l = slice_subrange(s, i, e);
            out.push(l);
            proof {
                assert(l@ =~= drop_cr(rest.take(k - i)));
                assert(rest.skip(k - i + 1) =~= s@.skip(k + 1));
                assert(slices_view(out@) =~= slices_view(before).push(l@));
                assert(slices_view(out@) + lines_of(s@.skip(k + 1)) =~= slices_view(before) + (
                seq![l@] + lines_of(s@.skip(k + 1))));
            }
            i = k + 1;
        }
    }
    proof {
        assert(s@.skip(i as int) =~= Seq::<char>::empty());
        assert(slices_view(out@) + Seq::empty() =~= slices_view(out@));
    }
    out
}

/// Searching from `i` is searching in the suffix that starts at `i`.
pub proof fn lemma_next_index_skip(s: Seq<char>, c: char, i: int)
    requires
        0 <= i <= s.len(),
    ensures
        next_index(s, c, i) == i + next_index(s.skip(i), c, 0),
{
    lemma_next_index_skip_from(s, c, i, 0);
}

proof fn lemma_next_index_skip_from(s: Seq<char>, c: char, i: int, j: int)
    requires
        0 <= i <= s.len(),
        0 <= j <= s.len() - i,
    ensures
        next_index(s, c, i + j) == i + next_index(s.skip(i), c, j),
    decreases s.len() - i - j,
{
    if i + j < s.len() && s[i + j] != c {
        lemma_next_index_skip_from(s, c, i, j + 1);
    }
}

// ---- building text ---------------------------------------------------------

pub fn push_chars(out: &mut Vec<char>, s: &[char])
    ensures
        final(out)@ == old(out)@ + s@,
{
    let mut i: usize = 0;
    let ghost start = out@;
    proof {
        assert(start + s@.subrange(0, 0) =~= start);
    }
    while i < s.len()
        invariant
            i <= s.len(),
            out@ == start + s@.subrange(0, i as int),
        decreases s.len() - i,
    {
        out.push(s[i]);
        i += 1;
        proof {
            assert(out@ =~= start + s@.subrange(0, i as int));
        }
    }
    proof {
        assert(s@.subrange(0, s@.len() as int) =~= s@);
    }
}

pub fn push_lit(out: &mut Vec<char>, s: &str)
    ensures
        final(out)@ == old(out)@ + s@,
{
    let v = chars_of(s);
    push_chars(out, v.as_slice());
}

pub fn copy_chars(s: &[char]) -> (r: Vec<char>)
    ensures
        r@ == s@,
{
    let mut out: Vec<char> = Vec::new();
    push_chars(&mut out, s);
    proof {
        assert(Seq::<char>::empty() + s@ =~= s@);
    }
    out
}

/// The digit `d` of a number written in a base of at most ten.
pub open spec fn digit_of(d: nat) -> char {
    ((48 + d) as u8) as char
}

/// Decimal notation.
pub open spec fn dec(n: nat) -> Seq<char>
    decreases n,
{
    if n < 10 {
        seq![digit_of(n)]
    } else {
        dec(n / 10).push(digit_of(n % 10))
    }
}

/// Decimal notation of an integer, with a minus sign where it is negative.
pub open spec fn dec_int(n: int) -> Seq<char> {
    if n < 0 {
        seq!['-'] + dec((-n) as nat)
    } else {
        dec(n as nat)
    }
}

pub fn push_dec(out: &mut Vec<char>, n: u128)
    ensures
        final(out)@ == old(out)@ + dec(n as nat),
    decreases n,
{
    let ghost start = out@;
    if n >= 10 {
        push_dec(out, n / 10);
    }
    let d: u8 = (n % 10) as u8;
    out.push((48u8 + d) as char);
    proof {
        assert(out@ =~= start + dec(n as nat));
    }
}

/// An upper-case hexadecimal digit.
pub open spec fn hex_digit_upper(d: nat) -> char {
    if d < 10 {
        ((48 + d) as u8) as char
    } else {
        ((55 + d) as u8) as char
    }
}

/// A lower-case hexadecimal digit.
pub open spec fn hex_digit_lower(d: nat) -> char {
    if d < 10 {
        ((48 + d) as u8) as char
    } else {
        ((87 + d) as u8) as char
    }
}

/// The last `width` hexadecimal digits of `n`, upper case.
pub open spec fn hex_upper(n: nat, width: nat) -> Seq<char>
    decreases width,
{
    if width == 0 {
        Seq::empty()
    } else {
        hex_upper(n / 16, (width - 1) as nat).push(hex_digit_upper(n % 16))
    }
}

pub fn push_hex_upper(out: &mut Vec<char>, n: u64, width: u8)
    ensures
        final(out)@ == old(out)@ + hex_upper(n as nat, width as nat),
    decreases width,
{
    let ghost start = out@;
    if width == 0 {
        proof {
            assert(start + Seq::<char>::empty() =~= start);
        }
        return;
    }
    push_hex_upper(out, n / 16, width - 1);
    let d: u8 = (n % 16) as u8;
    if d < 10 {
        out.push((48u8 + d) as char);
    } else {
        out.push((55u8 + d) as char);
    }
    proof {
        assert(out@ =~= start + hex_upper(n as nat, width as nat));
    }
}

/// The last `width` hexadecimal digits of `n`, lower case.
pub open spec fn hex_lower(n: nat, width: nat) -> Seq<char>
    decreases width,
{
    if width == 0 {
        Seq::empty()
    } else {
        hex_lower(n / 16, (width - 1) as nat).push(hex_digit_lower(n % 16))
    }
}

pub fn push_hex_lower(out: &mut Vec<char>, n: u64, width: u8)
    ensures
        final(out)@ == old(out)@ + hex_lower(n as nat, width as nat),
    decreases width,
{
    let ghost start = out@;
    if width == 0 {
        proof {
            assert(start + Seq::<char>::empty() =~= start);
        }
        return;
    }
    push_hex_lower(out, n / 16, width - 1);
    let d: u8 = (n % 16) as u8;
    if d < 10 {
        out.push((48u8 + d) as char);
    } else {
        out.push((87u8 + d) as char);
    }
    proof {
        assert(out@ =~= start + hex_lower(n as nat, width as nat));
    }
}

/// The parts one after another, with `sep` between neighbours.
pub open spec fn joined(parts: Seq<Seq<char>>, sep: Seq<char>) -> Seq<char>
    decreases parts.len(),
{
    if parts.len() == 0 {
        Seq::empty()
    } else if parts.len() == 1 {
        parts[0]
    } else {
        joined(parts.drop_last(), sep) + sep + parts.last()
    }
}

// ---- UTF-8 length ----------------------------------------------------------

/// The length of a text in UTF-8.
pub open spec fn byte_width(s: Seq<char>) -> int
    decreases s.len(),
{
    if s.len() == 0 {
        0
    } else {
        byte_width(s.drop_last()) + (if (s.last() as u32) < 0x80 {
            1int
        } else if (s.last() as u32) < 0x800 {
            2
        } else if (s.last() as u32) < 0x10000 {
            3
        } else {
            4
        })
    }
}

pub fn width_of(s: &[char]) -> (r: u128)
    ensures
        r == byte_width(s@),
        r <= 4 * s@.len(),
{
    let mut n: u128 = 0;
    let mut i: usize = 0;
    while i < s.len()
        invariant
            i <= s.len() <= usize::MAX,
            n == byte_width(s@.take(i as int)),
            n <= 4 * i,
        decreases s.len() - i,
    {
        let u: u32 = s[i] as u32;
        proof {
            assert(s@.take(i + 1).drop_last() =~= s@.take(i as int));
        }
        n = n + (if u < 0x80 {
            1u128
        } else if u < 0x800 {
            2
        } else if u < 0x10000 {
            3
        } else {
            4
        });
        i += 1;
    }
    proof {
        assert(s@.take(i as int) =~= s@);
    }
    n
}

// ---- parts -----------------------------------------------------------------

/// The text behind a prefix.
pub open spec fn after_prefix(s: Seq<char>, p: Seq<char>) -> Option<Seq<char>> {
    if has_prefix(s, p) {
        Some(s.skip(p.len() as int))
    } else {
        None
    }
}

/// The text before a final character.
pub open spec fn before_last(s: Seq<char>, c: char) -> Option<Seq<char>> {
    if s.len() > 0 && s.last() == c {
        Some(s.drop_last())
    } else {
        None
    }
}

/// What stands between a prefix and a final character.
pub open spec fn between(s: Seq<char>, p: Seq<char>, c: char) -> Option<Seq<char>> {
    match after_prefix(s, p) {
        Some(rest) => before_last(rest, c),
        None => None,
    }
}

pub fn strip_prefix<'a>(s: &'a [char], p: &str) -> (r: Option<&'a [char]>)
    ensures
        match r {
            Some(t) => after_prefix(s@, p@) == Some(t@),
            None => after_prefix(s@, p@) is None,
        },
{
    let n: usize = chars_of(p).len();
    if starts_with(s, p) {
        proof {
            assert(s@.subrange(n as int, s@.len() as int) =~= s@.skip(n as int));
        }
        Some(slice_subrange(s, n, s.len()))
    } else {
        None
    }
}

pub fn strip_between<'a>(s: &'a [char], p: &str, c: char) -> (r: Option<&'a [char]>)
    ensures
        match r {
            Some(t) => between(s@, p@, c) == Some(t@),
            None => between(s@, p@, c) is None,
        },
{
    match strip_prefix(s, p) {
        None => None,
        Some(rest) => if rest.len() > 0 && rest[rest.len() - 1] == c {
            proof {
                assert(rest@.subrange(0, rest@.len() - 1) =~= rest@.drop_last());
            }
            Some(slice_subrange(rest, 0, rest.len() - 1))
        } else {
            None
        },
    }
}

/// The parts between the occurrences of a character; at least one.
pub open spec fn split_at(s: Seq<char>, c: char) -> Seq<Seq<char>>
    decreases s.len(),
    via split_at_decreases
{
    let k = next_index(s, c, 0);
    if k >= s.len() {
        seq![s]
    } else {
        seq![s.take(k)] + split_at(s.skip(k + 1), c)
    }
}

#[via_fn]
proof fn split_at_decreases(s: Seq<char>, c: char) {
    lemma_next_index(s, c, 0);
}

pub fn split_char<'a>(s: &'a [char], c: char) -> (r: Vec<&'a [char]>)
    ensures
        slices_view(r@) == split_at(s@, c),
{
    let mut out: Vec<&'a [char]> = Vec::new();
    let mut at: usize = 0;
    proof {
        assert(s@.skip(0) =~= s@);
        assert(slices_view(out@) + split_at(s@, c) =~= split_at(s@, c));
    }
    loop
        invariant
            at <= s@.len(),
            slices_view(out@) + split_at(s@.skip(at as int), c) == split_at(s@, c),
        decreases s@.len() - at,
    {
        let ghost before = out@;
        let ghost rest = s@.skip(at as int);
        let k: usize = index_of(s, c, at);
        proof {
            lemma_next_index_skip(s@, c, at as int);
        }
        let part = slice_subrange(s, at, k);
        out.push(part);
        proof {
            assert(slices_view(out@) =~= slices_view(before).push(part@));
            assert(part@ =~= rest.take(k - at));
        }
        if k >= s.len() {
            proof {
                assert(rest.take(k - at) =~= rest);
                assert(slices_view(out@) =~= slices_view(before) + seq![rest]);
            }
            return out;
        }
        proof {
            assert(rest.skip(k - at + 1) =~= s@.skip(k + 1));
            assert(slices_view(out@) + split_at(s@.skip(k + 1), c) =~= slices_view(before) + (
            seq![part@] + split_at(s@.skip(k + 1), c)));
        }
        at = k + 1;
    }
}

} // verus!
