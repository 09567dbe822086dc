//! Little-endian reading and writing: fixed-width integers, signed
//! variable-length integers and length-prefixed strings.
use vstd::prelude::*;
use vstd::slice::slice_subrange;
use vstd::utf8::{decode_utf8, encode_utf8, encode_utf8_decode_utf8, encode_utf8_valid_utf8,
    valid_utf8};

use crate::text::{dec, push_dec, push_lit, string_of};

verus! {

// ---- errors ----------------------------------------------------------------

/// Why a database could not be read or a value could not be taken apart.
#[derive(Debug)]
pub enum Error {
    Format(String),
}

impl Error {
    pub open spec fn text(self) -> Seq<char> {
        match self {
            Error::Format(m) => m@,
        }
    }

    pub fn format(what: &str) -> (r: Error)
        ensures
            r.text() == what@,
    {
        Error::Format(what.to_owned())
    }

    /// The message that is shown to the user.
    pub fn message(&self) -> (r: String)
        ensures
            r@ == "tweakdb.bin inválido: "@ + self.text(),
    {
        let mut out: Vec<char> = Vec::new();
        push_lit(&mut out, "tweakdb.bin inválido: ");
        match self {
            Error::Format(m) => {
                push_lit(&mut out, m.as_str());
            },
        }
        proof {
            assert(out@ =~= "tweakdb.bin inválido: "@ + self.text());
        }
        string_of(out.as_slice())
    }
}

/// The outcome of a read: the value and where the next one starts.
pub type Read<T> = Result<(T, int), Seq<char>>;

// ---- fixed-width integers --------------------------------------------------

/// The value of bytes in little-endian order.
pub open spec fn le_value(s: Seq<u8>) -> nat
    decreases s.len(),
{
    if s.len() == 0 {
        0
    } else {
        s[0] as nat + 256 * le_value(s.skip(1))
    }
}

/// The `n` low bytes of `v`, in little-endian order.
pub open spec fn le_bytes(v: nat, n: nat) -> Seq<u8>
    decreases n,
{
    if n == 0 {
        Seq::empty()
    } else {
        seq![(v % 256) as u8] + le_bytes(v / 256, (n - 1) as nat)
    }
}

/// 256 to the power of `n`.
pub open spec fn pow256(n: nat) -> nat
    decreases n,
{
    if n == 0 {
        1
    } else {
        256 * pow256((n - 1) as nat)
    }
}

pub proof fn lemma_le_value_bound(s: Seq<u8>)
    ensures
        le_value(s) < pow256(s.len()),
    decreases s.len(),
{
    if s.len() > 0 {
        lemma_le_value_bound(s.skip(1));
    }
}

/// Bytes that were written are read back.
pub proof fn le_round_trip(v: nat, n: nat)
    requires
        v < pow256(n),
    ensures
        le_bytes(v, n).len() == n,
        le_value(le_bytes(v, n)) == v,
    decreases n,
{
    if n > 0 {
        le_round_trip(v / 256, (n - 1) as nat);
        let s = le_bytes(v, n);
        assert(s.skip(1) =~= le_bytes(v / 256, (n - 1) as nat));
    }
}

pub proof fn lemma_le_bytes_len(v: nat, n: nat)
    ensures
        le_bytes(v, n).len() == n,
    decreases n,
{
    if n > 0 {
        lemma_le_bytes_len(v / 256, (n - 1) as nat);
    }
}

proof fn lemma_pow256_monotone(a: nat, b: nat)
    requires
        a <= b,
    ensures
        pow256(a) <= pow256(b),
    decreases b,
{
    if a < b {
        lemma_pow256_monotone(a, (b - 1) as nat);
    }
}

fn le_number(s: &[u8]) -> (r: u64)
    requires
        s@.len() <= 8,
    ensures
        r == le_value(s@),
        r < pow256(s@.len()),
{
    let mut acc: u64 = 0;
    let mut i: usize = s.len();
    proof {
        assert(s@.skip(i as int) =~= Seq::empty());
    }
    while i > 0
        invariant
            i <= s.len() <= 8,
            acc == le_value(s@.skip(i as int)),
        decreases i,
    {
        proof {
            let t = s@.skip(i - 1);
            assert(t.skip(1) =~= s@.skip(i as int));
            lemma_le_value_bound(t);
            lemma_pow256_monotone(t.len(), 8);
            reveal_with_fuel(pow256, 9);
            assert(pow256(8) == 0x1_0000_0000_0000_0000);
        }
        acc = acc * 256 + s[i - 1] as u64;
        i -= 1;
    }
    proof {
        assert(s@.skip(0) =~= s@);
        lemma_le_value_bound(s@);
    }
    acc
}

/// Appends the `n` low bytes of `v`.
pub fn push_le(out: &mut Vec<u8>, v: u64, n: u8)
    ensures
        final(out)@ == old(out)@ + le_bytes(v as nat, n as nat),
    decreases n,
{
    let ghost before = out@;
    if n > 0 {
        out.push((v % 256) as u8);
        push_le(out, v / 256, n - 1);
    }
    proof {
        assert(out@ =~= before + le_bytes(v as nat, n as nat));
    }
}

// ---- taking bytes ----------------------------------------------------------

pub open spec fn past_end(n: nat, pos: int) -> Seq<char> {
    "leitura de "@ + dec(n) + " bytes além do fim em "@ + dec(pos as nat)
}

/// The next `n` bytes.
pub open spec fn bytes_at(data: Seq<u8>, pos: int, n: nat) -> Read<Seq<u8>> {
    if 0 <= pos && pos + n <= data.len() {
        Ok((data.subrange(pos, pos + n), pos + n))
    } else {
        Err(past_end(n, pos))
    }
}

/// The next `n` bytes as a little-endian number.
pub open spec fn int_at(data: Seq<u8>, pos: int, n: nat) -> Read<nat> {
    match bytes_at(data, pos, n) {
        Ok((b, next)) => Ok((le_value(b), next)),
        Err(e) => Err(e),
    }
}

/// A 32-bit pattern as a two's-complement number.
pub open spec fn signed32(u: int) -> int {
    if u < 0x8000_0000 {
        u
    } else {
        u - 0x1_0000_0000
    }
}

/// The next four bytes as a two's-complement number.
pub open spec fn i32_at(data: Seq<u8>, pos: int) -> Read<int> {
    match int_at(data, pos, 4) {
        Ok((u, next)) => Ok((signed32(u as int), next)),
        Err(e) => Err(e),
    }
}

// ---- variable-length integers ----------------------------------------------

/// The continuation bytes from `pos` on, where `k` were read with the weight
/// `scale` for the next one and the sum `total` so far. Each adds seven bits;
/// there are at most four.
pub open spec fn vlq_rest(data: Seq<u8>, pos: int, k: nat, scale: nat, total: nat) -> Read<nat>
    decreases 4 - k,
{
    match int_at(data, pos, 1) {
        Err(e) => Err(e),
        Ok((b, next)) => {
            let sum = total + (b % 128) * scale;
            if b < 128 {
                Ok((sum, next))
            } else if k >= 3 {
                Err("VLQ excede 5 bytes"@)
            } else {
                vlq_rest(data, next, k + 1, scale * 128, sum)
            }
        },
    }
}

/// The magnitude as 32 bits, negated where the sign bit is set; the most
/// negative number is its own negation.
pub open spec fn vlq_value(negative: bool, total: nat) -> int {
    let v = signed32((total % 0x1_0000_0000) as int);
    if negative && v != i32::MIN {
        -v
    } else {
        v
    }
}

/// A signed variable-length integer. In the first byte bit 7 is the sign, bit 6
/// says whether more bytes follow, and six bits are of the value.
pub open spec fn vlq_at(data: Seq<u8>, pos: int) -> Read<int> {
    match int_at(data, pos, 1) {
        Err(e) => Err(e),
        Ok((b, next)) => if (b / 64) % 2 == 0 {
            Ok((vlq_value(b >= 128, b % 64), next))
        } else {
            match vlq_rest(data, next, 0, 64, b % 64) {
                Err(e) => Err(e),
                Ok((total, end)) => Ok((vlq_value(b >= 128, total), end)),
            }
        },
    }
}

/// Seven bits in each byte, low ones first; bit 7 says that more follow.
pub open spec fn leb_bytes(v: nat) -> Seq<u8>
    decreases v,
{
    if v == 0 {
        Seq::empty()
    } else if v < 128 {
        seq![v as u8]
    } else {
        seq![(v % 128 + 128) as u8] + leb_bytes(v / 128)
    }
}

pub open spec fn magnitude(value: int) -> nat {
    if value < 0 {
        (-value) as nat
    } else {
        value as nat
    }
}

/// The shortest variable-length form of a number.
pub open spec fn vlq_bytes(value: int) -> Seq<u8> {
    let v = magnitude(value);
    let first = v % 64 + (if value < 0 {
        128int
    } else {
        0
    }) + (if v >= 64 {
        64int
    } else {
        0
    });
    seq![first as u8] + leb_bytes(v / 64)
}

/// The variable-length form of a number.
pub fn vlq_encode(value: i32) -> (r: Vec<u8>)
    ensures
        r@ == vlq_bytes(value as int),
{
    let mut v: u32 = if value < 0 {
        (-(value as i64)) as u32
    } else {
        value as u32
    };
    let ghost all = v as nat;
    let sign: u8 = if value < 0 {
        128
    } else {
        0
    };
    let more: u8 = if v >= 64 {
        64
    } else {
        0
    };
    let mut out: Vec<u8> = Vec::new();
    out.push((v % 64) as u8 + sign + more);
    v = v / 64;
    proof {
        assert(out@ + leb_bytes(v as nat) =~= vlq_bytes(value as int));
    }
    while v > 0
        invariant
            out@ + leb_bytes(v as nat) == vlq_bytes(value as int),
        decreases v,
    {
        let ghost before = out@;
        let ghost w = v as nat;
        let cont: u8 = if v >= 128 {
            128
        } else {
            0
        };
        out.push((v % 128) as u8 + cont);
        v = v / 128;
        proof {
            if w < 128 {
                assert(leb_bytes(v as nat) =~= Seq::empty());
            }
            assert(leb_bytes(w) =~= seq![out@.last()] + leb_bytes(v as nat));
            assert(out@ + leb_bytes(v as nat) =~= before + leb_bytes(w));
        }
    }
    proof {
        assert(out@ + Seq::empty() =~= out@);
    }
    out
}

// ---- strings ---------------------------------------------------------------

/// What `String::from_utf8_lossy` makes of bytes that are not UTF-8.
pub uninterp spec fn lossy_utf8(bytes: Seq<u8>) -> Seq<char>;

pub open spec fn high_surrogate(u: u16) -> bool {
    0xd800 <= u <= 0xdbff
}

pub open spec fn low_surrogate(u: u16) -> bool {
    0xdc00 <= u <= 0xdfff
}

/// The text of UTF-16 code units: a pair of surrogates is one character, a
/// surrogate alone is the replacement character, and every other unit is the
/// character itself.
pub open spec fn utf16_text(units: Seq<u16>) -> Seq<char>
    decreases units.len(),
{
    if units.len() == 0 {
        Seq::empty()
    } else if !high_surrogate(units[0]) && !low_surrogate(units[0]) {
        seq![units[0] as char] + utf16_text(units.skip(1))
    } else if high_surrogate(units[0]) && units.len() > 1 && low_surrogate(units[1]) {
        seq![(0x1_0000 + (units[0] - 0xd800) * 0x400 + (units[1] - 0xdc00)) as char] + utf16_text(
            units.skip(2),
        )
    } else {
        seq!['\u{fffd}'] + utf16_text(units.skip(1))
    }
}

/// The text of UTF-8 bytes, with replacement characters where they are none.
pub open spec fn utf8_text(bytes: Seq<u8>) -> Seq<char> {
    if valid_utf8(bytes) {
        decode_utf8(bytes)
    } else {
        lossy_utf8(bytes)
    }
}

/// `String::from_utf8_lossy`: valid UTF-8 is decoded as it stands. What other
/// bytes become depends on them alone.
#[verifier::external_body]
fn text_of_utf8(bytes: &[u8]) -> (r: String)
    ensures
        valid_utf8(bytes@) ==> r@ == decode_utf8(bytes@),
        !valid_utf8(bytes@) ==> r@ == lossy_utf8(bytes@),
{
    String::from_utf8_lossy(bytes).into_owned()
}

/// The text of UTF-8 bytes, with replacement characters where they are none.
pub fn lossy_text(bytes: &[u8]) -> (r: String)
    ensures
        r@ == utf8_text(bytes@),
{
    text_of_utf8(bytes)
}

/// `String::from_utf16_lossy`: the code units are decoded, and a surrogate without
/// its partner becomes the replacement character.
#[verifier::external_body]
fn text_of_utf16(units: &Vec<u16>) -> (r: String)
    ensures
        r@ == utf16_text(units@),
{
    String::from_utf16_lossy(units)
}

/// Bytes as UTF-16 code units, low byte first.
pub open spec fn units_of(bytes: Seq<u8>) -> Seq<u16> {
    Seq::new(
        bytes.len() / 2,
        |i: int| (bytes[2 * i] as int + 256 * (bytes[2 * i + 1] as int)) as u16,
    )
}

/// A length-prefixed string: a positive length counts UTF-16 code units, a
/// negative one bytes of UTF-8.
pub open spec fn string_at(data: Seq<u8>, pos: int) -> Read<Seq<char>> {
    match vlq_at(data, pos) {
        Err(e) => Err(e),
        Ok((n, next)) => if n == 0 {
            Ok((Seq::empty(), next))
        } else if n > 0 {
            match bytes_at(data, next, (2 * n) as nat) {
                Err(e) => Err(e),
                Ok((b, end)) => Ok((utf16_text(units_of(b)), end)),
            }
        } else {
            match bytes_at(data, next, (-n) as nat) {
                Err(e) => Err(e),
                Ok((b, end)) => Ok((utf8_text(b), end)),
            }
        },
    }
}

/// The length-prefixed form of a text, in UTF-8.
pub open spec fn string_bytes(s: Seq<char>) -> Seq<u8> {
    vlq_bytes(-(encode_utf8(s).len() as int)) + encode_utf8(s)
}

/// The length-prefixed form of a text.
pub fn encode_lp_string(s: &str) -> (r: Vec<u8>)
    requires
        encode_utf8(s@).len() <= i32::MAX,
    ensures
        r@ == string_bytes(s@),
{
    let bytes = s.as_bytes();
    let mut out = vlq_encode(-(bytes.len() as i32));
    push_bytes(&mut out, bytes);
    out
}

pub fn push_bytes(out: &mut Vec<u8>, s: &[u8])
    ensures
        final(out)@ == old(out)@ + s@,
{
    let ghost start = out@;
    let mut i: usize = 0;
    proof {
        assert(start + s@.subrange(0, 0) =~= start);
    }
    while i < s.len()
        invariant
            i <= s.len(),
            out@ == start + s@.subrange(0, i as int),
        decreases s.len() - i,
    {
        out.push(s[i]);
        i += 1;
        proof {
            assert(out@ =~= start + s@.subrange(0, i as int));
        }
    }
    proof {
        assert(s@.subrange(0, i as int) =~= s@);
    }
}

pub fn copy_bytes(s: &[u8]) -> (r: Vec<u8>)
    ensures
        r@ == s@,
{
    let mut out: Vec<u8> = Vec::new();
    push_bytes(&mut out, s);
    proof {
        assert(Seq::<u8>::empty() + s@ =~= s@);
    }
    out
}

// ---- the cursor ------------------------------------------------------------

/// A position in the bytes of a file.
pub struct Cursor<'a> {
    pub data: &'a [u8],
    pub pos: usize,
}

impl<'a> Cursor<'a> {
    pub fn new(data: &'a [u8]) -> (r: Cursor<'a>)
        ensures
            r.data@ == data@,
            r.pos == 0,
    {
        Cursor { data, pos: 0 }
    }

    /// Goes to a position, which may be the end but not beyond it.
    pub fn seek(&mut self, pos: u32) -> (r: Result<(), Error>)
        ensures
            final(self).data@ == old(self).data@,
            match r {
                Ok(_) => pos <= old(self).data@.len() && final(self).pos == pos,
                Err(e) => pos > old(self).data@.len() && final(self).pos == old(self).pos
                    && e.text() == seek_error(pos as nat),
            },
    {
        if pos as u64 > self.data.len() as u64 {
            let mut out: Vec<char> = Vec::new();
            push_lit(&mut out, "offset ");
            push_dec(&mut out, pos as u128);
            push_lit(&mut out, " além do fim");
            proof {
                assert(out@ =~= seek_error(pos as nat));
            }
            return Err(Error::Format(string_of(out.as_slice())));
        }
        self.pos = pos as usize;
        Ok(())
    }

    /// The next `n` bytes.
    pub fn take(&mut self, n: u64) -> (r: Result<&'a [u8], Error>)
        ensures
            final(self).data@ == old(self).data@,
            match r {
                Ok(s) => bytes_at(old(self).data@, old(self).pos as int, n as nat) == Ok::<
                    (Seq<u8>, int),
                    Seq<char>,
                >((s@, final(self).pos as int)),
                Err(e) => bytes_at(old(self).data@, old(self).pos as int, n as nat) == Err::<
                    (Seq<u8>, int),
                    Seq<char>,
                >(e.text()) && final(self).pos == old(self).pos,
            },
    {
        if self.pos > self.data.len() || n > (self.data.len() - self.pos) as u64 {
            let mut out: Vec<char> = Vec::new();
            push_lit(&mut out, "leitura de ");
            push_dec(&mut out, n as u128);
            push_lit(&mut out, " bytes além do fim em ");
            push_dec(&mut out, self.pos as u128);
            proof {
                assert(out@ =~= past_end(n as nat, self.pos as int));
            }
            return Err(Error::Format(string_of(out.as_slice())));
        }
        let end: usize = self.pos + n as usize;
        let s = slice_subrange(self.data, self.pos, end);
        self.pos = end;
        Ok(s)
    }

    /// The next `n` bytes as a number.
    fn number(&mut self, n: u64) -> (r: Result<u64, Error>)
        requires
            n <= 8,
        ensures
            final(self).data@ == old(self).data@,
            match r {
                Ok(v) => int_at(old(self).data@, old(self).pos as int, n as nat) == Ok::<
                    (nat, int),
                    Seq<char>,
                >((v as nat, final(self).pos as int)) && v < pow256(n as nat),
                Err(e) => int_at(old(self).data@, old(self).pos as int, n as nat) == Err::<
                    (nat, int),
                    Seq<char>,
                >(e.text()),
            },
    {
        match self.take(n) {
            Ok(s) => Ok(le_number(s)),
            Err(e) => Err(e),
        }
    }

    pub fn u8(&mut self) -> (r: Result<u8, Error>)
        ensures
            final(self).data@ == old(self).data@,
            match r {
                Ok(v) => int_at(old(self).data@, old(self).pos as int, 1) == Ok::<
                    (nat, int),
                    Seq<char>,
                >((v as nat, final(self).pos as int)),
                Err(e) => int_at(old(self).data@, old(self).pos as int, 1) == Err::<
                    (nat, int),
                    Seq<char>,
                >(e.text()),
            },
    {
        proof {
            reveal_with_fuel(pow256, 2);
        }
        match self.number(1) {
            Ok(v) => Ok(v as u8),
            Err(e) => Err(e),
        }
    }

    pub fn u16(&mut self) -> (r: Result<u16, Error>)
        ensures
            final(self).data@ == old(self).data@,
            match r {
                Ok(v) => int_at(old(self).data@, old(self).pos as int, 2) == Ok::<
                    (nat, int),
                    Seq<char>,
                >((v as nat, final(self).pos as int)),
                Err(e) => int_at(old(self).data@, old(self).pos as int, 2) == Err::<
                    (nat, int),
                    Seq<char>,
                >(e.text()),
            },
    {
        proof {
            reveal_with_fuel(pow256, 3);
        }
        match self.number(2) {
            Ok(v) => Ok(v as u16),
            Err(e) => Err(e),
        }
    }

    pub fn u32(&mut self) -> (r: Result<u32, Error>)
        ensures
            final(self).data@ == old(self).data@,
            match r {
                Ok(v) => int_at(old(self).data@, old(self).pos as int, 4) == Ok::<
                    (nat, int),
                    Seq<char>,
                >((v as nat, final(self).pos as int)),
                Err(e) => int_at(old(self).data@, old(self).pos as int, 4) == Err::<
                    (nat, int),
                    Seq<char>,
                >(e.text()),
            },
    {
        proof {
            reveal_with_fuel(pow256, 5);
        }
        match self.number(4) {
            Ok(v) => Ok(v as u32),
            Err(e) => Err(e),
        }
    }

    pub fn i32(&mut self) -> (r: Result<i32, Error>)
        ensures
            final(self).data@ == old(self).data@,
            match r {
                Ok(v) => i32_at(old(self).data@, old(self).pos as int) == Ok::<
                    (int, int),
                    Seq<char>,
                >((v as int, final(self).pos as int)),
                Err(e) => i32_at(old(self).data@, old(self).pos as int) == Err::<
                    (int, int),
                    Seq<char>,
                >(e.text()),
            },
    {
        match self.u32() {
            Ok(v) => Ok(as_signed(v)),
            Err(e) => Err(e),
        }
    }

    pub fn u64(&mut self) -> (r: Result<u64, Error>)
        ensures
            final(self).data@ == old(self).data@,
            match r {
                Ok(v) => int_at(old(self).data@, old(self).pos as int, 8) == Ok::<
                    (nat, int),
                    Seq<char>,
                >((v as nat, final(self).pos as int)),
                Err(e) => int_at(old(self).data@, old(self).pos as int, 8) == Err::<
                    (nat, int),
                    Seq<char>,
                >(e.text()),
            },
    {
        self.number(8)
    }

    /// The next variable-length integer.
    pub fn vlq_i32(&mut self) -> (r: Result<i32, Error>)
        ensures
            final(self).data@ == old(self).data@,
            match r {
                Ok(v) => vlq_at(old(self).data@, old(self).pos as int) == Ok::<
                    (int, int),
                    Seq<char>,
                >((v as int, final(self).pos as int)),
                Err(e) => vlq_at(old(self).data@, old(self).pos as int) == Err::<
                    (int, int),
                    Seq<char>,
                >(e.text()),
            },
    {
        let b: u8 = match self.u8() {
            Ok(b) => b,
            Err(e) => {
                return Err(e);
            },
        };
        let negative: bool = b >= 128;
        let mut total: u64 = (b % 64) as u64;
        if (b / 64) % 2 == 0 {
            return Ok(finish_vlq(negative, total));
        }
        let ghost start = self.pos as int;
        let ghost first = total as nat;
        let mut k: u32 = 0;
        let mut scale: u64 = 64;
        loop
            invariant
                self.data@ == old(self).data@,
                k <= 3,
                scale == (if k == 0 {
                    64u64
                } else if k == 1 {
                    8192
                } else if k == 2 {
                    1048576
                } else {
                    134217728
                }),
                total < scale,
                int_at(old(self).data@, old(self).pos as int, 1) == Ok::<(nat, int), Seq<char>>(
                    (b as nat, start),
                ),
                (b / 64) % 2 != 0,
                negative == (b >= 128),
                first == b % 64,
                vlq_rest(self.data@, start, 0, 64, first) == vlq_rest(
                    self.data@,
                    self.pos as int,
                    k as nat,
                    scale as nat,
                    total as nat,
                ),
            decreases 4 - k,
        {
            let nb: u8 = match self.u8() {
                Ok(b) => b,
                Err(e) => {
                    return Err(e);
                },
            };
            let part: u64 = (nb % 128) as u64;
            assert(part * scale <= 127 * scale) by (nonlinear_arith)
                requires
                    part <= 127,
            ;
            total = total + part * scale;
            if nb < 128 {
                return Ok(finish_vlq(negative, total));
            }
            if k >= 3 {
                return Err(Error::format("VLQ excede 5 bytes"));
            }
            k += 1;
            scale = scale * 128;
        }
    }

    /// The next length-prefixed string.
    pub fn lp_string(&mut self) -> (r: Result<String, Error>)
        ensures
            final(self).data@ == old(self).data@,
            match r {
                Ok(s) => string_at(old(self).data@, old(self).pos as int) == Ok::<
                    (Seq<char>, int),
                    Seq<char>,
                >((s@, final(self).pos as int)),
                Err(e) => string_at(old(self).data@, old(self).pos as int) == Err::<
                    (Seq<char>, int),
                    Seq<char>,
                >(e.text()),
            },
    {
        let prefix: i32 = match self.vlq_i32() {
            Ok(p) => p,
            Err(e) => {
                return Err(e);
            },
        };
        if prefix == 0 {
            return Ok(String::new());
        }
        if prefix > 0 {
            let bytes = match self.take(prefix as u64 * 2) {
                Ok(b) => b,
                Err(e) => {
                    return Err(e);
                },
            };
            let units = code_units(bytes);
            Ok(text_of_utf16(&units))
        } else {
            let bytes = match self.take((-(prefix as i64)) as u64) {
                Ok(b) => b,
                Err(e) => {
                    return Err(e);
                },
            };
            Ok(text_of_utf8(bytes))
        }
    }
}

pub open spec fn seek_error(pos: nat) -> Seq<char> {
    "offset "@ + dec(pos) + " além do fim"@
}

pub fn as_signed(v: u32) -> (r: i32)
    ensures
        r == signed32(v as int),
{
    if v < 0x8000_0000 {
        v as i32
    } else {
        -((0xFFFF_FFFF - v) as i32) - 1
    }
}

fn finish_vlq(negative: bool, total: u64) -> (r: i32)
    ensures
        r == vlq_value(negative, total as nat),
{
    let v: i32 = as_signed((total % 0x1_0000_0000) as u32);
    if negative && v != i32::MIN {
        -v
    } else {
        v
    }
}

fn code_units(bytes: &[u8]) -> (r: Vec<u16>)
    ensures
        r@ == units_of(bytes@),
{
    let mut out: Vec<u16> = Vec::new();
    let n: usize = bytes.len() / 2;
    let mut i: usize = 0;
    while i < n
        invariant
            i <= n,
            n == bytes.len() / 2,
            out@ == units_of(bytes@).take(i as int),
        decreases n - i,
    {
        let u: u16 = bytes[2 * i] as u16 + 256 * (bytes[2 * i + 1] as u16);
        out.push(u);
        i += 1;
        proof {
            assert(out@ =~= units_of(bytes@).take(i as int));
        }
    }
    proof {
        assert(units_of(bytes@).take(n as int) =~= units_of(bytes@));
    }
    out
}

// ---- laws ------------------------------------------------------------------

proof fn lemma_byte_at(data: Seq<u8>, pos: int)
    requires
        0 <= pos < data.len(),
    ensures
        int_at(data, pos, 1) == Ok::<(nat, int), Seq<char>>((data[pos] as nat, pos + 1)),
{
    let s = data.subrange(pos, pos + 1);
    assert(s.skip(1) =~= Seq::empty());
    assert(le_value(s.skip(1)) == 0);
    assert(s[0] == data[pos]);
}

/// Continuation bytes that were written are read back, in any surroundings.
proof fn lemma_leb_read(front: Seq<u8>, v: nat, rest: Seq<u8>, k: nat, scale: nat, total: nat)
    requires
        v > 0,
        k <= 3,
        k == 0 ==> v < 0x1000_0000,
        k == 1 ==> v < 0x20_0000,
        k == 2 ==> v < 0x4000,
        k == 3 ==> v < 0x80,
    ensures
        vlq_rest(front + leb_bytes(v) + rest, front.len() as int, k, scale, total) == Ok::<
            (nat, int),
            Seq<char>,
        >((total + v * scale, (front.len() + leb_bytes(v).len()) as int)),
    decreases v,
{
    let data = front + leb_bytes(v) + rest;
    let pos = front.len() as int;
    lemma_byte_at(data, pos);
    if v < 128 {
        assert(leb_bytes(v).len() == 1);
        assert(data[pos] == v as u8);
        assert(data[pos] as nat == v);
        assert(v % 128 == v);
    } else {
        let b = (v % 128 + 128) as u8;
        let next = total + (v % 128) * scale;
        assert(leb_bytes(v) == seq![b] + leb_bytes(v / 128));
        assert(data[pos] == b);
        assert(b as nat % 128 == v % 128);
        let front2 = front.push(b);
        lemma_leb_read(front2, v / 128, rest, k + 1, scale * 128, next);
        assert(front2 + leb_bytes(v / 128) + rest =~= data);
        assert(vlq_rest(data, pos, k, scale, total) == vlq_rest(
            data,
            pos + 1,
            k + 1,
            scale * 128,
            next,
        ));
        assert(next + (v / 128) * (scale * 128) == total + v * scale) by (nonlinear_arith)
            requires
                next == total + (v % 128) * scale,
                v == 128 * (v / 128) + v % 128,
        ;
    }
}

/// A variable-length integer that was written is read back, whatever stands
/// before and behind it.
pub proof fn vlq_round_trip(front: Seq<u8>, value: i32, rest: Seq<u8>)
    ensures
        vlq_at(front + vlq_bytes(value as int) + rest, front.len() as int) == Ok::<
            (int, int),
            Seq<char>,
        >((value as int, (front.len() + vlq_bytes(value as int).len()) as int)),
{
    let v = magnitude(value as int);
    let enc = vlq_bytes(value as int);
    let data = front + enc + rest;
    let pos = front.len() as int;
    lemma_byte_at(data, pos);
    assert(data[pos] == enc[0]);
    let b = enc[0];
    if v >= 64 {
        let front2 = front.push(b);
        lemma_leb_read(front2, v / 64, rest, 0, 64, v % 64);
        assert(front2 + leb_bytes(v / 64) + rest =~= data);
        assert(v % 64 + (v / 64) * 64 == v);
    } else {
        assert(leb_bytes(v / 64) =~= Seq::empty());
    }
}

/// A text that was written is read back, whatever stands before and behind it.
pub proof fn string_round_trip(front: Seq<u8>, s: Seq<char>, rest: Seq<u8>)
    requires
        encode_utf8(s).len() <= i32::MAX,
    ensures
        string_at(front + string_bytes(s) + rest, front.len() as int) == Ok::<
            (Seq<char>, int),
            Seq<char>,
        >((s, (front.len() + string_bytes(s).len()) as int)),
{
    let enc = encode_utf8(s);
    let n = -(enc.len() as int);
    let data = front + string_bytes(s) + rest;
    let head = vlq_bytes(n);
    vlq_round_trip(front, n as i32, enc + rest);
    assert(front + head + (enc + rest) =~= data);
    encode_utf8_decode_utf8(s);
    encode_utf8_valid_utf8(s);
    let q = (front.len() + head.len()) as int;
    assert(data.subrange(q, q + enc.len()) =~= enc);
    if enc.len() == 0 {
        assert(decode_utf8(enc) =~= Seq::empty());
    }
}

/// Reading does not depend on what stands before and behind: where a read ends
/// inside `mid`, it yields the same in any surroundings.
pub proof fn lemma_int_shift(front: Seq<u8>, mid: Seq<u8>, rest: Seq<u8>, pos: int, n: nat)
    requires
        int_at(mid, pos, n) is Ok,
    ensures
        int_at(front + mid + rest, front.len() + pos, n) == Ok::<(nat, int), Seq<char>>(
            ((int_at(mid, pos, n)->Ok_0).0, front.len() + (int_at(mid, pos, n)->Ok_0).1),
        ),
{
    lemma_bytes_shift(front, mid, rest, pos, n);
}

pub proof fn lemma_bytes_shift(front: Seq<u8>, mid: Seq<u8>, rest: Seq<u8>, pos: int, n: nat)
    requires
        bytes_at(mid, pos, n) is Ok,
    ensures
        bytes_at(front + mid + rest, front.len() + pos, n) == Ok::<(Seq<u8>, int), Seq<char>>(
            ((bytes_at(mid, pos, n)->Ok_0).0, front.len() + (bytes_at(mid, pos, n)->Ok_0).1),
        ),
{
    assert((front + mid + rest).subrange(front.len() + pos, front.len() + pos + n)
        =~= mid.subrange(pos, pos + n));
}

proof fn lemma_vlq_rest_shift(
    front: Seq<u8>,
    mid: Seq<u8>,
    rest: Seq<u8>,
    pos: int,
    k: nat,
    scale: nat,
    total: nat,
)
    requires
        vlq_rest(mid, pos, k, scale, total) is Ok,
    ensures
        vlq_rest(front + mid + rest, front.len() + pos, k, scale, total) == Ok::<
            (nat, int),
            Seq<char>,
        >(
            (
                (vlq_rest(mid, pos, k, scale, total)->Ok_0).0,
                front.len() + (vlq_rest(mid, pos, k, scale, total)->Ok_0).1,
            ),
        ),
    decreases 4 - k,
{
    lemma_int_shift(front, mid, rest, pos, 1);
    let (b, next) = int_at(mid, pos, 1)->Ok_0;
    if b >= 128 && k < 3 {
        lemma_vlq_rest_shift(
            front,
            mid,
            rest,
            next,
            k + 1,
            scale * 128,
            total + (b % 128) * scale,
        );
    }
}

pub proof fn lemma_vlq_shift(front: Seq<u8>, mid: Seq<u8>, rest: Seq<u8>, pos: int)
    requires
        vlq_at(mid, pos) is Ok,
    ensures
        vlq_at(front + mid + rest, front.len() + pos) == Ok::<(int, int), Seq<char>>(
            ((vlq_at(mid, pos)->Ok_0).0, front.len() + (vlq_at(mid, pos)->Ok_0).1),
        ),
{
    lemma_int_shift(front, mid, rest, pos, 1);
    let (b, next) = int_at(mid, pos, 1)->Ok_0;
    if (b / 64) % 2 != 0 {
        lemma_vlq_rest_shift(front, mid, rest, next, 0, 64, b % 64);
    }
}

pub proof fn lemma_string_shift(front: Seq<u8>, mid: Seq<u8>, rest: Seq<u8>, pos: int)
    requires
        string_at(mid, pos) is Ok,
    ensures
        string_at(front + mid + rest, front.len() + pos) == Ok::<(Seq<char>, int), Seq<char>>(
            ((string_at(mid, pos)->Ok_0).0, front.len() + (string_at(mid, pos)->Ok_0).1),
        ),
{
    lemma_vlq_shift(front, mid, rest, pos);
    let (n, next) = vlq_at(mid, pos)->Ok_0;
    if n > 0 {
        lemma_bytes_shift(front, mid, rest, next, (2 * n) as nat);
    } else if n < 0 {
        lemma_bytes_shift(front, mid, rest, next, (-n) as nat);
    }
}

} // verus!
