//! From the text of a value to the bytes that the database holds.
//!
//! There are twenty scalar types, by index: names and strings, ids, floats,
//! booleans, integers, colours, and structures of floats. Arrays are put
//! together from encoded elements.
use vstd::prelude::*;
use vstd::slice::slice_subrange;
use vstd::utf8::encode_utf8;

use crate::cursor::{encode_lp_string, le_bytes, push_bytes, push_le, string_bytes, vlq_bytes,
    vlq_encode};
use crate::hashes::{id_of, tweak_db_id};
use crate::numbers::{parse_signed, parse_unsigned, signed_within, unsigned_within};
use crate::strutil::ascii_lower;
use crate::text::{after_prefix, between, byte_width, chars_of, dec, has_prefix, index_of, is_lit,
    next_index, push_chars, push_dec, push_lit, slices_view, split_at, split_char, starts_with,
    string_of, strip_between, strip_prefix, trim, trimmed, width_of};
use crate::yaml::{enclosed, inside};

verus! {

// ---- messages --------------------------------------------------------------

pub open spec fn invalid(text: Seq<char>, label: Seq<char>) -> Seq<char> {
    "'"@ + text + "' inválido ou fora da faixa para "@ + label
}

pub open spec fn quoted_message(text: Seq<char>, what: Seq<char>) -> Seq<char> {
    "'"@ + text + what
}

fn invalid_message(text: &[char], label: &str) -> (r: String)
    ensures
        r@ == invalid(text@, label@),
{
    let mut out: Vec<char> = Vec::new();
    push_lit(&mut out, "'");
    push_chars(&mut out, text);
    push_lit(&mut out, "' inválido ou fora da faixa para ");
    push_lit(&mut out, label);
    proof {
        assert(out@ =~= invalid(text@, label@));
    }
    string_of(out.as_slice())
}

fn message_on(text: &[char], what: &str) -> (r: String)
    ensures
        r@ == quoted_message(text@, what@),
{
    let mut out: Vec<char> = Vec::new();
    push_lit(&mut out, "'");
    push_chars(&mut out, text);
    push_lit(&mut out, what);
    proof {
        assert(out@ =~= quoted_message(text@, what@));
    }
    string_of(out.as_slice())
}

// ---- booleans --------------------------------------------------------------

/// The text with its ASCII letters in lower case.
pub open spec fn lowercase(s: Seq<char>) -> Seq<char> {
    s.map_values(|c: char| ascii_lower(c))
}

pub open spec fn bool_value(s: Seq<char>) -> Result<u8, Seq<char>> {
    if lowercase(s) == "1"@ || lowercase(s) == "true"@ {
        Ok(1)
    } else if lowercase(s) == "0"@ || lowercase(s) == "false"@ {
        Ok(0)
    } else {
        Err(quoted_message(s, "' não é um Bool válido (use true/false/1/0)"@))
    }
}

pub fn to_lowercase(s: &[char]) -> (r: Vec<char>)
    ensures
        r@ == lowercase(s@),
{
    let mut out: Vec<char> = Vec::new();
    let mut i: usize = 0;
    while i < s.len()
        invariant
            i <= s.len(),
            out@ == lowercase(s@.take(i as int)),
        decreases s.len() - i,
    {
        let c: char = s[i];
        out.push(
            if 'A' <= c && c <= 'Z' {
                ((c as u8) + 32u8) as char
            } else {
                c
            },
        );
        i += 1;
        proof {
            assert(out@ =~= lowercase(s@.take(i as int)));
        }
    }
    proof {
        assert(s@.take(i as int) =~= s@);
    }
    out
}

/// A boolean in any letter case; other text is an error, never `false`.
fn parse_bool(s: &[char]) -> (r: Result<u8, String>)
    ensures
        match r {
            Ok(v) => bool_value(s@) == Ok::<u8, Seq<char>>(v),
            Err(e) => bool_value(s@) == Err::<u8, Seq<char>>(e@),
        },
{
    let low = to_lowercase(s);
    let t = low.as_slice();
    if is_lit(t, "1") || is_lit(t, "true") {
        Ok(1)
    } else if is_lit(t, "0") || is_lit(t, "false") {
        Ok(0)
    } else {
        Err(message_on(s, "' não é um Bool válido (use true/false/1/0)"))
    }
}

// ---- names and ids ---------------------------------------------------------

/// The text without blanks around it and without one pair of quotes.
pub open spec fn bare(s: Seq<char>) -> Seq<char> {
    let t = trimmed(s);
    if enclosed(t, '"', '"') || enclosed(t, '\'', '\'') {
        inside(t)
    } else {
        t
    }
}

fn strip_quotes(s: &[char]) -> (r: &[char])
    ensures
        r@ == bare(s@),
{
    let t = trim(s);
    let n: usize = t.len();
    if n >= 2 && ((t[0] == '"' && t[n - 1] == '"') || (t[0] == '\'' && t[n - 1] == '\'')) {
        slice_subrange(t, 1, n - 1)
    } else {
        t
    }
}

/// The quoted text behind a one-letter prefix, as in `n"X"`.
pub open spec fn prefixed_literal(t: Seq<char>, prefix: Seq<char>) -> Option<Seq<char>> {
    match after_prefix(t, prefix) {
        Some(rest) => {
            let q = trimmed(rest);
            if q.len() >= 2 && (q[0] == '"' || q[0] == '\'') {
                Some(bare(q))
            } else {
                None
            }
        },
        None => None,
    }
}

fn quoted_after<'a>(t: &'a [char], prefix: &str) -> (r: Option<&'a [char]>)
    ensures
        match r {
            Some(s) => prefixed_literal(t@, prefix@) == Some(s@),
            None => prefixed_literal(t@, prefix@) is None,
        },
{
    match strip_prefix(t, prefix) {
        None => None,
        Some(rest) => {
            let q = trim(rest);
            if q.len() >= 2 && (q[0] == '"' || q[0] == '\'') {
                Some(strip_quotes(q))
            } else {
                None
            }
        },
    }
}

/// A name without the forms `n"X"` and `CName("X")` around it.
pub open spec fn cname_text(text: Seq<char>) -> Seq<char> {
    let t = trimmed(text);
    match prefixed_literal(t, "n"@) {
        Some(s) => s,
        None => match between(t, "CName("@, ')') {
            Some(s) => bare(s),
            None => t,
        },
    }
}

fn normalize_cname<'a>(text: &'a [char]) -> (r: &'a [char])
    ensures
        r@ == cname_text(text@),
{
    let t = trim(text);
    if let Some(s) = quoted_after(t, "n") {
        return s;
    }
    if let Some(s) = strip_between(t, "CName(", ')') {
        return strip_quotes(s);
    }
    t
}

/// The first two fields between colons, where there are two.
pub open spec fn two_fields(s: Seq<char>) -> Option<(Seq<char>, Seq<char>)> {
    let k = next_index(s, ':', 0);
    if k >= s.len() {
        None
    } else {
        let rest = s.skip(k + 1);
        Some((s.take(k), rest.take(next_index(rest, ':', 0))))
    }
}

/// `<TDBID:CRC:LEN>`: hash and length in hexadecimal.
pub open spec fn debug_id(t: Seq<char>, crc: Seq<char>, len: Seq<char>) -> Result<u64, Seq<char>> {
    match unsigned_within(trimmed(crc), 16, u32::MAX as nat) {
        None => Err(invalid(t, "TDBID crc"@)),
        Some(c) => match unsigned_within(trimmed(len), 16, u8::MAX as nat) {
            None => Err(invalid(t, "TDBID len"@)),
            Some(n) => Ok((c + n * 0x1_0000_0000) as u64),
        },
    }
}

/// Is there a dot or an ASCII letter in the text?
pub open spec fn looks_like_name(t: Seq<char>) -> bool {
    exists|i: int| 0 <= i < t.len() && name_char(#[trigger] t[i])
}

pub open spec fn name_char(c: char) -> bool {
    c == '.' || 'a' <= c <= 'z' || 'A' <= c <= 'Z'
}

/// A number where one is written as such; otherwise a record's name.
pub open spec fn plain_id(t: Seq<char>) -> Result<u64, Seq<char>> {
    let hex = if has_prefix(t, "0x"@) {
        after_prefix(t, "0x"@)
    } else {
        after_prefix(t, "0X"@)
    };
    match hex {
        Some(h) => match unsigned_within(h, 16, u64::MAX as nat) {
            Some(n) => Ok(n as u64),
            None => Err(invalid(t, "id (hex u64)"@)),
        },
        None => match unsigned_within(t, 10, u64::MAX as nat) {
            Some(n) => Ok(n as u64),
            None => if looks_like_name(t) {
                Ok(id_of(t))
            } else {
                Err(invalid(t, "id ($Nome, t\"Nome\", LocKey#N, 0xHEX, decimal ou None)"@))
            },
        },
    }
}

/// The id that a text denotes: nothing or `None` is zero; `$Name`, `t"Name"` and
/// `TweakDBID("Name")` are names; `LocKey#N` and `<TDBID:CRC:LEN>` are numbers;
/// then come hexadecimal, decimal and bare names.
pub open spec fn id_value(text: Seq<char>) -> Result<u64, Seq<char>> {
    let t = trimmed(text);
    if t.len() == 0 || t == "None"@ {
        Ok(0)
    } else if has_prefix(t, "r\""@) || has_prefix(t, "r'"@) || has_prefix(t, "ResRef("@) {
        Err(
            quoted_message(
                t,
                "': ref de recurso (ResRef) por caminho ainda não suportado"@,
            ),
        )
    } else if t[0] == '$' {
        Ok(id_of(t.skip(1)))
    } else if prefixed_literal(t, "t"@) is Some {
        Ok(id_of(prefixed_literal(t, "t"@)->0))
    } else if between(t, "TweakDBID("@, ')') is Some {
        Ok(id_of(bare(between(t, "TweakDBID("@, ')')->0)))
    } else if after_prefix(t, "LocKey#"@) is Some {
        match unsigned_within(trimmed(after_prefix(t, "LocKey#"@)->0), 10, u64::MAX as nat) {
            Some(n) => Ok(n as u64),
            None => Err(invalid(t, "LocKey#<número>"@)),
        }
    } else {
        match between(t, "<TDBID:"@, '>') {
            Some(inner) => match two_fields(inner) {
                Some((crc, len)) => debug_id(t, crc, len),
                None => plain_id(t),
            },
            None => plain_id(t),
        }
    }
}

pub open spec fn id_outcome(r: Result<u64, String>) -> Result<u64, Seq<char>> {
    match r {
        Ok(v) => Ok(v),
        Err(e) => Err(e@),
    }
}

fn parse_debug_id(t: &[char], crc: &[char], len: &[char]) -> (r: Result<u64, String>)
    ensures
        id_outcome(r) == debug_id(t@, crc@, len@),
{
    let c: u64 = match parse_unsigned(trim(crc), 16, u32::MAX as u64) {
        None => {
            return Err(invalid_message(t, "TDBID crc"));
        },
        Some(c) => c,
    };
    let n: u64 = match parse_unsigned(trim(len), 16, u8::MAX as u64) {
        None => {
            return Err(invalid_message(t, "TDBID len"));
        },
        Some(n) => n,
    };
    Ok(c + n * 0x1_0000_0000)
}

fn has_name_char(t: &[char]) -> (r: bool)
    ensures
        r == looks_like_name(t@),
{
    let mut i: usize = 0;
    while i < t.len()
        invariant
            i <= t.len(),
            forall|k: int| 0 <= k < i ==> !name_char(#[trigger] t@[k]),
        decreases t.len() - i,
    {
        let c: char = t[i];
        if c == '.' || ('a' <= c && c <= 'z') || ('A' <= c && c <= 'Z') {
            proof {
                assert(name_char(t@[i as int]));
            }
            return true;
        }
        i += 1;
    }
    false
}

fn id_of_chars(name: &[char]) -> (r: u64)
    ensures
        r == id_of(name@),
{
    let s = string_of(name);
    tweak_db_id(s.as_str())
}

fn parse_plain_id(t: &[char]) -> (r: Result<u64, String>)
    ensures
        id_outcome(r) == plain_id(t@),
{
    let lower = strip_prefix(t, "0x");
    let hex = match lower {
        Some(h) => Some(h),
        None => strip_prefix(t, "0X"),
    };
    if let Some(h) = hex {
        return match parse_unsigned(h, 16, u64::MAX) {
            Some(n) => Ok(n),
            None => Err(invalid_message(t, "id (hex u64)")),
        };
    }
    if let Some(n) = parse_unsigned(t, 10, u64::MAX) {
        return Ok(n);
    }
    if has_name_char(t) {
        return Ok(id_of_chars(t));
    }
    Err(invalid_message(t, "id ($Nome, t\"Nome\", LocKey#N, 0xHEX, decimal ou None)"))
}

/// The id that a text denotes.
pub fn parse_id(text: &[char]) -> (r: Result<u64, String>)
    ensures
        id_outcome(r) == id_value(text@),
{
    let t = trim(text);
    if t.len() == 0 || is_lit(t, "None") {
        return Ok(0);
    }
    if starts_with(t, "r\"") || starts_with(t, "r'") || starts_with(t, "ResRef(") {
        return Err(message_on(t, "': ref de recurso (ResRef) por caminho ainda não suportado"));
    }
    if t[0] == '$' {
        proof {
            assert(t@.subrange(1, t@.len() as int) =~= t@.skip(1));
        }
        return Ok(id_of_chars(slice_subrange(t, 1, t.len())));
    }
    if let Some(name) = quoted_after(t, "t") {
        return Ok(id_of_chars(name));
    }
    if let Some(inner) = strip_between(t, "TweakDBID(", ')') {
        return Ok(id_of_chars(strip_quotes(inner)));
    }
    if let Some(num) = strip_prefix(t, "LocKey#") {
        return match parse_unsigned(trim(num), 10, u64::MAX) {
            Some(n) => Ok(n),
            None => Err(invalid_message(t, "LocKey#<número>")),
        };
    }
    if let Some(inner) = strip_between(t, "<TDBID:", '>') {
        let k: usize = index_of(inner, ':', 0);
        if k < inner.len() {
            let rest = slice_subrange(inner, k + 1, inner.len());
            let m: usize = index_of(rest, ':', 0);
            proof {
                assert(inner@.subrange(0, k as int) =~= inner@.take(k as int));
                assert(rest@ =~= inner@.skip(k + 1));
                assert(rest@.subrange(0, m as int) =~= rest@.take(m as int));
            }
            return parse_debug_id(t, slice_subrange(inner, 0, k), slice_subrange(rest, 0, m));
        }
    }
    parse_plain_id(t)
}

// ---- colours ---------------------------------------------------------------

/// Two hexadecimal digits at `i`.
pub open spec fn hex_pair(s: Seq<char>, i: int) -> Option<nat> {
    unsigned_within(s.subrange(i, i + 2), 16, 255)
}

/// `RRGGBBAA`. Eight bytes that are not eight characters are no colour.
pub open spec fn hex_color(text: Seq<char>, hex: Seq<char>) -> Result<Seq<u8>, Seq<char>> {
    if byte_width(hex) != 8 {
        Err(quoted_message(text, "': Color hex precisa de 8 dígitos (#RRGGBBAA)"@))
    } else if hex.len() != 8 || hex_pair(hex, 0) is None || hex_pair(hex, 2) is None || hex_pair(
        hex,
        4,
    ) is None || hex_pair(hex, 6) is None {
        Err(invalid(text, "Color"@))
    } else {
        Ok(
            seq![
                hex_pair(hex, 0)->0 as u8,
                hex_pair(hex, 2)->0 as u8,
                hex_pair(hex, 4)->0 as u8,
                hex_pair(hex, 6)->0 as u8,
            ],
        )
    }
}

/// The numbers from part `i` on, each from 0 to 255.
pub open spec fn channel_values(parts: Seq<Seq<char>>, i: int) -> Result<Seq<u8>, Seq<char>>
    decreases parts.len() - i,
{
    if i >= parts.len() {
        Ok(Seq::empty())
    } else {
        let p = trimmed(parts[i]);
        match unsigned_within(p, 10, 255) {
            None => Err(invalid(p, "Color (0-255)"@)),
            Some(n) => match channel_values(parts, i + 1) {
                Err(e) => Err(e),
                Ok(rest) => Ok(seq![n as u8] + rest),
            },
        }
    }
}

/// A colour as `r,g,b,a` or `#RRGGBBAA`.
pub open spec fn color_value(text: Seq<char>) -> Result<Seq<u8>, Seq<char>> {
    if text.len() > 0 && text[0] == '#' {
        hex_color(text, text.skip(1))
    } else if split_at(text, ',').len() != 4 {
        Err(quoted_message(text, "': Color precisa de 'r,g,b,a' (0-255) ou '#RRGGBBAA'"@))
    } else {
        channel_values(split_at(text, ','), 0)
    }
}

pub open spec fn bytes_outcome(r: Result<Vec<u8>, String>) -> Result<Seq<u8>, Seq<char>> {
    match r {
        Ok(v) => Ok(v@),
        Err(e) => Err(e@),
    }
}

fn pair_at(s: &[char], i: usize) -> (r: Option<u8>)
    requires
        i + 2 <= s@.len(),
    ensures
        match r {
            Some(v) => hex_pair(s@, i as int) == Some(v as nat),
            None => hex_pair(s@, i as int) is None,
        },
{
    let n: usize = s.len();
    assert(i + 2 <= n);
    match parse_unsigned(slice_subrange(s, i, i + 2), 16, 255) {
        Some(v) => Some(v as u8),
        None => None,
    }
}

fn parse_hex_color(text: &[char], hex: &[char]) -> (r: Result<Vec<u8>, String>)
    ensures
        bytes_outcome(r) == hex_color(text@, hex@),
{
    if width_of(hex) != 8 {
        return Err(message_on(text, "': Color hex precisa de 8 dígitos (#RRGGBBAA)"));
    }
    if hex.len() == 8 {
        if let (Some(r), Some(g), Some(b), Some(a)) = (
            pair_at(hex, 0),
            pair_at(hex, 2),
            pair_at(hex, 4),
            pair_at(hex, 6),
        ) {
            let mut out: Vec<u8> = Vec::new();
            out.push(r);
            out.push(g);
            out.push(b);
            out.push(a);
            proof {
                assert(out@ =~= hex_color(text@, hex@)->Ok_0);
            }
            return Ok(out);
        }
    }
    Err(invalid_message(text, "Color"))
}

spec fn after_bytes(front: Seq<u8>, r: Result<Seq<u8>, Seq<char>>) -> Result<Seq<u8>, Seq<char>> {
    match r {
        Ok(v) => Ok(front + v),
        Err(e) => Err(e),
    }
}

/// A colour as `r,g,b,a` or `#RRGGBBAA`.
fn parse_color(text: &[char]) -> (r: Result<Vec<u8>, String>)
    ensures
        bytes_outcome(r) == color_value(text@),
{
    if text.len() > 0 && text[0] == '#' {
        proof {
            assert(text@.subrange(1, text@.len() as int) =~= text@.skip(1));
        }
        return parse_hex_color(text, slice_subrange(text, 1, text.len()));
    }
    let parts = split_char(text, ',');
    let ghost all = split_at(text@, ',');
    if parts.len() != 4 {
        return Err(message_on(text, "': Color precisa de 'r,g,b,a' (0-255) ou '#RRGGBBAA'"));
    }
    let mut out: Vec<u8> = Vec::new();
    let mut i: usize = 0;
    proof {
        match channel_values(all, 0) {
            Ok(v) => {
                assert(out@ + v =~= v);
            },
            Err(_) => {},
        }
    }
    while i < parts.len()
        invariant
            i <= parts.len(),
            all == slices_view(parts@),
            color_value(text@) == channel_values(all, 0),
            channel_values(all, 0) == after_bytes(out@, channel_values(all, i as int)),
        decreases parts.len() - i,
    {
        proof {
            assert(all[i as int] == parts@[i as int]@);
        }
        let p = trim(parts[i]);
        match parse_unsigned(p, 10, 255) {
            None => {
                return Err(invalid_message(p, "Color (0-255)"));
            },
            Some(n) => {
                let ghost before = out@;
                out.push(n as u8);
                proof {
                    match channel_values(all, i + 1) {
                        Ok(v) => {
                            assert(out@ + v =~= before + (seq![n as u8] + v));
                        },
                        Err(_) => {},
                    }
                }
            },
        }
        i += 1;
    }
    proof {
        assert(out@ + Seq::empty() =~= out@);
    }
    Ok(out)
}

// ---- floats ----------------------------------------------------------------

/// How many floats a type is made of; none for the other types.
pub open spec fn float_count(type_index: int) -> nat {
    if type_index == 4 {
        1
    } else if type_index == 15 || type_index == 18 {
        3
    } else if type_index == 16 {
        4
    } else if type_index == 17 {
        2
    } else {
        0
    }
}

pub open spec fn float_label(type_index: int) -> Seq<char> {
    if type_index == 4 {
        "Float"@
    } else if type_index == 15 {
        "EulerAngles"@
    } else if type_index == 16 {
        "Quaternion"@
    } else if type_index == 17 {
        "Vector2"@
    } else {
        "Vector3"@
    }
}

/// The texts of the floats of a value: the whole text of a single float, the
/// parts between the commas of a structure.
pub open spec fn float_texts_of(type_index: int, text: Seq<char>) -> Result<
    Seq<Seq<char>>,
    Seq<char>,
> {
    let t = trimmed(text);
    let parts = split_at(t, ',').map_values(|p: Seq<char>| trimmed(p));
    if type_index == 4 {
        Ok(seq![t])
    } else if parts.len() != float_count(type_index) {
        Err(
            "'"@ + t + "': "@ + float_label(type_index) + " precisa de "@ + dec(
                float_count(type_index),
            ) + " floats separados por vírgula"@,
        )
    } else {
        Ok(parts)
    }
}

fn label_of(type_index: usize) -> (r: &'static str)
    ensures
        r@ == float_label(type_index as int),
{
    if type_index == 4 {
        "Float"
    } else if type_index == 15 {
        "EulerAngles"
    } else if type_index == 16 {
        "Quaternion"
    } else if type_index == 17 {
        "Vector2"
    } else {
        "Vector3"
    }
}

/// How many floats a type is made of; none for the other types.
pub fn count_floats(type_index: usize) -> (r: usize)
    ensures
        r == float_count(type_index as int),
{
    if type_index == 4 {
        1
    } else if type_index == 15 || type_index == 18 {
        3
    } else if type_index == 16 {
        4
    } else if type_index == 17 {
        2
    } else {
        0
    }
}

/// The texts of the floats of a value, for the caller to read as floats.
pub fn float_texts(type_index: usize, text: &str) -> (r: Result<Vec<String>, String>)
    requires
        float_count(type_index as int) > 0,
    ensures
        match r {
            Ok(v) => float_texts_of(type_index as int, text@) == Ok::<Seq<Seq<char>>, Seq<char>>(
                crate::text::strings_view(v@),
            ),
            Err(e) => float_texts_of(type_index as int, text@) == Err::<
                Seq<Seq<char>>,
                Seq<char>,
            >(e@),
        },
{
    let v = chars_of(text);
    let t = trim(v.as_slice());
    let mut out: Vec<String> = Vec::new();
    if type_index == 4 {
        out.push(string_of(t));
        proof {
            assert(crate::text::strings_view(out@) =~= seq![t@]);
        }
        return Ok(out);
    }
    let parts = split_char(t, ',');
    let ghost all = split_at(t@, ',').map_values(|p: Seq<char>| trimmed(p));
    let n: usize = count_floats(type_index);
    if parts.len() != n {
        let mut m: Vec<char> = Vec::new();
        push_lit(&mut m, "'");
        push_chars(&mut m, t);
        push_lit(&mut m, "': ");
        push_lit(&mut m, label_of(type_index));
        push_lit(&mut m, " precisa de ");
        push_dec(&mut m, n as u128);
        push_lit(&mut m, " floats separados por vírgula");
        proof {
            assert(m@ =~= float_texts_of(type_index as int, text@)->Err_0);
        }
        return Err(string_of(m.as_slice()));
    }
    let mut i: usize = 0;
    while i < parts.len()
        invariant
            i <= parts.len(),
            slices_view(parts@) == split_at(t@, ','),
            all == split_at(t@, ',').map_values(|p: Seq<char>| trimmed(p)),
            crate::text::strings_view(out@) == all.take(i as int),
        decreases parts.len() - i,
    {
        proof {
            assert(slices_view(parts@)[i as int] == parts@[i as int]@);
        }
        let part = string_of(trim(parts[i]));
        let ghost before = out@;
        out.push(part);
        i += 1;
        proof {
            assert(all[i - 1] == part@);
            assert(crate::text::strings_view(out@) =~= crate::text::strings_view(before).push(
                part@,
            ));
            assert(crate::text::strings_view(out@) =~= all.take(i as int));
        }
    }
    proof {
        assert(all.take(i as int) =~= all);
    }
    Ok(out)
}

/// The bytes of a value made of floats, where `bits[k]` is the bit pattern of
/// the float that the `k`-th text was read as.
pub open spec fn float_bytes(texts: Seq<Seq<char>>, bits: Seq<Option<u32>>, label: Seq<char>, i: int)
    -> Result<Seq<u8>, Seq<char>>
    decreases texts.len() - i,
{
    if i < 0 || i >= texts.len() {
        Ok(Seq::empty())
    } else {
        match bits[i] {
            None => Err(invalid(texts[i], label)),
            Some(b) => match float_bytes(texts, bits, label, i + 1) {
                Err(e) => Err(e),
                Ok(rest) => Ok(le_bytes(b as nat, 4) + rest),
            },
        }
    }
}

/// Encodes a value made of floats. `bits` holds, for each of its texts, the bit
/// pattern of the float, or nothing where the text is no float.
pub fn encode_floats(type_index: usize, text: &str, bits: &Vec<Option<u32>>) -> (r: Result<
    Vec<u8>,
    String,
>)
    requires
        float_count(type_index as int) > 0,
        float_texts_of(type_index as int, text@) is Ok ==> bits@.len() == float_count(
            type_index as int,
        ),
    ensures
        bytes_outcome(r) == match float_texts_of(type_index as int, text@) {
            Err(e) => Err::<Seq<u8>, Seq<char>>(e),
            Ok(texts) => float_bytes(texts, bits@, float_label(type_index as int), 0),
        },
{
    let texts = match float_texts(type_index, text) {
        Err(e) => {
            return Err(e);
        },
        Ok(v) => v,
    };
    let label = label_of(type_index);
    let ghost all = crate::text::strings_view(texts@);
    proof {
        assert(all.len() == float_count(type_index as int));
    }
    let mut out: Vec<u8> = Vec::new();
    let mut i: usize = 0;
    proof {
        match float_bytes(all, bits@, label@, 0) {
            Ok(v) => {
                assert(out@ + v =~= v);
            },
            Err(_) => {},
        }
    }
    while i < texts.len()
        invariant
            i <= texts.len(),
            bits@.len() == texts@.len(),
            all == crate::text::strings_view(texts@),
            float_texts_of(type_index as int, text@) == Ok::<Seq<Seq<char>>, Seq<char>>(all),
            label@ == float_label(type_index as int),
            float_bytes(all, bits@, label@, 0) == after_bytes(
                out@,
                float_bytes(all, bits@, label@, i as int),
            ),
        decreases texts.len() - i,
    {
        proof {
            assert(all[i as int] == texts@[i as int]@);
        }
        match bits[i] {
            None => {
                let t = chars_of(texts[i].as_str());
                return Err(invalid_message(t.as_slice(), label));
            },
            Some(b) => {
                let ghost before = out@;
                push_le(&mut out, b as u64, 4);
                proof {
                    match float_bytes(all, bits@, label@, i + 1) {
                        Ok(v) => {
                            assert(out@ + v =~= before + (le_bytes(b as nat, 4) + v));
                        },
                        Err(_) => {},
                    }
                }
            },
        }
        i += 1;
    }
    proof {
        assert(out@ + Seq::empty() =~= out@);
    }
    Ok(out)
}

// ---- values ----------------------------------------------------------------

/// The bytes of an unsigned number of `width` bytes.
pub open spec fn unsigned_bytes(t: Seq<char>, width: nat, max: nat, label: Seq<char>) -> Result<
    Seq<u8>,
    Seq<char>,
> {
    match unsigned_within(t, 10, max) {
        Some(n) => Ok(le_bytes(n, width)),
        None => Err(invalid(t, label)),
    }
}

/// The bytes of a signed number of `width` bytes, in two's complement.
pub open spec fn signed_bytes(t: Seq<char>, width: nat, min: int, max: int, label: Seq<char>)
    -> Result<Seq<u8>, Seq<char>> {
    match signed_within(t, min, max) {
        Some(n) => Ok(
            le_bytes(
                (if n < 0 {
                    n + 2 * (max + 1)
                } else {
                    n
                }) as nat,
                width,
            ),
        ),
        None => Err(invalid(t, label)),
    }
}

/// The bytes of the value that a text denotes, for the types without floats.
pub open spec fn encoded(type_index: int, text: Seq<char>) -> Result<Seq<u8>, Seq<char>> {
    let t = trimmed(text);
    if type_index == 0 {
        Ok(string_bytes(cname_text(t)))
    } else if type_index == 1 {
        Ok(string_bytes(t))
    } else if type_index == 2 || type_index == 3 || type_index == 19 {
        match id_value(t) {
            Ok(v) => Ok(le_bytes(v as nat, 8)),
            Err(e) => Err(e),
        }
    } else if type_index == 5 {
        match bool_value(t) {
            Ok(v) => Ok(seq![v]),
            Err(e) => Err(e),
        }
    } else if type_index == 6 {
        unsigned_bytes(t, 1, u8::MAX as nat, "Uint8"@)
    } else if type_index == 7 {
        unsigned_bytes(t, 2, u16::MAX as nat, "Uint16"@)
    } else if type_index == 8 {
        unsigned_bytes(t, 4, u32::MAX as nat, "Uint32"@)
    } else if type_index == 9 {
        unsigned_bytes(t, 8, u64::MAX as nat, "Uint64"@)
    } else if type_index == 10 {
        signed_bytes(t, 1, i8::MIN as int, i8::MAX as int, "Int8"@)
    } else if type_index == 11 {
        signed_bytes(t, 2, i16::MIN as int, i16::MAX as int, "Int16"@)
    } else if type_index == 12 {
        signed_bytes(t, 4, i32::MIN as int, i32::MAX as int, "Int32"@)
    } else if type_index == 13 {
        signed_bytes(t, 8, i64::MIN as int, i64::MAX as int, "Int64"@)
    } else if type_index == 14 {
        color_value(t)
    } else {
        Err("índice de tipo "@ + dec(type_index as nat) + " desconhecido"@)
    }
}

fn encode_unsigned(t: &[char], width: u8, max: u64, label: &str) -> (r: Result<Vec<u8>, String>)
    ensures
        bytes_outcome(r) == unsigned_bytes(t@, width as nat, max as nat, label@),
{
    match parse_unsigned(t, 10, max) {
        None => Err(invalid_message(t, label)),
        Some(n) => {
            let mut out: Vec<u8> = Vec::new();
            push_le(&mut out, n, width);
            proof {
                assert(out@ =~= le_bytes(n as nat, width as nat));
            }
            Ok(out)
        },
    }
}

fn encode_signed(t: &[char], width: u8, min: i64, max: i64, label: &str) -> (r: Result<
    Vec<u8>,
    String,
>)
    requires
        min < 0 <= max,
        min == -max - 1,
    ensures
        bytes_outcome(r) == signed_bytes(t@, width as nat, min as int, max as int, label@),
{
    match parse_signed(t, min, max) {
        None => Err(invalid_message(t, label)),
        Some(n) => {
            let v: u64 = if n < 0 {
                (n as i128 + 2 * (max as i128 + 1)) as u64
            } else {
                n as u64
            };
            let mut out: Vec<u8> = Vec::new();
            push_le(&mut out, v, width);
            proof {
                assert(out@ =~= le_bytes(v as nat, width as nat));
            }
            Ok(out)
        },
    }
}

fn encode_string(s: &[char]) -> (r: Vec<u8>)
    requires
        encode_utf8(s@).len() <= i32::MAX,
    ensures
        r@ == string_bytes(s@),
{
    let t = string_of(s);
    encode_lp_string(t.as_str())
}

/// Encodes the value that a text denotes, for the types without floats. A
/// string must be short enough for its length to be written.
pub fn encode_value(type_index: usize, text: &str) -> (r: Result<Vec<u8>, String>)
    requires
        float_count(type_index as int) == 0,
        type_index == 0 ==> encode_utf8(cname_text(trimmed(text@))).len() <= i32::MAX,
        type_index == 1 ==> encode_utf8(trimmed(text@)).len() <= i32::MAX,
    ensures
        bytes_outcome(r) == encoded(type_index as int, text@),
{
    let v = chars_of(text);
    let t = trim(v.as_slice());
    match type_index {
        0 => Ok(encode_string(normalize_cname(t))),
        1 => Ok(encode_string(t)),
        2 | 3 | 19 => match parse_id(t) {
            Err(e) => Err(e),
            Ok(id) => {
                let mut out: Vec<u8> = Vec::new();
                push_le(&mut out, id, 8);
                proof {
                    assert(out@ =~= le_bytes(id as nat, 8));
                }
                Ok(out)
            },
        },
        5 => match parse_bool(t) {
            Err(e) => Err(e),
            Ok(b) => {
                let mut out: Vec<u8> = Vec::new();
                out.push(b);
                proof {
                    assert(out@ =~= seq![b]);
                }
                Ok(out)
            },
        },
        6 => encode_unsigned(t, 1, u8::MAX as u64, "Uint8"),
        7 => encode_unsigned(t, 2, u16::MAX as u64, "Uint16"),
        8 => encode_unsigned(t, 4, u32::MAX as u64, "Uint32"),
        9 => encode_unsigned(t, 8, u64::MAX, "Uint64"),
        10 => encode_signed(t, 1, i8::MIN as i64, i8::MAX as i64, "Int8"),
        11 => encode_signed(t, 2, i16::MIN as i64, i16::MAX as i64, "Int16"),
        12 => encode_signed(t, 4, i32::MIN as i64, i32::MAX as i64, "Int32"),
        13 => encode_signed(t, 8, i64::MIN, i64::MAX, "Int64"),
        14 => parse_color(t),
        _ => {
            let mut out: Vec<char> = Vec::new();
            push_lit(&mut out, "índice de tipo ");
            push_dec(&mut out, type_index as u128);
            push_lit(&mut out, " desconhecido");
            proof {
                assert(out@ =~= "índice de tipo "@ + dec(type_index as nat) + " desconhecido"@);
            }
            Err(string_of(out.as_slice()))
        },
    }
}

// ---- arrays ----------------------------------------------------------------

/// The elements one after another.
pub open spec fn concatenated(elements: Seq<Seq<u8>>) -> Seq<u8>
    decreases elements.len(),
{
    if elements.len() == 0 {
        Seq::empty()
    } else {
        concatenated(elements.drop_last()) + elements.last()
    }
}

/// The views of a list of blobs.
pub open spec fn blobs_view(v: Seq<Vec<u8>>) -> Seq<Seq<u8>> {
    v.map_values(|b: Vec<u8>| b@)
}

/// The bytes of an array: the number of elements, then the elements.
pub open spec fn array_bytes(elements: Seq<Seq<u8>>) -> Seq<u8> {
    vlq_bytes(elements.len() as int) + concatenated(elements)
}

/// Puts an array together from its encoded elements.
pub fn encode_array(elements: &[Vec<u8>]) -> (r: Vec<u8>)
    requires
        elements@.len() <= i32::MAX,
    ensures
        r@ == array_bytes(blobs_view(elements@)),
{
    let mut out = vlq_encode(elements.len() as i32);
    let ghost head = out@;
    let ghost all = blobs_view(elements@);
    let mut i: usize = 0;
    proof {
        assert(all.take(0) =~= Seq::empty());
        assert(head + concatenated(all.take(0)) =~= head);
    }
    while i < elements.len()
        invariant
            i <= elements.len(),
            all == blobs_view(elements@),
            out@ == head + concatenated(all.take(i as int)),
        decreases elements.len() - i,
    {
        push_bytes(&mut out, elements[i].as_slice());
        proof {
            assert(all.take(i + 1).drop_last() =~= all.take(i as int));
            assert(all.take(i + 1).last() == elements@[i as int]@);
            assert(out@ =~= head + concatenated(all.take(i + 1)));
        }
        i += 1;
    }
    proof {
        assert(all.take(i as int) =~= all);
    }
    out
}

} // verus!
