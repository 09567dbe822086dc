//! The local web interface, without its sockets: requests are taken apart and
//! routed, and answers are put together as JSON.
use vstd::prelude::*;
use vstd::slice::slice_subrange;
use vstd::utf8::encode_utf8;

use crate::cursor::{lossy_text, utf8_text};
use crate::encode::{lowercase, to_lowercase};
use crate::numbers::{digits_value, parse_unsigned, unsigned_within};
use crate::text::{after_prefix, chars_of, dec, hex_lower, index_of, is_lit, lemma_trimmed_start,
    next_index, push_dec, push_hex_lower, push_lit, same_str, slices_view, split_at, split_char,
    string_of, strings_view, strip_prefix, trim, trim_start, trimmed, trimmed_start};
use crate::yaml::next_space;

verus! {

// ---- JSON ------------------------------------------------------------------

/// A character inside a JSON string.
pub open spec fn json_char(c: char) -> Seq<char> {
    if c == '"' {
        seq!['\\', '"']
    } else if c == '\\' {
        seq!['\\', '\\']
    } else if c == '\n' {
        seq!['\\', 'n']
    } else if c == '\r' {
        seq!['\\', 'r']
    } else if c == '\t' {
        seq!['\\', 't']
    } else if ' ' > c {
        seq!['\\', 'u'] + hex_lower(c as u32 as nat, 4)
    } else {
        seq![c]
    }
}

/// The inside of a JSON string.
pub open spec fn json_escaped(s: Seq<char>) -> Seq<char>
    decreases s.len(),
{
    if s.len() == 0 {
        Seq::empty()
    } else {
        json_char(s[0]) + json_escaped(s.skip(1))
    }
}

pub open spec fn json_string(s: Seq<char>) -> Seq<char> {
    seq!['"'] + json_escaped(s) + seq!['"']
}

/// Appends a JSON string.
pub fn push_json(out: &mut Vec<char>, s: &str)
    ensures
        final(out)@ == old(out)@ + json_string(s@),
{
    let ghost start = out@;
    let v = chars_of(s);
    out.push('"');
    let ghost head = out@;
    let mut i: usize = 0;
    proof {
        assert(v@.skip(0) =~= v@);
        assert(out@ + json_escaped(v@) =~= head + json_escaped(v@));
    }
    while i < v.len()
        invariant
            i <= v@.len(),
            out@ + json_escaped(v@.skip(i as int)) == head + json_escaped(v@),
        decreases v@.len() - i,
    {
        let c: char = v[i];
        let ghost before = out@;
        if c == '"' {
            out.push('\\');
            out.push('"');
        } else if c == '\\' {
            out.push('\\');
            out.push('\\');
        } else if c == '\n' {
            out.push('\\');
            out.push('n');
        } else if c == '\r' {
            out.push('\\');
            out.push('r');
        } else if c == '\t' {
            out.push('\\');
            out.push('t');
        } else if ' ' > c {
            out.push('\\');
            out.push('u');
            push_hex_lower(out, c as u32 as u64, 4);
        } else {
            out.push(c);
        }
        proof {
            assert(out@ =~= before + json_char(c));
            assert(v@.skip(i as int)[0] == c);
            assert(v@.skip(i as int).skip(1) =~= v@.skip(i + 1));
            assert(out@ + json_escaped(v@.skip(i + 1)) =~= before + (json_char(c) + json_escaped(
                v@.skip(i + 1),
            )));
        }
        i += 1;
    }
    proof {
        assert(v@.skip(i as int) =~= Seq::empty());
        assert(out@ =~= head + json_escaped(v@));
    }
    out.push('"');
    proof {
        assert(out@ =~= start + json_string(s@));
    }
}

/// A text as a JSON string.
pub fn jstr(s: &str) -> (r: String)
    ensures
        r@ == json_string(s@),
{
    let mut out: Vec<char> = Vec::new();
    push_json(&mut out, s);
    proof {
        assert(out@ =~= json_string(s@));
    }
    string_of(out.as_slice())
}

pub open spec fn ok_json(msg: Seq<char>) -> Seq<char> {
    "{\"ok\":true,\"msg\":"@ + json_string(msg) + "}"@
}

pub open spec fn error_json(msg: Seq<char>) -> Seq<char> {
    "{\"ok\":false,\"error\":"@ + json_string(msg) + "}"@
}

pub fn jok(msg: &str) -> (r: String)
    ensures
        r@ == ok_json(msg@),
{
    let mut out: Vec<char> = Vec::new();
    push_lit(&mut out, "{\"ok\":true,\"msg\":");
    push_json(&mut out, msg);
    push_lit(&mut out, "}");
    proof {
        assert(out@ =~= ok_json(msg@));
    }
    string_of(out.as_slice())
}

pub fn jerror(msg: &str) -> (r: String)
    ensures
        r@ == error_json(msg@),
{
    let mut out: Vec<char> = Vec::new();
    push_lit(&mut out, "{\"ok\":false,\"error\":");
    push_json(&mut out, msg);
    push_lit(&mut out, "}");
    proof {
        assert(out@ =~= error_json(msg@));
    }
    string_of(out.as_slice())
}

/// What the inside of a JSON string stands for.
pub open spec fn json_unescaped(t: Seq<char>) -> Seq<char>
    decreases t.len(),
{
    if t.len() == 0 {
        Seq::empty()
    } else if t[0] != '\\' || t.len() == 1 {
        seq![t[0]] + json_unescaped(t.skip(1))
    } else if t[1] == 'n' {
        seq!['\n'] + json_unescaped(t.skip(2))
    } else if t[1] == 'r' {
        seq!['\r'] + json_unescaped(t.skip(2))
    } else if t[1] == 't' {
        seq!['\t'] + json_unescaped(t.skip(2))
    } else if t[1] == 'u' && t.len() >= 6 {
        seq![(digits_value(t.subrange(2, 6), 16) as u8) as char] + json_unescaped(t.skip(6))
    } else {
        seq![t[1]] + json_unescaped(t.skip(2))
    }
}

proof fn lemma_hex4(c: char)
    requires
        ' ' > c,
    ensures
        hex_lower(c as u32 as nat, 4).len() == 4,
        digits_value(hex_lower(c as u32 as nat, 4), 16) == c as u32 as nat,
        (digits_value(hex_lower(c as u32 as nat, 4), 16) as u8) as char == c,
{
    let n = c as u32 as nat;
    reveal_with_fuel(hex_lower, 5);
    reveal_with_fuel(digits_value, 5);
    let h = hex_lower(n, 4);
    assert(n < 32);
    assert(n / 16 < 2);
    assert(n / 16 / 16 == 0);
    assert(n / 16 / 16 / 16 == 0);
    let h3 = h.drop_last();
    assert(h3 =~= hex_lower(n / 16, 3));
    let h2 = h3.drop_last();
    assert(h2 =~= hex_lower(n / 16 / 16, 2));
    let h1 = h2.drop_last();
    assert(h1 =~= hex_lower(n / 16 / 16 / 16, 1));
    assert(h1.drop_last() =~= Seq::empty());
    assert(h1.last() == '0');
    assert(h2.last() == '0');
    assert(digits_value(h1, 16) == 0);
    assert(digits_value(h2, 16) == 0);
    assert(digits_value(h3, 16) == n / 16);
}

/// A text put into a JSON string is read back whole, and no control character
/// stands in it.
pub proof fn json_string_reads_back(s: Seq<char>)
    ensures
        json_unescaped(json_escaped(s)) == s,
        forall|i: int| 0 <= i < json_escaped(s).len() ==> #[trigger] json_escaped(s)[i] >= ' ',
    decreases s.len(),
{
    if s.len() > 0 {
        let c = s[0];
        let rest = s.skip(1);
        json_string_reads_back(rest);
        let e = json_char(c);
        let t = json_escaped(s);
        let more = json_escaped(rest);
        assert(t == e + more);
        assert(s =~= seq![c] + rest);
        if c == '"' || c == '\\' || c == '\n' || c == '\r' || c == '\t' {
            assert(t.skip(2) =~= more);
        } else if ' ' > c {
            lemma_hex4(c);
            assert(t.subrange(2, 6) =~= hex_lower(c as u32 as nat, 4));
            assert(t.skip(6) =~= more);
            reveal_with_fuel(hex_lower, 5);
        } else {
            assert(t.skip(1) =~= more);
        }
        assert forall|i: int| 0 <= i < t.len() implies #[trigger] t[i] >= ' ' by {
            if i >= e.len() {
                assert(t[i] == more[i - e.len()]);
            } else {
                assert(t[i] == e[i]);
                if ' ' > c && c != '\n' && c != '\r' && c != '\t' {
                    reveal_with_fuel(hex_lower, 5);
                }
            }
        }
    }
}

// ---- requests --------------------------------------------------------------

/// The byte that two characters behind a percent sign denote.
pub open spec fn percent_value(a: u8, b: u8) -> Option<nat> {
    if a < 128 && b < 128 {
        unsigned_within(seq![a as char, b as char], 16, 255)
    } else {
        None
    }
}

/// The bytes with `+` and `%XX` resolved.
pub open spec fn percent_bytes(s: Seq<u8>) -> Seq<u8>
    decreases s.len(),
{
    if s.len() == 0 {
        Seq::empty()
    } else if s[0] == 0x2b {
        seq![0x20u8] + percent_bytes(s.skip(1))
    } else if s[0] == 0x25 && s.len() > 2 && percent_value(s[1], s[2]) is Some {
        seq![percent_value(s[1], s[2])->0 as u8] + percent_bytes(s.skip(3))
    } else {
        seq![s[0]] + percent_bytes(s.skip(1))
    }
}

pub open spec fn percent_decoded(s: Seq<char>) -> Seq<char> {
    utf8_text(percent_bytes(encode_utf8(s)))
}

fn hex_byte(a: u8, b: u8) -> (r: Option<u8>)
    ensures
        match r {
            Some(v) => percent_value(a, b) == Some(v as nat),
            None => percent_value(a, b) is None,
        },
{
    if a >= 128 || b >= 128 {
        return None;
    }
    let mut v: Vec<char> = Vec::new();
    v.push(a as char);
    v.push(b as char);
    proof {
        assert(v@ =~= seq![a as char, b as char]);
    }
    match parse_unsigned(v.as_slice(), 16, 255) {
        Some(n) => Some(n as u8),
        None => None,
    }
}

/// Resolves `+` and `%XX` in a query.
pub fn percent_decode(s: &str) -> (r: String)
    ensures
        r@ == percent_decoded(s@),
{
    let bytes = s.as_bytes();
    let mut out: Vec<u8> = Vec::new();
    let mut i: usize = 0;
    proof {
        assert(bytes@.skip(0) =~= bytes@);
        assert(out@ + percent_bytes(bytes@) =~= percent_bytes(bytes@));
    }
    while i < bytes.len()
        invariant
            i <= bytes@.len(),
            out@ + percent_bytes(bytes@.skip(i as int)) == percent_bytes(bytes@),
        decreases bytes@.len() - i,
    {
        let ghost rest = bytes@.skip(i as int);
        let ghost before = out@;
        let b: u8 = bytes[i];
        let code: Option<u8> = if b == 0x25 && bytes.len() - i > 2 {
            hex_byte(bytes[i + 1], bytes[i + 2])
        } else {
            None
        };
        let step: usize = match code {
            Some(v) => {
                out.push(v);
                3
            },
            None => {
                out.push(
                    if b == 0x2b {
                        0x20
                    } else {
                        b
                    },
                );
                1
            },
        };
        proof {
            assert(rest[0] == b);
            if rest.len() > 2 {
                assert(rest[1] == bytes@[i + 1] && rest[2] == bytes@[i + 2]);
            }
            assert(rest.skip(step as int) =~= bytes@.skip(i + step));
            assert(percent_bytes(rest) == seq![out@.last()] + percent_bytes(
                rest.skip(step as int),
            ));
            assert(out@ + percent_bytes(bytes@.skip(i + step)) =~= before + percent_bytes(rest));
        }
        i += step;
    }
    proof {
        assert(bytes@.skip(i as int) =~= Seq::empty());
        assert(out@ + Seq::empty() =~= out@);
    }
    lossy_text(out.as_slice())
}

/// A pair of a query, `key=value` or a bare key.
pub open spec fn query_pair(p: Seq<char>) -> (Seq<char>, Seq<char>) {
    let k = next_index(p, '=', 0);
    if k >= p.len() {
        (percent_decoded(p), percent_decoded(Seq::empty()))
    } else {
        (percent_decoded(p.take(k)), percent_decoded(p.skip(k + 1)))
    }
}

/// The pairs of the parts, without empty parts.
pub open spec fn query_pairs(parts: Seq<Seq<char>>) -> Seq<(Seq<char>, Seq<char>)>
    decreases parts.len(),
{
    if parts.len() == 0 {
        Seq::empty()
    } else if parts.last().len() == 0 {
        query_pairs(parts.drop_last())
    } else {
        query_pairs(parts.drop_last()).push(query_pair(parts.last()))
    }
}

pub open spec fn text_pairs(v: Seq<(String, String)>) -> Seq<(Seq<char>, Seq<char>)> {
    v.map_values(|p: (String, String)| (p.0@, p.1@))
}

/// Takes a query `a=b&c=d` apart.
pub fn parse_query(q: &str) -> (r: Vec<(String, String)>)
    ensures
        text_pairs(r@) == query_pairs(split_at(q@, '&')),
{
    let v = chars_of(q);
    let parts = split_char(v.as_slice(), '&');
    let ghost all = split_at(q@, '&');
    let mut out: Vec<(String, String)> = Vec::new();
    let mut i: usize = 0;
    proof {
        assert(text_pairs(out@) =~= Seq::empty());
    }
    while i < parts.len()
        invariant
            i <= parts@.len(),
            all == slices_view(parts@),
            text_pairs(out@) == query_pairs(all.take(i as int)),
        decreases parts@.len() - i,
    {
        let p = parts[i];
        proof {
            assert(all.take(i + 1).drop_last() =~= all.take(i as int));
            assert(all.take(i + 1).last() == p@);
        }
        if p.len() > 0 {
            let k: usize = index_of(p, '=', 0);
            let ghost before = out@;
            let pair = if k >= p.len() {
                let key = string_of(p);
                (percent_decode(key.as_str()), percent_decode(""))
            } else {
                let key = string_of(slice_subrange(p, 0, k));
                let val = string_of(slice_subrange(p, k + 1, p.len()));
                proof {
                    assert(key@ =~= p@.take(k as int));
                    assert(val@ =~= p@.skip(k + 1));
                }
                (percent_decode(key.as_str()), percent_decode(val.as_str()))
            };
            out.push(pair);
            proof {
                reveal_strlit("");
                assert(""@ =~= Seq::<char>::empty());
                assert(text_pairs(out@) =~= text_pairs(before).push(query_pair(p@)));
            }
        }
        i += 1;
    }
    proof {
        assert(all.take(i as int) =~= all);
    }
    out
}

/// The value of the first pair with that key.
pub open spec fn query_value(pairs: Seq<(Seq<char>, Seq<char>)>, key: Seq<char>, i: int) -> Option<
    Seq<char>,
>
    decreases pairs.len() - i,
{
    if i >= pairs.len() {
        None
    } else if pairs[i].0 == key {
        Some(pairs[i].1)
    } else {
        query_value(pairs, key, i + 1)
    }
}

pub open spec fn opt_view(o: Option<String>) -> Option<Seq<char>> {
    match o {
        Some(s) => Some(s@),
        None => None,
    }
}

fn query_get(pairs: &Vec<(String, String)>, key: &str) -> (r: Option<String>)
    ensures
        opt_view(r) == query_value(text_pairs(pairs@), key@, 0),
{
    let mut i: usize = 0;
    while i < pairs.len()
        invariant
            i <= pairs@.len(),
            query_value(text_pairs(pairs@), key@, 0) == query_value(
                text_pairs(pairs@),
                key@,
                i as int,
            ),
        decreases pairs@.len() - i,
    {
        if same_str(pairs[i].0.as_str(), key) {
            return Some(pairs[i].1.clone());
        }
        i += 1;
    }
    None
}

/// The words of a text, between whitespace.
pub open spec fn words(s: Seq<char>) -> Seq<Seq<char>>
    decreases s.len(),
    via words_decreases
{
    let t = trimmed_start(s);
    if t.len() == 0 {
        Seq::empty()
    } else {
        let k = next_space(t, 0);
        seq![t.take(k)] + words(t.skip(k))
    }
}

#[via_fn]
proof fn words_decreases(s: Seq<char>) {
    lemma_trimmed_start(s);
    let t = trimmed_start(s);
    if t.len() > 0 {
        lemma_first_word(t);
    }
}

proof fn lemma_first_word(t: Seq<char>)
    requires
        t.len() > 0,
        !crate::text::is_space(t[0]),
    ensures
        0 < next_space(t, 0) <= t.len(),
{
    lemma_space_bounds(t, 1);
}

proof fn lemma_space_bounds(t: Seq<char>, i: int)
    requires
        0 <= i <= t.len(),
    ensures
        i <= next_space(t, i) <= t.len(),
    decreases t.len() - i,
{
    if i < t.len() && !crate::text::is_space(t[i]) {
        lemma_space_bounds(t, i + 1);
    }
}

fn split_words<'a>(s: &'a [char]) -> (r: Vec<&'a [char]>)
    ensures
        slices_view(r@) == words(s@),
{
    let mut out: Vec<&'a [char]> = Vec::new();
    let mut rest: &'a [char] = s;
    proof {
        assert(slices_view(out@) + words(s@) =~= words(s@));
    }
    loop
        invariant
            slices_view(out@) + words(rest@) == words(s@),
        decreases rest@.len(),
    {
        let t = trim_start(rest);
        if t.len() == 0 {
            proof {
                assert(slices_view(out@) + Seq::empty() =~= slices_view(out@));
            }
            return out;
        }
        proof {
            lemma_trimmed_start(rest@);
            lemma_first_word(t@);
        }
        let mut k: usize = 0;
        while k < t.len() && !crate::text::is_whitespace(t[k])
            invariant
                k <= t@.len(),
                next_space(t@, 0) == next_space(t@, k as int),
            decreases t@.len() - k,
        {
            k += 1;
        }
        let word = slice_subrange(t, 0, k);
        let ghost before = out@;
        out.push(word);
        rest = slice_subrange(t, k, t.len());
        proof {
            assert(word@ =~= t@.take(k as int));
            assert(rest@ =~= t@.skip(k as int));
            assert(slices_view(out@) =~= slices_view(before).push(word@));
            assert(slices_view(out@) + words(rest@) =~= slices_view(before) + (seq![word@]
                + words(rest@)));
        }
    }
}

/// The first line of a request: method, path and query.
pub struct RequestLine {
    pub method: String,
    pub path: String,
    pub query: String,
}

pub struct RequestLineV {
    pub method: Seq<char>,
    pub path: Seq<char>,
    pub query: Seq<char>,
}

impl View for RequestLine {
    type V = RequestLineV;

    open spec fn view(&self) -> RequestLineV {
        RequestLineV { method: self.method@, path: self.path@, query: self.query@ }
    }
}

/// A missing method is empty, a missing path is `/`; the query follows the
/// first question mark.
pub open spec fn request_of(line: Seq<char>) -> RequestLineV {
    let ws = words(line);
    let method = if ws.len() > 0 {
        ws[0]
    } else {
        Seq::empty()
    };
    let raw = if ws.len() > 1 {
        ws[1]
    } else {
        seq!['/']
    };
    let k = next_index(raw, '?', 0);
    if k >= raw.len() {
        RequestLineV { method, path: raw, query: Seq::empty() }
    } else {
        RequestLineV { method, path: raw.take(k), query: raw.skip(k + 1) }
    }
}

pub fn parse_request_line(line: &str) -> (r: RequestLine)
    ensures
        r@ == request_of(line@),
{
    let v = chars_of(line);
    let ws = split_words(v.as_slice());
    let method = if ws.len() > 0 {
        string_of(ws[0])
    } else {
        String::new()
    };
    let mut slash: Vec<char> = Vec::new();
    slash.push('/');
    proof {
        assert(slash@ =~= seq!['/']);
        if ws@.len() > 0 {
            assert(slices_view(ws@)[0] == ws@[0]@);
        }
        if ws@.len() > 1 {
            assert(slices_view(ws@)[1] == ws@[1]@);
        }
    }
    let raw: &[char] = if ws.len() > 1 {
        ws[1]
    } else {
        slash.as_slice()
    };
    let k: usize = index_of(raw, '?', 0);
    if k >= raw.len() {
        RequestLine { method, path: string_of(raw), query: String::new() }
    } else {
        let path = string_of(slice_subrange(raw, 0, k));
        let query = string_of(slice_subrange(raw, k + 1, raw.len()));
        proof {
            assert(path@ =~= raw@.take(k as int));
            assert(query@ =~= raw@.skip(k + 1));
        }
        RequestLine { method, path, query }
    }
}

/// The length that a header line announces, where it is that header; zero where
/// its value is no number.
pub open spec fn announced_length(header: Seq<char>) -> Option<nat> {
    match after_prefix(lowercase(header), "content-length:"@) {
        None => None,
        Some(v) => match unsigned_within(trimmed(v), 10, usize::MAX as nat) {
            Some(n) => Some(n),
            None => Some(0),
        },
    }
}

/// The length of the body: the last header that announces one counts.
pub open spec fn body_length(headers: Seq<Seq<char>>) -> nat
    decreases headers.len(),
{
    if headers.len() == 0 {
        0
    } else {
        match announced_length(headers.last()) {
            Some(n) => n,
            None => body_length(headers.drop_last()),
        }
    }
}

pub fn content_length(headers: &Vec<String>) -> (r: usize)
    ensures
        r == body_length(strings_view(headers@)),
{
    let ghost all = strings_view(headers@);
    let mut n: usize = headers.len();
    proof {
        assert(all.take(n as int) =~= all);
    }
    while n > 0
        invariant
            n <= headers@.len(),
            all == strings_view(headers@),
            body_length(all) == body_length(all.take(n as int)),
        decreases n,
    {
        let h = chars_of(headers[n - 1].as_str());
        let low = to_lowercase(h.as_slice());
        proof {
            assert(all.take(n as int).drop_last() =~= all.take(n - 1));
            assert(all.take(n as int).last() == headers@[n - 1]@);
        }
        if let Some(v) = strip_prefix(low.as_slice(), "content-length:") {
            return match parse_unsigned(trim(v), 10, usize::MAX as u64) {
                Some(k) => k as usize,
                None => 0,
            };
        }
        n -= 1;
    }
    0
}

/// The words that go with a status.
pub open spec fn reason_of(status: u16) -> Seq<char> {
    if status == 400 {
        "Bad Request"@
    } else if status == 404 {
        "Not Found"@
    } else if status == 500 {
        "Internal Server Error"@
    } else {
        "OK"@
    }
}

/// The head of a response.
pub open spec fn response_head(status: u16, ctype: Seq<char>, body_len: nat) -> Seq<char> {
    "HTTP/1.1 "@ + dec(status as nat) + " "@ + reason_of(status) + "\r\nContent-Type: "@ + ctype
        + "\r\nContent-Length: "@ + dec(body_len)
        + "\r\nConnection: close\r\nCache-Control: no-store\r\n\r\n"@
}

pub fn response_header(status: u16, ctype: &str, body_len: usize) -> (r: String)
    ensures
        r@ == response_head(status, ctype@, body_len as nat),
{
    let reason = match status {
        400 => "Bad Request",
        404 => "Not Found",
        500 => "Internal Server Error",
        _ => "OK",
    };
    let mut out: Vec<char> = Vec::new();
    push_lit(&mut out, "HTTP/1.1 ");
    push_dec(&mut out, status as u128);
    push_lit(&mut out, " ");
    push_lit(&mut out, reason);
    push_lit(&mut out, "\r\nContent-Type: ");
    push_lit(&mut out, ctype);
    push_lit(&mut out, "\r\nContent-Length: ");
    push_dec(&mut out, body_len as u128);
    push_lit(&mut out, "\r\nConnection: close\r\nCache-Control: no-store\r\n\r\n");
    proof {
        assert(out@ =~= response_head(status, ctype@, body_len as nat));
    }
    string_of(out.as_slice())
}

/// What a request asks for.
pub enum Route {
    Index,
    Status,
    Areas,
    Find { q: String },
    Record { name: String },
    Records { class: Option<String>, like: Option<String>, key: Option<String> },
    Apply { yaml: bool, check_only: bool },
    Install,
    Uninstall,
    Backup,
    NotFound,
}

pub enum RouteV {
    Index,
    Status,
    Areas,
    Find { q: Seq<char> },
    Record { name: Seq<char> },
    Records { class: Option<Seq<char>>, like: Option<Seq<char>>, key: Option<Seq<char>> },
    Apply { yaml: bool, check_only: bool },
    Install,
    Uninstall,
    Backup,
    NotFound,
}

impl View for Route {
    type V = RouteV;

    open spec fn view(&self) -> RouteV {
        match self {
            Route::Index => RouteV::Index,
            Route::Status => RouteV::Status,
            Route::Areas => RouteV::Areas,
            Route::Find { q } => RouteV::Find { q: q@ },
            Route::Record { name } => RouteV::Record { name: name@ },
            Route::Records { class, like, key } => RouteV::Records {
                class: opt_view(*class),
                like: opt_view(*like),
                key: opt_view(*key),
            },
            Route::Apply { yaml, check_only } => RouteV::Apply {
                yaml: *yaml,
                check_only: *check_only,
            },
            Route::Install => RouteV::Install,
            Route::Uninstall => RouteV::Uninstall,
            Route::Backup => RouteV::Backup,
            Route::NotFound => RouteV::NotFound,
        }
    }
}

pub open spec fn or_empty(o: Option<Seq<char>>) -> Seq<char> {
    match o {
        Some(s) => s,
        None => Seq::empty(),
    }
}

pub open spec fn route_of(req: RequestLineV) -> RouteV {
    let q = query_pairs(split_at(req.query, '&'));
    let get = req.method == "GET"@;
    let post = req.method == "POST"@;
    if get && req.path == "/"@ {
        RouteV::Index
    } else if get && req.path == "/api/status"@ {
        RouteV::Status
    } else if get && req.path == "/api/areas"@ {
        RouteV::Areas
    } else if get && req.path == "/api/find"@ {
        RouteV::Find { q: or_empty(query_value(q, "q"@, 0)) }
    } else if get && req.path == "/api/record"@ {
        RouteV::Record { name: or_empty(query_value(q, "name"@, 0)) }
    } else if get && req.path == "/api/records"@ {
        RouteV::Records {
            class: query_value(q, "class"@, 0),
            like: query_value(q, "like"@, 0),
            key: query_value(q, "key"@, 0),
        }
    } else if post && req.path == "/api/check"@ {
        RouteV::Apply { yaml: query_value(q, "yaml"@, 0) is Some, check_only: true }
    } else if post && req.path == "/api/apply"@ {
        RouteV::Apply { yaml: query_value(q, "yaml"@, 0) is Some, check_only: false }
    } else if post && req.path == "/api/install"@ {
        RouteV::Install
    } else if post && req.path == "/api/uninstall"@ {
        RouteV::Uninstall
    } else if post && req.path == "/api/backup"@ {
        RouteV::Backup
    } else {
        RouteV::NotFound
    }
}

fn or_default(o: Option<String>) -> (r: String)
    ensures
        r@ == or_empty(opt_view(o)),
{
    match o {
        Some(s) => s,
        None => String::new(),
    }
}

/// Decides what a request asks for.
pub fn route(req: &RequestLine) -> (r: Route)
    ensures
        r@ == route_of(req@),
{
    let q = parse_query(req.query.as_str());
    let get: bool = same_str(req.method.as_str(), "GET");
    let post: bool = same_str(req.method.as_str(), "POST");
    let path = chars_of(req.path.as_str());
    let p = path.as_slice();
    if get && is_lit(p, "/") {
        Route::Index
    } else if get && is_lit(p, "/api/status") {
        Route::Status
    } else if get && is_lit(p, "/api/areas") {
        Route::Areas
    } else if get && is_lit(p, "/api/find") {
        Route::Find { q: or_default(query_get(&q, "q")) }
    } else if get && is_lit(p, "/api/record") {
        Route::Record { name: or_default(query_get(&q, "name")) }
    } else if get && is_lit(p, "/api/records") {
        Route::Records {
            class: query_get(&q, "class"),
            like: query_get(&q, "like"),
            key: query_get(&q, "key"),
        }
    } else if post && is_lit(p, "/api/check") {
        Route::Apply { yaml: query_get(&q, "yaml").is_some(), check_only: true }
    } else if post && is_lit(p, "/api/apply") {
        Route::Apply { yaml: query_get(&q, "yaml").is_some(), check_only: false }
    } else if post && is_lit(p, "/api/install") {
        Route::Install
    } else if post && is_lit(p, "/api/uninstall") {
        Route::Uninstall
    } else if post && is_lit(p, "/api/backup") {
        Route::Backup
    } else {
        Route::NotFound
    }
}

} // verus!
