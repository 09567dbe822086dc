//! What a request says and what the answers hold.
use vstd::prelude::*;

use crate::encode::lowercase;
use crate::hashes::{id_of, type_key_of};
use crate::names::name_of;
use crate::number_laws::{
    decimal_digits_read_back, digits_count, hexadecimal_digits_read_back, pow16,
};
use crate::numbers::{all_digits, digit_value};
use crate::text::{
    dec, has_prefix, hex_digit_upper, hex_upper, is_space, next_index, split_at, trimmed,
    trimmed_start,
};
use crate::tweakdb::{FlatValueV, Record};
use crate::webapi::{
    area_counts, area_of, bool_text, class_counts, deduped, install_state, key_index, key_of_record,
    names_with_key, properties_in, result_count, selected_key, tally_index, EditResult, KeyCountV,
};
use crate::webui::{
    announced_length, body_length, or_empty, percent_bytes, query_pairs, query_value, request_of,
    route_of, words, RequestLineV, RouteV,
};
use crate::yaml::next_space;

verus! {

// ---- requests --------------------------------------------------------------

/// A word: something without blanks.
pub open spec fn is_solid(w: Seq<char>) -> bool {
    w.len() > 0 && forall|i: int| 0 <= i < w.len() ==> !is_space(#[trigger] w[i])
}

proof fn lemma_word_end(w: Seq<char>, r: Seq<char>, i: int)
    requires
        is_solid(w),
        r.len() == 0 || r[0] == ' ',
        0 <= i <= w.len(),
    ensures
        next_space(w + r, i) == w.len(),
    decreases w.len() - i,
{
    let s = w + r;
    if i < w.len() {
        assert(s[i] == w[i]);
        lemma_word_end(w, r, i + 1);
    } else if r.len() > 0 {
        assert(s[i] == ' ');
    }
}

proof fn lemma_words(w: Seq<char>, r: Seq<char>)
    requires
        is_solid(w),
        r.len() == 0 || r[0] == ' ',
    ensures
        words(w + r) == seq![w] + words(r),
        words(seq![' '] + w + r) == seq![w] + words(r),
{
    let s = w + r;
    assert(s[0] == w[0]);
    assert(!is_space(w[0]));
    lemma_word_end(w, r, 0);
    assert(s.take(w.len() as int) =~= w);
    assert(s.skip(w.len() as int) =~= r);
    let t = seq![' '] + w + r;
    assert(t.skip(1) =~= s);
    assert(t[0] == ' ');
    assert(trimmed_start(t) == trimmed_start(t.skip(1)));
    assert(trimmed_start(s) == s);
}

proof fn lemma_mark(p: Seq<char>, q: Seq<char>, i: int)
    requires
        !p.contains('?'),
        0 <= i <= p.len(),
    ensures
        next_index(p, '?', i) == p.len(),
        next_index(p + seq!['?'] + q, '?', i) == p.len(),
    decreases p.len() - i,
{
    let s = p + seq!['?'] + q;
    if i < p.len() {
        assert(s[i] == p[i]);
        assert(p.contains(p[i]));
        lemma_mark(p, q, i + 1);
    } else {
        assert(s[i] == '?');
    }
}

/// The first line of a request is its method, its path, and behind the first question
/// mark its query.
pub proof fn requests_are_their_words(m: Seq<char>, p: Seq<char>, q: Seq<char>, v: Seq<char>)
    requires
        is_solid(m),
        is_solid(p),
        !p.contains('?'),
        forall|i: int| 0 <= i < q.len() ==> !is_space(#[trigger] q[i]),
        is_solid(v),
    ensures
        request_of(m + (seq![' '] + p + (seq![' '] + v))) == (RequestLineV {
            method: m,
            path: p,
            query: Seq::empty(),
        }),
        request_of(m + (seq![' '] + (p + seq!['?'] + q) + (seq![' '] + v))) == (RequestLineV {
            method: m,
            path: p,
            query: q,
        }),
{
    let raw = p + seq!['?'] + q;
    assert forall|i: int| 0 <= i < raw.len() implies !is_space(#[trigger] raw[i]) by {
        if i < p.len() {
            assert(raw[i] == p[i]);
        } else if i > p.len() {
            assert(raw[i] == q[i - p.len() - 1]);
        }
    }
    let tail = seq![' '] + v;
    lemma_words(p, tail);
    lemma_words(raw, tail);
    let a = seq![' '] + p + tail;
    let b = seq![' '] + raw + tail;
    lemma_words(m, a);
    lemma_words(m, b);
    lemma_mark(p, q, 0);
    let wa = words(m + a);
    let wb = words(m + b);
    assert(wa[0] == m && wa[1] == p);
    assert(wb[0] == m && wb[1] == raw);
    assert(raw.take(p.len() as int) =~= p);
    assert(raw.skip(p.len() as int + 1) =~= q);
}

/// A byte that is written as a percent sign and its two hexadecimal digits.
pub open spec fn percent_encoded(bytes: Seq<u8>) -> Seq<u8>
    decreases bytes.len(),
{
    if bytes.len() == 0 {
        Seq::empty()
    } else {
        let h = hex_upper(bytes[0] as nat, 2);
        seq![0x25u8, h[0] as u8, h[1] as u8] + percent_encoded(bytes.skip(1))
    }
}

/// Bytes that are written with percent signs are read back, every one of them.
pub proof fn percent_signs_read_back(bytes: Seq<u8>)
    ensures
        percent_bytes(percent_encoded(bytes)) == bytes,
    decreases bytes.len(),
{
    if bytes.len() > 0 {
        let rest = bytes.skip(1);
        let e = percent_encoded(bytes);
        let v = bytes[0] as nat;
        let h = hex_upper(v, 2);
        reveal_with_fuel(pow16, 3);
        hexadecimal_digits_read_back(v, 2);
        lemma_hex_digit_chars(v);
        percent_signs_read_back(rest);
        assert(e[0] == 0x25 && e[1] == h[0] as u8 && e[2] == h[1] as u8);
        assert(e.skip(3) =~= percent_encoded(rest));
        assert(seq![e[1] as char, e[2] as char] =~= h);
        assert(all_digits(h, 16)) by {
            assert(digit_value(h[0]) < 16);
            assert(digit_value(h[1]) < 16);
        }
        assert(h[0] != '+');
        assert(seq![bytes[0]] + rest =~= bytes);
    } else {
        assert(bytes =~= Seq::empty());
    }
}

proof fn lemma_hex_digit_chars(v: nat)
    ensures
        hex_upper(v, 2).len() == 2,
        (hex_upper(v, 2)[0] as u32) < 128,
        (hex_upper(v, 2)[1] as u32) < 128,
{
    reveal_with_fuel(hex_upper, 3);
    digits_count(v % 16);
    digits_count(v / 16 % 16);
    let h = hex_upper(v, 2);
    assert(h[1] == hex_digit_upper(v % 16));
    assert(h[0] == hex_digit_upper(v / 16 % 16));
}

/// A plus sign is a blank, and every byte that is neither a plus nor a percent sign
/// is itself.
pub proof fn other_bytes_are_themselves(b: u8, rest: Seq<u8>)
    ensures
        percent_bytes(seq![0x2bu8] + rest) == seq![0x20u8] + percent_bytes(rest),
        b != 0x2b && b != 0x25 ==> percent_bytes(seq![b] + rest) == seq![b] + percent_bytes(rest),
{
    assert((seq![0x2bu8] + rest).skip(1) =~= rest);
    assert((seq![b] + rest).skip(1) =~= rest);
}

/// Of several values under one name the first counts.
pub proof fn the_first_value_counts(pairs: Seq<(Seq<char>, Seq<char>)>, key: Seq<char>, i: int)
    ensures
        0 <= i < pairs.len() && pairs[i].0 == key && (forall|k: int|
            0 <= k < i ==> (#[trigger] pairs[k]).0 != key) ==> query_value(pairs, key, 0) == Some(
            pairs[i].1,
        ),
        (forall|k: int| 0 <= k < pairs.len() ==> (#[trigger] pairs[k]).0 != key) ==> query_value(
            pairs,
            key,
            0,
        ) is None,
{
    if 0 <= i < pairs.len() && pairs[i].0 == key && (forall|k: int|
        0 <= k < i ==> (#[trigger] pairs[k]).0 != key) {
        lemma_value_at(pairs, key, 0, i);
    }
    if forall|k: int| 0 <= k < pairs.len() ==> (#[trigger] pairs[k]).0 != key {
        lemma_no_value(pairs, key, 0);
    }
}

proof fn lemma_value_at(pairs: Seq<(Seq<char>, Seq<char>)>, key: Seq<char>, j: int, i: int)
    requires
        0 <= j <= i < pairs.len(),
        pairs[i].0 == key,
        forall|k: int| 0 <= k < i ==> (#[trigger] pairs[k]).0 != key,
    ensures
        query_value(pairs, key, j) == Some(pairs[i].1),
    decreases i - j,
{
    if j < i {
        assert(pairs[j].0 != key);
        lemma_value_at(pairs, key, j + 1, i);
    }
}

proof fn lemma_no_value(pairs: Seq<(Seq<char>, Seq<char>)>, key: Seq<char>, j: int)
    requires
        0 <= j <= pairs.len(),
        forall|k: int| 0 <= k < pairs.len() ==> (#[trigger] pairs[k]).0 != key,
    ensures
        query_value(pairs, key, j) is None,
    decreases pairs.len() - j,
{
    if j < pairs.len() {
        assert(pairs[j].0 != key);
        lemma_no_value(pairs, key, j + 1);
    }
}

/// The header with the length of the body, in any case of letters and with or
/// without blanks, announces it; of several the last counts.
pub proof fn lengths_are_announced(h: Seq<char>, n: nat, before: Seq<Seq<char>>)
    requires
        lowercase(h) == "content-length: "@ + dec(n),
        n <= usize::MAX,
    ensures
        announced_length(h) == Some(n),
        body_length(before.push(h)) == n,
{
    reveal_strlit("content-length: ");
    reveal_strlit("content-length:");
    let l = lowercase(h);
    let p = "content-length:"@;
    let d = dec(n);
    assert("content-length: "@ =~= p + seq![' ']);
    let v = seq![' '] + d;
    assert(l =~= p + v);
    assert((p + v).take(p.len() as int) =~= p);
    assert((p + v).skip(p.len() as int) =~= v);
    decimal_digits_read_back(n, usize::MAX as nat, 0, 0, 0);
    lemma_dec_ends(n);
    assert(v.skip(1) =~= d);
    assert(v[0] == ' ');
    assert(trimmed_start(v) == trimmed_start(v.skip(1)));
    assert(trimmed(v) == d);
    assert(before.push(h).drop_last() =~= before);
}

proof fn lemma_dec_ends(n: nat)
    ensures
        dec(n).len() > 0,
        '0' <= dec(n)[0] <= '9',
        '0' <= dec(n).last() <= '9',
    decreases n,
{
    if n >= 10 {
        lemma_dec_ends(n / 10);
        assert(dec(n)[0] == dec(n / 10)[0]);
    }
}

/// A header that announces no length changes nothing.
pub proof fn other_headers_announce_nothing(h: Seq<char>, before: Seq<Seq<char>>)
    requires
        !has_prefix(lowercase(h), "content-length:"@),
    ensures
        announced_length(h) is None,
        body_length(before.push(h)) == body_length(before),
{
    assert(before.push(h).drop_last() =~= before);
}

// ---- routes ----------------------------------------------------------------

proof fn lemma_methods()
    ensures
        "GET"@ != "POST"@,
{
    reveal_strlit("GET");
    reveal_strlit("POST");
    assert("GET"@.len() == 3 && "POST"@.len() == 4);
}

/// What only changes something is reached by POST alone, and what only reads by GET
/// alone; a path that is not known leads nowhere.
pub proof fn routes_keep_to_their_method(req: RequestLineV)
    ensures
        req.method != "GET"@ && req.method != "POST"@ ==> route_of(req) is NotFound,
        req.method == "GET"@ ==> !(route_of(req) is Apply) && !(route_of(req) is Install)
            && !(route_of(req) is Uninstall) && !(route_of(req) is Backup),
        req.method == "POST"@ ==> !(route_of(req) is Index) && !(route_of(req) is Status)
            && !(route_of(req) is Areas) && !(route_of(req) is Find) && !(route_of(req) is Record)
            && !(route_of(req) is Records),
        req.method == "POST"@ && req.path == "/api/install"@ ==> route_of(req) is Install,
        req.method == "POST"@ && req.path == "/api/uninstall"@ ==> route_of(req) is Uninstall,
        req.method == "POST"@ && req.path == "/api/backup"@ ==> route_of(req) is Backup,
        req.method == "GET"@ && req.path == "/"@ ==> route_of(req) is Index,
        req.method == "GET"@ && req.path == "/api/status"@ ==> route_of(req) is Status,
        req.method == "GET"@ && req.path == "/api/areas"@ ==> route_of(req) is Areas,
        route_of(req) is Index ==> req.path == "/"@,
        route_of(req) is Install ==> req.path == "/api/install"@,
        route_of(req) is Uninstall ==> req.path == "/api/uninstall"@,
        route_of(req) is Backup ==> req.path == "/api/backup"@,
{
    lemma_methods();
    lemma_paths();
}

proof fn lemma_paths()
    ensures
        "/"@.len() == 1,
        "/api/status"@.len() == 11 && "/api/status"@[5] == 's',
        "/api/areas"@.len() == 10 && "/api/areas"@[5] == 'a' && "/api/areas"@[6] == 'r',
        "/api/find"@.len() == 9,
        "/api/record"@.len() == 11 && "/api/record"@[5] == 'r',
        "/api/records"@.len() == 12 && "/api/records"@[5] == 'r',
        "/api/check"@.len() == 10 && "/api/check"@[5] == 'c',
        "/api/apply"@.len() == 10 && "/api/apply"@[5] == 'a' && "/api/apply"@[6] == 'p',
        "/api/install"@.len() == 12 && "/api/install"@[5] == 'i',
        "/api/uninstall"@.len() == 14,
        "/api/backup"@.len() == 11 && "/api/backup"@[5] == 'b',
{
    reveal_strlit("/");
    reveal_strlit("/api/status");
    reveal_strlit("/api/areas");
    reveal_strlit("/api/find");
    reveal_strlit("/api/record");
    reveal_strlit("/api/records");
    reveal_strlit("/api/check");
    reveal_strlit("/api/apply");
    reveal_strlit("/api/install");
    reveal_strlit("/api/uninstall");
    reveal_strlit("/api/backup");
}

/// What is asked for in the query is handed on under its own name.
pub proof fn queries_are_handed_on(req: RequestLineV)
    ensures
        ({
            let q = query_pairs(split_at(req.query, '&'));
            &&& req.method == "GET"@ && req.path == "/api/find"@ ==> route_of(req) == (
            RouteV::Find { q: or_empty(query_value(q, "q"@, 0)) })
            &&& req.method == "GET"@ && req.path == "/api/record"@ ==> route_of(req) == (
            RouteV::Record { name: or_empty(query_value(q, "name"@, 0)) })
            &&& req.method == "GET"@ && req.path == "/api/records"@ ==> route_of(req) == (
            RouteV::Records {
                class: query_value(q, "class"@, 0),
                like: query_value(q, "like"@, 0),
                key: query_value(q, "key"@, 0),
            })
            &&& req.method == "POST"@ && req.path == "/api/check"@ ==> route_of(req) == (
            RouteV::Apply { yaml: query_value(q, "yaml"@, 0) is Some, check_only: true })
            &&& req.method == "POST"@ && req.path == "/api/apply"@ ==> route_of(req) == (
            RouteV::Apply { yaml: query_value(q, "yaml"@, 0) is Some, check_only: false })
        }),
{
    lemma_methods();
    lemma_paths();
}

// ---- counting --------------------------------------------------------------

/// The area of a name is what stands before its first dot, or the whole of it.
pub proof fn areas_stand_before_the_dot(a: Seq<char>, r: Seq<char>)
    requires
        !a.contains('.'),
    ensures
        area_of(a + seq!['.'] + r) == a,
        area_of(a) == a,
{
    lemma_dot(a, r, 0);
    assert((a + seq!['.'] + r).take(a.len() as int) =~= a);
    assert(a.take(a.len() as int) =~= a);
}

proof fn lemma_dot(p: Seq<char>, q: Seq<char>, i: int)
    requires
        !p.contains('.'),
        0 <= i <= p.len(),
    ensures
        next_index(p, '.', i) == p.len(),
        next_index(p + seq!['.'] + q, '.', i) == p.len(),
    decreases p.len() - i,
{
    let s = p + seq!['.'] + q;
    if i < p.len() {
        assert(s[i] == p[i]);
        assert(p.contains(p[i]));
        lemma_dot(p, q, i + 1);
    } else {
        assert(s[i] == '.');
    }
}

/// How many names lie in an area.
pub open spec fn in_area(names: Seq<Seq<char>>, a: Seq<char>) -> nat
    decreases names.len(),
{
    if names.len() == 0 {
        0
    } else {
        in_area(names.drop_last(), a) + if area_of(names.last()) == a {
            1nat
        } else {
            0
        }
    }
}

/// Every area is listed once, with the number of names in it, and no other is.
pub proof fn areas_are_counted(names: Seq<Seq<char>>)
    ensures
        forall|i: int|
            0 <= i < area_counts(names).len() ==> (#[trigger] area_counts(names)[i]).1 == in_area(
                names,
                area_counts(names)[i].0,
            ) && area_counts(names)[i].1 > 0,
        forall|i: int, j: int|
            0 <= i < j < area_counts(names).len() ==> (#[trigger] area_counts(names)[i]).0 != (
            #[trigger] area_counts(names)[j]).0,
        forall|a: Seq<char>| #[trigger]
            in_area(names, a) > 0 ==> exists|i: int|
                0 <= i < area_counts(names).len() && (#[trigger] area_counts(names)[i]).0 == a,
    decreases names.len(),
{
    if names.len() > 0 {
        let front = names.drop_last();
        let t = area_counts(front);
        let s = area_of(names.last());
        let all = area_counts(names);
        areas_are_counted(front);
        lemma_tally(t, s, 0);
        let k = tally_index(t, s, 0);
        assert forall|i: int| 0 <= i < all.len() implies (#[trigger] all[i]).1 == in_area(
            names,
            all[i].0,
        ) && all[i].1 > 0 by {
            if i < t.len() {
                assert(t[i].1 == in_area(front, t[i].0));
                if i != k {
                    assert(all[i] == t[i]);
                    if k < t.len() {
                        assert(t[i].0 != t[k].0);
                    } else {
                        assert(t[i].0 != s);
                    }
                }
            } else {
                assert(in_area(front, s) == 0) by {
                    if in_area(front, s) > 0 {
                        let j = choose|j: int| 0 <= j < t.len() && (#[trigger] t[j]).0 == s;
                        assert(t[j].0 != s);
                    }
                }
            }
        }
        assert forall|i: int, j: int| 0 <= i < j < all.len() implies (#[trigger] all[i]).0 != (
        #[trigger] all[j]).0 by {
            if j < t.len() {
                assert(all[i].0 == t[i].0 && all[j].0 == t[j].0);
                assert(t[i].0 != t[j].0);
            } else {
                assert(all[i] == t[i]);
                assert(t[i].0 != s);
            }
        }
        assert forall|a: Seq<char>| #[trigger] in_area(names, a) > 0 implies exists|i: int|
            0 <= i < all.len() && (#[trigger] all[i]).0 == a by {
            if a == s {
                if k < t.len() {
                    assert(all[k].0 == a);
                } else {
                    assert(all[t.len() as int].0 == a);
                }
            } else {
                assert(in_area(front, a) > 0);
                let i = choose|i: int| 0 <= i < t.len() && (#[trigger] t[i]).0 == a;
                assert(all[i].0 == a);
            }
        }
    } else {
        assert(area_counts(names) =~= Seq::empty());
    }
}

proof fn lemma_tally(t: Seq<(Seq<char>, nat)>, s: Seq<char>, i: int)
    requires
        0 <= i <= t.len(),
    ensures
        i <= tally_index(t, s, i) <= t.len(),
        tally_index(t, s, i) < t.len() ==> t[tally_index(t, s, i)].0 == s,
        forall|k: int| i <= k < tally_index(t, s, i) ==> (#[trigger] t[k]).0 != s,
    decreases t.len() - i,
{
    if i < t.len() && t[i].0 != s {
        lemma_tally(t, s, i + 1);
    }
}

/// Every result is counted once, among those that went well or those that did not.
pub proof fn results_are_counted(v: Seq<EditResult>)
    ensures
        result_count(v, true) + result_count(v, false) == v.len(),
        result_count(v, false) == 0 <==> forall|i: int| 0 <= i < v.len() ==> (#[trigger] v[i]).ok,
    decreases v.len(),
{
    if v.len() > 0 {
        let front = v.drop_last();
        results_are_counted(front);
        if result_count(v, false) == 0 {
            assert forall|i: int| 0 <= i < v.len() implies (#[trigger] v[i]).ok by {
                if i < front.len() {
                    assert(front[i].ok);
                }
            }
        }
        if forall|i: int| 0 <= i < v.len() ==> (#[trigger] v[i]).ok {
            assert forall|i: int| 0 <= i < front.len() implies (#[trigger] front[i]).ok by {
                assert(v[i].ok);
            }
            assert(v[v.len() - 1].ok);
        }
    }
}

/// Of neighbours that are equal one stays, and nothing else is lost.
pub proof fn repeated_names_are_listed_once(l: Seq<Seq<char>>, x: Seq<char>)
    ensures
        deduped(l).contains(x) <==> l.contains(x),
        l.len() > 0 ==> deduped(l).len() > 0 && deduped(l).last() == l.last(),
        forall|i: int|
            0 <= i < deduped(l).len() - 1 ==> #[trigger] deduped(l)[i] != deduped(l)[i + 1],
    decreases l.len(),
{
    if l.len() > 0 {
        let front = l.drop_last();
        repeated_names_are_listed_once(front, x);
        let d = deduped(front);
        let all = deduped(l);
        if l.len() > 1 && l.last() == l[l.len() - 2] {
            assert(front.last() == l.last());
            if l.contains(x) {
                let k = choose|k: int| 0 <= k < l.len() && l[k] == x;
                if k < front.len() {
                    assert(front[k] == x);
                } else {
                    assert(front[front.len() - 1] == x);
                }
                assert(front.contains(x));
            }
            if front.contains(x) {
                let k = choose|k: int| 0 <= k < front.len() && front[k] == x;
                assert(l[k] == x);
            }
        } else {
            assert(all == d.push(l.last()));
            if l.contains(x) {
                let k = choose|k: int| 0 <= k < l.len() && l[k] == x;
                if k < front.len() {
                    assert(front[k] == x);
                    assert(d.contains(x));
                    let j = choose|j: int| 0 <= j < d.len() && d[j] == x;
                    assert(all[j] == x);
                } else {
                    assert(all[d.len() as int] == x);
                }
            }
            if all.contains(x) {
                let k = choose|k: int| 0 <= k < all.len() && all[k] == x;
                if k < d.len() {
                    assert(d[k] == x);
                    assert(front.contains(x));
                    let j = choose|j: int| 0 <= j < front.len() && front[j] == x;
                    assert(l[j] == x);
                } else {
                    assert(l[l.len() - 1] == x);
                }
            }
            assert forall|i: int| 0 <= i < all.len() - 1 implies #[trigger] all[i] != all[i + 1] by {
                if i < d.len() - 1 {
                    assert(d[i] != d[i + 1]);
                } else {
                    assert(d.len() > 0);
                    assert(front.len() > 0);
                    assert(all[i] == d.last());
                    assert(d.last() == front.last());
                    assert(front.last() == l[l.len() - 2]);
                }
            }
        }
    } else {
        assert(deduped(l) =~= Seq::empty());
    }
}

// ---- classes ---------------------------------------------------------------

/// A class that is named counts before a record that is named, and that before a key
/// that is given in hexadecimal.
pub proof fn classes_are_selected_in_order(
    records: Seq<Record>,
    class: Option<Seq<char>>,
    like: Option<Seq<char>>,
    c: Seq<char>,
    n: u32,
)
    ensures
        selected_key(records, Some(c), like, class) == Some(type_key_of(c)),
        selected_key(records, None, Some(c), class) == key_of_record(records, id_of(c), 0),
        selected_key(records, None, None, None) is None,
        selected_key(records, None, None, Some(hex_upper(n as nat, 8))) == Some(n),
{
    reveal_with_fuel(pow16, 9);
    let h = hex_upper(n as nat, 8);
    hexadecimal_digits_read_back(n as nat, 8);
    assert(all_digits(h, 16)) by {
        assert forall|i: int| 0 <= i < h.len() implies digit_value(#[trigger] h[i]) < 16 by {}
    }
    assert(digit_value(h[0]) < 16);
    assert(digit_value(h[1]) < 16);
    assert(h[0] != '+' && h[1] != 'x');
}

/// The key of a record is that of the first with its id.
pub proof fn the_first_record_counts(records: Seq<Record>, id: u64, i: int)
    ensures
        0 <= i < records.len() && records[i].id == id && (forall|k: int|
            0 <= k < i ==> (#[trigger] records[k]).id != id) ==> key_of_record(records, id, 0)
            == Some(records[i].type_key),
        (forall|k: int| 0 <= k < records.len() ==> (#[trigger] records[k]).id != id)
            ==> key_of_record(records, id, 0) is None,
{
    if 0 <= i < records.len() && records[i].id == id && (forall|k: int|
        0 <= k < i ==> (#[trigger] records[k]).id != id) {
        lemma_record_at(records, id, 0, i);
    }
    if forall|k: int| 0 <= k < records.len() ==> (#[trigger] records[k]).id != id {
        lemma_no_record(records, id, 0);
    }
}

proof fn lemma_record_at(records: Seq<Record>, id: u64, j: int, i: int)
    requires
        0 <= j <= i < records.len(),
        records[i].id == id,
        forall|k: int| 0 <= k < i ==> (#[trigger] records[k]).id != id,
    ensures
        key_of_record(records, id, j) == Some(records[i].type_key),
    decreases i - j,
{
    if j < i {
        assert(records[j].id != id);
        lemma_record_at(records, id, j + 1, i);
    }
}

proof fn lemma_no_record(records: Seq<Record>, id: u64, j: int)
    requires
        0 <= j <= records.len(),
        forall|k: int| 0 <= k < records.len() ==> (#[trigger] records[k]).id != id,
    ensures
        key_of_record(records, id, j) is None,
    decreases records.len() - j,
{
    if j < records.len() {
        assert(records[j].id != id);
        lemma_no_record(records, id, j + 1);
    }
}

/// The names of a class are those of its records whose id has a name, in their
/// order.
pub proof fn names_of_a_class_are_listed(
    records: Seq<Record>,
    entries: Seq<(u64, Seq<char>)>,
    key: u32,
    n: nat,
    x: Seq<char>,
)
    requires
        n <= records.len(),
    ensures
        names_with_key(records, entries, key, n).contains(x) <==> exists|i: int|
            0 <= i < n && (#[trigger] records[i]).type_key == key && name_of(entries, records[i].id)
                == Some(x),
    decreases n,
{
    let all = names_with_key(records, entries, key, n);
    if n > 0 {
        let m = (n - 1) as nat;
        let before = names_with_key(records, entries, key, m);
        names_of_a_class_are_listed(records, entries, key, m, x);
        if all.contains(x) {
            let k = choose|k: int| 0 <= k < all.len() && all[k] == x;
            if k < before.len() {
                assert(before[k] == x);
                assert(before.contains(x));
            } else {
                assert(records[n - 1].type_key == key);
            }
        }
        if exists|i: int|
            0 <= i < n && (#[trigger] records[i]).type_key == key && name_of(entries, records[i].id)
                == Some(x) {
            let i = choose|i: int|
                0 <= i < n && (#[trigger] records[i]).type_key == key && name_of(
                    entries,
                    records[i].id,
                ) == Some(x);
            if i < m {
                assert(before.contains(x));
                let k = choose|k: int| 0 <= k < before.len() && before[k] == x;
                assert(all[k] == x);
            } else {
                assert(all.last() == x);
            }
        }
    }
}

/// How many of the first records are of a class.
pub open spec fn in_class(records: Seq<Record>, key: u32, n: nat) -> nat
    decreases n,
{
    if n == 0 {
        0
    } else {
        in_class(records, key, (n - 1) as nat) + if records[n - 1].type_key == key {
            1nat
        } else {
            0
        }
    }
}

/// Every class is listed once, with the number of its records, and no other is.
pub proof fn classes_are_counted(records: Seq<Record>, entries: Seq<(u64, Seq<char>)>, n: nat)
    requires
        n <= records.len(),
    ensures
        forall|i: int|
            0 <= i < class_counts(records, entries, n).len() ==> (#[trigger] class_counts(
                records,
                entries,
                n,
            )[i]).count == in_class(records, class_counts(records, entries, n)[i].key, n)
                && class_counts(records, entries, n)[i].count > 0,
        forall|i: int, j: int|
            0 <= i < j < class_counts(records, entries, n).len() ==> (#[trigger] class_counts(
                records,
                entries,
                n,
            )[i]).key != (#[trigger] class_counts(records, entries, n)[j]).key,
        forall|a: u32| #[trigger]
            in_class(records, a, n) > 0 ==> exists|i: int|
                0 <= i < class_counts(records, entries, n).len() && (#[trigger] class_counts(
                    records,
                    entries,
                    n,
                )[i]).key == a,
    decreases n,
{
    if n > 0 {
        let m = (n - 1) as nat;
        let t = class_counts(records, entries, m);
        let s = records[n - 1].type_key;
        let all = class_counts(records, entries, n);
        classes_are_counted(records, entries, m);
        lemma_key_tally(t, s, 0);
        let k = key_index(t, s, 0);
        assert forall|i: int| 0 <= i < all.len() implies (#[trigger] all[i]).count == in_class(
            records,
            all[i].key,
            n,
        ) && all[i].count > 0 by {
            if i < t.len() {
                assert(t[i].count == in_class(records, t[i].key, m));
                if i != k {
                    assert(all[i] == t[i]);
                    if k < t.len() {
                        assert(t[i].key != t[k].key);
                    } else {
                        assert(t[i].key != s);
                    }
                }
            } else {
                assert(in_class(records, s, m) == 0) by {
                    if in_class(records, s, m) > 0 {
                        let j = choose|j: int| 0 <= j < t.len() && (#[trigger] t[j]).key == s;
                        assert(t[j].key != s);
                    }
                }
            }
        }
        assert forall|i: int, j: int| 0 <= i < j < all.len() implies (#[trigger] all[i]).key != (
        #[trigger] all[j]).key by {
            if j < t.len() {
                assert(all[i].key == t[i].key && all[j].key == t[j].key);
                assert(t[i].key != t[j].key);
            } else {
                assert(all[i] == t[i]);
                assert(t[i].key != s);
            }
        }
        assert forall|a: u32| #[trigger] in_class(records, a, n) > 0 implies exists|i: int|
            0 <= i < all.len() && (#[trigger] all[i]).key == a by {
            if a == s {
                if k < t.len() {
                    assert(all[k].key == a);
                } else {
                    assert(all[t.len() as int].key == a);
                }
            } else {
                assert(in_class(records, a, m) > 0);
                let i = choose|i: int| 0 <= i < t.len() && (#[trigger] t[i]).key == a;
                assert(all[i].key == a);
            }
        }
    } else {
        assert(class_counts(records, entries, n) =~= Seq::empty());
    }
}

proof fn lemma_key_tally(t: Seq<KeyCountV>, s: u32, i: int)
    requires
        0 <= i <= t.len(),
    ensures
        i <= key_index(t, s, i) <= t.len(),
        key_index(t, s, i) < t.len() ==> t[key_index(t, s, i)].key == s,
        forall|k: int| i <= k < key_index(t, s, i) ==> (#[trigger] t[k]).key != s,
    decreases t.len() - i,
{
    if i < t.len() && t[i].key != s {
        lemma_key_tally(t, s, i + 1);
    }
}

/// A property of a record is a flat whose name starts with the record's, and it is
/// named by the rest; a flat without a name, or of another record, is none.
pub proof fn properties_are_named_by_the_rest(
    pairs: Seq<(nat, FlatValueV)>,
    pair: (nat, FlatValueV),
    entries: Seq<(u64, Seq<char>)>,
    prefix: Seq<char>,
    rest: Seq<char>,
    label: Seq<char>,
)
    ensures
        name_of(entries, pair.0 as u64) == Some(prefix + rest) ==> properties_in(
            pairs.push(pair),
            entries,
            prefix,
            label,
        ) == properties_in(pairs, entries, prefix, label).push((rest, label, pair.1)),
        name_of(entries, pair.0 as u64) is None ==> properties_in(
            pairs.push(pair),
            entries,
            prefix,
            label,
        ) == properties_in(pairs, entries, prefix, label),
{
    assert(pairs.push(pair).drop_last() =~= pairs);
    assert((prefix + rest).take(prefix.len() as int) =~= prefix);
    assert((prefix + rest).skip(prefix.len() as int) =~= rest);
}

/// The state of an installation: without a target there is none; with a target that
/// is still what was saved, or of which nothing was saved, it is untouched.
pub proof fn installations_have_their_state(pristine: bool, same: bool)
    ensures
        install_state(false, pristine, same) == "sem-alvo"@,
        install_state(true, true, false) == "modificado"@,
        install_state(true, true, true) == "vanilla"@,
        install_state(true, false, same) == "vanilla"@,
        bool_text(true) == "true"@,
        bool_text(false) == "false"@,
{
}

} // verus!
