//! The settings that mods keep: a text of `key=value` lines.
use vstd::prelude::*;
use vstd::slice::slice_subrange;

use crate::text::{chars_of, drop_cr, has_prefix, lemma_next_index, lines_of, next_index, push_chars,
    push_lit, same, slices_view, split_lines, string_of};

verus! {

/// May the character stand in a key?
pub open spec fn key_char(c: char) -> bool {
    c != '=' && c != '\n' && c != '\r'
}

/// The key without the characters that would break the format.
pub open spec fn clean_key(s: Seq<char>) -> Seq<char>
    decreases s.len(),
{
    if s.len() == 0 {
        Seq::empty()
    } else if key_char(s.last()) {
        clean_key(s.drop_last()).push(s.last())
    } else {
        clean_key(s.drop_last())
    }
}

/// The value with blanks for line breaks.
pub open spec fn clean_value(s: Seq<char>) -> Seq<char> {
    s.map_values(
        |c: char|
            if c == '\n' || c == '\r' {
                ' '
            } else {
                c
            },
    )
}

pub fn config_sanitize_key(key: &str) -> (r: String)
    ensures
        r@ == clean_key(key@),
{
    let v = chars_of(key);
    let mut out: Vec<char> = Vec::new();
    let mut i: usize = 0;
    while i < v.len()
        invariant
            i <= v.len(),
            out@ == clean_key(v@.take(i as int)),
        decreases v.len() - i,
    {
        proof {
            assert(v@.take(i + 1).drop_last() =~= v@.take(i as int));
        }
        if v[i] != '=' && v[i] != '\n' && v[i] != '\r' {
            out.push(v[i]);
        }
        i += 1;
    }
    proof {
        assert(v@.take(i as int) =~= v@);
    }
    string_of(out.as_slice())
}

pub fn config_sanitize_value(value: &str) -> (r: String)
    ensures
        r@ == clean_value(value@),
{
    let v = chars_of(value);
    let mut out: Vec<char> = Vec::new();
    let mut i: usize = 0;
    while i < v.len()
        invariant
            i <= v.len(),
            out@ == clean_value(v@.take(i as int)),
        decreases v.len() - i,
    {
        out.push(
            if v[i] == '\n' || v[i] == '\r' {
                ' '
            } else {
                v[i]
            },
        );
        i += 1;
        proof {
            assert(out@ =~= clean_value(v@.take(i as int)));
        }
    }
    proof {
        assert(v@.take(i as int) =~= v@);
    }
    string_of(out.as_slice())
}

// ---- reading ---------------------------------------------------------------

pub open spec fn key_prefix(key: Seq<char>) -> Seq<char> {
    key.push('=')
}

/// The value on the first line from `i` on that sets the key; empty where none
/// does.
pub open spec fn value_in(lines: Seq<Seq<char>>, key: Seq<char>, i: int) -> Seq<char>
    decreases lines.len() - i,
{
    if i >= lines.len() {
        Seq::empty()
    } else if has_prefix(lines[i], key_prefix(key)) {
        lines[i].skip(key_prefix(key).len() as int)
    } else {
        value_in(lines, key, i + 1)
    }
}

/// The value of a key in a settings text.
pub open spec fn setting(content: Seq<char>, key: Seq<char>) -> Seq<char> {
    value_in(lines_of(content), key, 0)
}

fn prefix_of(key: &str) -> (r: Vec<char>)
    ensures
        r@ == key_prefix(key@),
{
    let mut p = chars_of(key);
    p.push('=');
    p
}

fn begins(line: &[char], p: &[char]) -> (r: bool)
    ensures
        r == has_prefix(line@, p@),
{
    if p.len() > line.len() {
        return false;
    }
    proof {
        assert(line@.subrange(0, p@.len() as int) =~= line@.take(p@.len() as int));
    }
    same(slice_subrange(line, 0, p.len()), p)
}

/// The value of a key: that of its first line, or the empty text.
pub fn config_get_from(content: &str, key: &str) -> (r: String)
    ensures
        r@ == setting(content@, key@),
{
    let text = chars_of(content);
    let lines = split_lines(text.as_slice());
    let p = prefix_of(key);
    let ghost all = lines_of(content@);
    let mut i: usize = 0;
    while i < lines.len()
        invariant
            i <= lines.len(),
            all == lines_of(content@),
            all == slices_view(lines@),
            p@ == key_prefix(key@),
            value_in(all, key@, 0) == value_in(all, key@, i as int),
        decreases lines.len() - i,
    {
        let l = lines[i];
        proof {
            assert(all[i as int] == l@);
        }
        if begins(l, p.as_slice()) {
            proof {
                assert(l@.subrange(p@.len() as int, l@.len() as int) =~= l@.skip(p@.len() as int));
            }
            return string_of(slice_subrange(l, p.len(), l.len()));
        }
        i += 1;
    }
    String::new()
}

// ---- writing ---------------------------------------------------------------

/// The lines, each with a line break behind it.
pub open spec fn unlines(lines: Seq<Seq<char>>) -> Seq<char>
    decreases lines.len(),
{
    if lines.len() == 0 {
        Seq::empty()
    } else {
        unlines(lines.drop_last()) + lines.last() + seq!['\n']
    }
}

/// The first `n` lines after an update: the first line that sets the key holds
/// the new entry, later ones are gone, and so are empty lines.
pub open spec fn updated_lines(
    lines: Seq<Seq<char>>,
    n: nat,
    prefix: Seq<char>,
    entry: Seq<char>,
) -> Seq<Seq<char>>
    decreases n,
{
    if n == 0 {
        Seq::empty()
    } else {
        let before = updated_lines(lines, (n - 1) as nat, prefix, entry);
        let l = lines[n - 1];
        if has_prefix(l, prefix) {
            if sets_before(lines, (n - 1) as nat, prefix) {
                before
            } else {
                before.push(entry)
            }
        } else if l.len() > 0 {
            before.push(l)
        } else {
            before
        }
    }
}

/// Does one of the first `n` lines start with the prefix?
pub open spec fn sets_before(lines: Seq<Seq<char>>, n: nat, prefix: Seq<char>) -> bool {
    exists|i: int| 0 <= i < n && has_prefix(#[trigger] lines[i], prefix)
}

/// All lines after an update; a new key comes last.
pub open spec fn updated(lines: Seq<Seq<char>>, key: Seq<char>, value: Seq<char>) -> Seq<
    Seq<char>,
> {
    let prefix = key_prefix(key);
    let kept = updated_lines(lines, lines.len(), prefix, prefix + value);
    if sets_before(lines, lines.len(), prefix) {
        kept
    } else {
        kept.push(prefix + value)
    }
}

/// The settings text after an update.
pub open spec fn upserted(content: Seq<char>, key: Seq<char>, value: Seq<char>) -> Seq<char> {
    unlines(updated(lines_of(content), key, value))
}

/// Sets a key: one line holds it afterwards, other lines keep their order, and
/// empty lines are dropped.
pub fn config_upsert(existing: &str, key: &str, value: &str) -> (r: String)
    ensures
        r@ == upserted(existing@, key@, value@),
{
    let text = chars_of(existing);
    let lines = split_lines(text.as_slice());
    let p = prefix_of(key);
    let ghost all = lines_of(existing@);
    let ghost entry = p@ + value@;
    let ghost mut done: Seq<Seq<char>> = Seq::empty();
    let mut out: Vec<char> = Vec::new();
    let mut written: bool = false;
    let mut i: usize = 0;
    while i < lines.len()
        invariant
            i <= lines.len(),
            all == slices_view(lines@),
            p@ == key_prefix(key@),
            entry == p@ + value@,
            done == updated_lines(all, i as nat, p@, entry),
            out@ == unlines(done),
            written == sets_before(all, i as nat, p@),
        decreases lines.len() - i,
    {
        let l = lines[i];
        proof {
            assert(all[i as int] == l@);
        }
        if begins(l, p.as_slice()) {
            if !written {
                push_chars(&mut out, p.as_slice());
                push_lit(&mut out, value);
                out.push('\n');
                proof {
                    let next = done.push(entry);
                    assert(next.drop_last() =~= done);
                    assert(out@ =~= unlines(next));
                    done = next;
                }
                written = true;
            }
            proof {
                assert(sets_before(all, (i + 1) as nat, p@)) by {
                    assert(has_prefix(all[i as int], p@));
                }
            }
        } else {
            if l.len() > 0 {
                push_chars(&mut out, l);
                out.push('\n');
                proof {
                    let next = done.push(l@);
                    assert(next.drop_last() =~= done);
                    assert(out@ =~= unlines(next));
                    done = next;
                }
            }
            proof {
                assert(sets_before(all, (i + 1) as nat, p@) == sets_before(all, i as nat, p@)) by {
                    if sets_before(all, (i + 1) as nat, p@) {
                        let k = choose|k: int|
                            0 <= k < i + 1 && has_prefix(#[trigger] all[k], p@);
                        assert(k != i);
                    }
                    if sets_before(all, i as nat, p@) {
                        let k = choose|k: int| 0 <= k < i && has_prefix(#[trigger] all[k], p@);
                        assert(0 <= k < i + 1 && has_prefix(all[k], p@));
                    }
                }
            }
        }
        i += 1;
    }
    if !written {
        push_chars(&mut out, p.as_slice());
        push_lit(&mut out, value);
        out.push('\n');
        proof {
            let next = done.push(entry);
            assert(next.drop_last() =~= done);
            assert(out@ =~= unlines(next));
        }
    }
    string_of(out.as_slice())
}

/// The new settings text, with key and value cleaned first; none where nothing
/// is left of the key.
pub fn config_set(existing: &str, key: &str, value: &str) -> (r: Option<String>)
    ensures
        match r {
            Some(s) => clean_key(key@).len() > 0 && s@ == upserted(
                existing@,
                clean_key(key@),
                clean_value(value@),
            ),
            None => clean_key(key@).len() == 0,
        },
{
    let k = config_sanitize_key(key);
    let n: usize = chars_of(k.as_str()).len();
    if n == 0 {
        return None;
    }
    let v = config_sanitize_value(value);
    Some(config_upsert(existing, k.as_str(), v.as_str()))
}

/// The value of a key, cleaned first.
pub fn config_get(content: &str, key: &str) -> (r: String)
    ensures
        r@ == setting(content@, clean_key(key@)),
{
    let k = config_sanitize_key(key);
    config_get_from(content, k.as_str())
}

// ---- laws ------------------------------------------------------------------

/// Is the text on one line?
pub open spec fn one_line(l: Seq<char>) -> bool {
    !l.contains('\n')
}

pub open spec fn each_one_line(lines: Seq<Seq<char>>) -> bool {
    forall|i: int| 0 <= i < lines.len() ==> one_line(#[trigger] lines[i])
}

/// The lines without a carriage return at their end.
pub open spec fn without_cr(lines: Seq<Seq<char>>) -> Seq<Seq<char>> {
    lines.map_values(|l: Seq<char>| drop_cr(l))
}

proof fn lemma_unlines_front(lines: Seq<Seq<char>>)
    requires
        lines.len() > 0,
    ensures
        unlines(lines) == lines[0] + seq!['\n'] + unlines(lines.skip(1)),
    decreases lines.len(),
{
    if lines.len() == 1 {
        assert(lines.drop_last() =~= Seq::empty());
        assert(lines.skip(1) =~= Seq::empty());
        assert(unlines(lines.drop_last()) =~= Seq::empty());
        assert(unlines(lines.skip(1)) =~= Seq::empty());
        assert(unlines(lines) =~= lines[0] + seq!['\n'] + Seq::empty());
    } else {
        lemma_unlines_front(lines.drop_last());
        assert(lines.drop_last().skip(1) =~= lines.skip(1).drop_last());
        assert(lines.skip(1).last() == lines.last());
        assert(unlines(lines) =~= lines[0] + seq!['\n'] + unlines(lines.skip(1)));
    }
}

/// Lines that were written are read back; only a carriage return at the end of a
/// line is taken for a part of the line break.
pub proof fn lines_read_back(lines: Seq<Seq<char>>)
    requires
        each_one_line(lines),
    ensures
        lines_of(unlines(lines)) == without_cr(lines),
    decreases lines.len(),
{
    if lines.len() > 0 {
        lemma_unlines_front(lines);
        let l = lines[0];
        let rest = unlines(lines.skip(1));
        let s = unlines(lines);
        assert(one_line(l));
        let k = next_index(s, '\n', 0);
        lemma_next_index(s, '\n', 0);
        assert(s[l.len() as int] == '\n');
        if k < l.len() {
            assert(l[k] == '\n');
            assert(l.contains('\n'));
        }
        assert(k == l.len());
        assert(s.take(k) =~= l);
        assert(s.skip(k + 1) =~= rest);
        assert forall|i: int| 0 <= i < lines.skip(1).len() implies one_line(
            #[trigger] lines.skip(1)[i],
        ) by {
            assert(one_line(lines[i + 1]));
        }
        lines_read_back(lines.skip(1));
        assert(seq![drop_cr(l)] + without_cr(lines.skip(1)) =~= without_cr(lines));
    } else {
        assert(without_cr(lines) =~= lines_of(unlines(lines)));
    }
}

/// The lines of a text are lines.
proof fn lemma_lines_are_lines(s: Seq<char>)
    ensures
        each_one_line(lines_of(s)),
    decreases s.len(),
{
    if s.len() > 0 {
        let k = next_index(s, '\n', 0);
        lemma_next_index(s, '\n', 0);
        let head = if k == s.len() {
            s
        } else {
            drop_cr(s.take(k))
        };
        assert(one_line(head)) by {
            if head.contains('\n') {
                let i = choose|i: int| 0 <= i < head.len() && head[i] == '\n';
                assert(s[i] == '\n' && i < k);
            }
        }
        if k < s.len() {
            let rest = lines_of(s.skip(k + 1));
            lemma_lines_are_lines(s.skip(k + 1));
            let all = lines_of(s);
            assert forall|i: int| 0 <= i < all.len() implies one_line(#[trigger] all[i]) by {
                if i > 0 {
                    assert(one_line(rest[i - 1]));
                }
            }
        }
    }
}

/// A carriage return at the end of a line does not change which key it sets.
proof fn lemma_prefix_without_cr(l: Seq<char>, key: Seq<char>)
    ensures
        has_prefix(drop_cr(l), key_prefix(key)) == has_prefix(l, key_prefix(key)),
        has_prefix(l, key_prefix(key)) ==> drop_cr(l).skip(key_prefix(key).len() as int) == drop_cr(
            l.skip(key_prefix(key).len() as int),
        ),
{
    let p = key_prefix(key);
    if l.len() > 0 && l.last() == '\r' {
        let d = l.drop_last();
        if has_prefix(l, p) {
            assert(l.take(p.len() as int)[p.len() - 1] == '=');
            assert(p.len() < l.len());
            assert(d.take(p.len() as int) =~= l.take(p.len() as int));
            assert(d.skip(p.len() as int) =~= l.skip(p.len() as int).drop_last());
        }
        if has_prefix(d, p) {
            assert(l.take(p.len() as int) =~= d.take(p.len() as int));
        }
    } else if has_prefix(l, p) && l.skip(p.len() as int).len() > 0 {
        assert(l.skip(p.len() as int).last() == l.last());
    }
}

proof fn lemma_value_without_cr(lines: Seq<Seq<char>>, key: Seq<char>, i: int)
    requires
        0 <= i <= lines.len(),
    ensures
        value_in(without_cr(lines), key, i) == drop_cr(value_in(lines, key, i)),
    decreases lines.len() - i,
{
    if i < lines.len() {
        lemma_prefix_without_cr(lines[i], key);
        lemma_value_without_cr(lines, key, i + 1);
    }
}

proof fn lemma_times_without_cr(lines: Seq<Seq<char>>, key: Seq<char>)
    ensures
        times_set(without_cr(lines), key) == times_set(lines, key),
    decreases lines.len(),
{
    if lines.len() > 0 {
        lemma_times_without_cr(lines.drop_last(), key);
        lemma_prefix_without_cr(lines.last(), key);
        assert(without_cr(lines).drop_last() =~= without_cr(lines.drop_last()));
    }
}

/// The first line with a prefix, where lines are looked at from `i` on.
proof fn lemma_value_found(lines: Seq<Seq<char>>, key: Seq<char>, i: int, at: int)
    requires
        0 <= i <= at < lines.len(),
        has_prefix(lines[at], key_prefix(key)),
        forall|k: int| i <= k < at ==> !has_prefix(#[trigger] lines[k], key_prefix(key)),
    ensures
        value_in(lines, key, i) == lines[at].skip(key_prefix(key).len() as int),
    decreases at - i,
{
    if i < at {
        lemma_value_found(lines, key, i + 1, at);
    }
}

proof fn lemma_value_absent(lines: Seq<Seq<char>>, key: Seq<char>, i: int)
    requires
        0 <= i <= lines.len(),
        forall|k: int| i <= k < lines.len() ==> !has_prefix(#[trigger] lines[k], key_prefix(key)),
    ensures
        value_in(lines, key, i) == Seq::<char>::empty(),
    decreases lines.len() - i,
{
    if i < lines.len() {
        lemma_value_absent(lines, key, i + 1);
    }
}

/// A line cannot set two different keys.
proof fn lemma_prefix_unique(l: Seq<char>, a: Seq<char>, b: Seq<char>)
    requires
        has_prefix(l, key_prefix(a)),
        has_prefix(l, key_prefix(b)),
        !a.contains('='),
        !b.contains('='),
    ensures
        a == b,
{
    let p = key_prefix(a);
    let q = key_prefix(b);
    assert(p[a.len() as int] == '=' && l[a.len() as int] == '=') by {
        assert(l.take(p.len() as int)[a.len() as int] == p[a.len() as int]);
    }
    assert(q[b.len() as int] == '=' && l[b.len() as int] == '=') by {
        assert(l.take(q.len() as int)[b.len() as int] == q[b.len() as int]);
    }
    assert forall|i: int| 0 <= i < a.len() implies a[i] == l[i] by {
        assert(l.take(p.len() as int)[i] == p[i]);
    }
    assert forall|i: int| 0 <= i < b.len() implies b[i] == l[i] by {
        assert(l.take(q.len() as int)[i] == q[i]);
    }
    if a.len() < b.len() {
        assert(b[a.len() as int] == '=');
        assert(b.contains('='));
    } else if b.len() < a.len() {
        assert(a[b.len() as int] == '=');
        assert(a.contains('='));
    }
    assert(a =~= b);
}

/// How many lines set the key.
pub open spec fn times_set(lines: Seq<Seq<char>>, key: Seq<char>) -> nat
    decreases lines.len(),
{
    if lines.len() == 0 {
        0
    } else {
        times_set(lines.drop_last(), key) + (if has_prefix(lines.last(), key_prefix(key)) {
            1nat
        } else {
            0
        })
    }
}

/// What the updated lines hold of the key, and of any other key.
proof fn lemma_updated(
    lines: Seq<Seq<char>>,
    n: nat,
    key: Seq<char>,
    value: Seq<char>,
    other: Seq<char>,
)
    requires
        n <= lines.len(),
        !key.contains('='),
        !other.contains('='),
        other != key,
    ensures
        ({
            let p = key_prefix(key);
            let new = updated_lines(lines, n, p, p + value);
            &&& times_set(new, key) == (if sets_before(lines, n, p) {
                1nat
            } else {
                0
            })
            &&& sets_before(lines, n, p) ==> value_in(new, key, 0) == value
            &&& sets_before(lines, n, p) ==> sets_before(new, new.len(), p)
            &&& !sets_before(lines, n, p) ==> !sets_before(new, new.len(), p)
            &&& value_in(new, other, 0) == value_in(lines.take(n as int), other, 0)
            &&& sets_before(new, new.len(), key_prefix(other)) == sets_before(
                lines.take(n as int),
                n,
                key_prefix(other),
            )
        }),
    decreases n,
{
    let q = key_prefix(other);
    let p = key_prefix(key);
    let e = p + value;
    let new = updated_lines(lines, n, p, e);
    if n == 0 {
        assert(!sets_before(lines, n, p));
        assert(lines.take(0) =~= Seq::empty());
    } else {
        let m = (n - 1) as nat;
        lemma_updated(lines, m, key, value, other);
        let before = updated_lines(lines, m, p, e);
        let l = lines[n - 1];
        assert(lines.take(n as int) =~= lines.take(m as int).push(l));
        lemma_value_push(lines.take(m as int), l, other);
        lemma_sets_push(lines.take(m as int), l, q);
        assert(has_prefix(e, p)) by {
            assert(e.take(p.len() as int) =~= p);
        }
        assert(e.skip(p.len() as int) =~= value);
        if has_prefix(l, p) {
            assert(sets_before(lines, n, p)) by {
                assert(has_prefix(lines[n - 1], p));
            }
            if has_prefix(l, key_prefix(other)) {
                lemma_prefix_unique(l, key, other);
            }
            if !sets_before(lines, m, p) {
                assert(new == before.push(e));
                assert(new.drop_last() =~= before);
                lemma_value_push(before, e, other);
                lemma_sets_push(before, e, q);
                if has_prefix(e, key_prefix(other)) {
                    lemma_prefix_unique(e, key, other);
                }
                assert(has_prefix(new[before.len() as int], p));
                lemma_value_push(before, e, key);
                lemma_not_set(before, key);
            } else {
                let k = choose|k: int| 0 <= k < m && has_prefix(#[trigger] lines[k], p);
                assert(0 <= k < n && has_prefix(lines[k], p));
            }
        } else {
            assert(sets_before(lines, n, p) == sets_before(lines, m, p)) by {
                if sets_before(lines, n, p) {
                    let k = choose|k: int| 0 <= k < n && has_prefix(#[trigger] lines[k], p);
                    assert(k < m);
                }
                if sets_before(lines, m, p) {
                    let k = choose|k: int| 0 <= k < m && has_prefix(#[trigger] lines[k], p);
                    assert(0 <= k < n && has_prefix(lines[k], p));
                }
            }
            if l.len() == 0 {
                assert(!has_prefix(l, q));
            } else {
                assert(new == before.push(l));
                assert(new.drop_last() =~= before);
                lemma_value_push(before, l, other);
                lemma_sets_push(before, l, q);
                lemma_value_push(before, l, key);
                if sets_before(before, before.len(), p) {
                    let k = choose|k: int|
                        0 <= k < before.len() && has_prefix(#[trigger] before[k], p);
                    assert(has_prefix(new[k], p));
                }
                if sets_before(new, new.len(), p) {
                    let k = choose|k: int| 0 <= k < new.len() && has_prefix(#[trigger] new[k], p);
                    assert(k < before.len());
                    assert(has_prefix(before[k], p));
                }
            }
        }
    }
}

proof fn lemma_sets_push(lines: Seq<Seq<char>>, l: Seq<char>, prefix: Seq<char>)
    ensures
        sets_before(lines.push(l), lines.len() + 1, prefix) == (sets_before(
            lines,
            lines.len(),
            prefix,
        ) || has_prefix(l, prefix)),
{
    let new = lines.push(l);
    if sets_before(lines, lines.len(), prefix) {
        let k = choose|k: int| 0 <= k < lines.len() && has_prefix(#[trigger] lines[k], prefix);
        assert(has_prefix(new[k], prefix));
    }
    if has_prefix(l, prefix) {
        assert(has_prefix(new[lines.len() as int], prefix));
    }
    if sets_before(new, new.len(), prefix) {
        let k = choose|k: int| 0 <= k < new.len() && has_prefix(#[trigger] new[k], prefix);
        if k < lines.len() {
            assert(has_prefix(lines[k], prefix));
        }
    }
}

/// A line at the end counts for a key only where no earlier line sets it.
proof fn lemma_value_push(lines: Seq<Seq<char>>, l: Seq<char>, key: Seq<char>)
    ensures
        sets_before(lines, lines.len(), key_prefix(key)) ==> value_in(lines.push(l), key, 0)
            == value_in(lines, key, 0),
        !sets_before(lines, lines.len(), key_prefix(key)) ==> value_in(lines.push(l), key, 0) == (
        if has_prefix(l, key_prefix(key)) {
            l.skip(key_prefix(key).len() as int)
        } else {
            Seq::empty()
        }),
        !sets_before(lines, lines.len(), key_prefix(key)) ==> value_in(lines, key, 0)
            == Seq::<char>::empty(),
{
    lemma_value_push_from(lines, l, key, 0);
    if !sets_before(lines, lines.len(), key_prefix(key)) {
        lemma_value_absent(lines, key, 0);
        if has_prefix(l, key_prefix(key)) {
            lemma_value_found(lines.push(l), key, 0, lines.len() as int);
        } else {
            lemma_value_absent(lines.push(l), key, 0);
        }
    }
}

proof fn lemma_value_push_from(lines: Seq<Seq<char>>, l: Seq<char>, key: Seq<char>, i: int)
    requires
        0 <= i <= lines.len(),
    ensures
        (exists|k: int| i <= k < lines.len() && has_prefix(#[trigger] lines[k], key_prefix(key)))
            ==> value_in(lines.push(l), key, i) == value_in(lines, key, i),
    decreases lines.len() - i,
{
    if i < lines.len() {
        lemma_value_push_from(lines, l, key, i + 1);
        assert(lines.push(l)[i] == lines[i]);
    }
}

proof fn lemma_not_set(lines: Seq<Seq<char>>, key: Seq<char>)
    requires
        times_set(lines, key) == 0,
    ensures
        !sets_before(lines, lines.len(), key_prefix(key)),
    decreases lines.len(),
{
    if lines.len() > 0 {
        lemma_not_set(lines.drop_last(), key);
        if sets_before(lines, lines.len(), key_prefix(key)) {
            let k = choose|k: int|
                0 <= k < lines.len() && has_prefix(#[trigger] lines[k], key_prefix(key));
            if k < lines.len() - 1 {
                assert(has_prefix(lines.drop_last()[k], key_prefix(key)));
            }
        }
    }
}

/// Every line of the result is an old one or the new entry.
proof fn lemma_updated_lines(lines: Seq<Seq<char>>, n: nat, p: Seq<char>, e: Seq<char>)
    requires
        n <= lines.len(),
        each_one_line(lines),
        one_line(e),
    ensures
        each_one_line(updated_lines(lines, n, p, e)),
    decreases n,
{
    if n > 0 {
        lemma_updated_lines(lines, (n - 1) as nat, p, e);
        assert(one_line(lines[n - 1]));
    }
}

/// May the text stand as a key?
pub open spec fn is_key(s: Seq<char>) -> bool {
    !s.contains('=') && !s.contains('\n') && !s.contains('\r')
}

/// May the text stand as a value?
pub open spec fn is_value(s: Seq<char>) -> bool {
    !s.contains('\n') && !s.contains('\r')
}

/// Cleaning yields what may stand as a key and as a value.
pub proof fn cleaning_is_safe(key: Seq<char>, value: Seq<char>)
    ensures
        is_key(clean_key(key)),
        is_value(clean_value(value)),
    decreases key.len(),
{
    if key.len() > 0 {
        cleaning_is_safe(key.drop_last(), value);
        let c = clean_key(key);
        let d = clean_key(key.drop_last());
        assert forall|i: int| 0 <= i < c.len() implies key_char(c[i]) by {
            if i < d.len() {
                assert(c[i] == d[i]);
                assert(d.contains(d[i]));
            }
        }
    }
}

/// After an update the key has the new value, exactly one line sets it, and
/// every other key keeps its value: all of it, but for a carriage return that
/// stood at the end of its line without being part of the line break.
pub proof fn update_reads_back(
    content: Seq<char>,
    key: Seq<char>,
    value: Seq<char>,
    other: Seq<char>,
)
    requires
        is_key(key),
        is_key(other),
        is_value(value),
        other != key,
    ensures
        setting(upserted(content, key, value), key) == value,
        times_set(lines_of(upserted(content, key, value)), key) == 1,
        setting(upserted(content, key, value), other) == drop_cr(setting(content, other)),
{
    let lines = lines_of(content);
    let p = key_prefix(key);
    let e = p + value;
    lemma_lines_are_lines(content);
    lemma_entry_is_a_line(key, value);
    lemma_updated(lines, lines.len(), key, value, other);
    lemma_updated_lines(lines, lines.len(), p, e);
    assert(lines.take(lines.len() as int) =~= lines);
    let kept = updated_lines(lines, lines.len(), p, e);
    let new = updated(lines, key, value);
    assert(has_prefix(e, p)) by {
        assert(e.take(p.len() as int) =~= p);
    }
    assert(e.skip(p.len() as int) =~= value);
    if !sets_before(lines, lines.len(), p) {
        assert(new.drop_last() =~= kept);
        lemma_value_push(kept, e, key);
        lemma_value_push(kept, e, other);
        if has_prefix(e, key_prefix(other)) {
            lemma_prefix_unique(e, key, other);
        }
    }
    lines_read_back(new);
    lemma_value_without_cr(new, key, 0);
    lemma_value_without_cr(new, other, 0);
    lemma_times_without_cr(new, key);
    if value.len() > 0 && value.last() == '\r' {
        assert(value.contains(value.last()));
    }
}

/// After an update no line is blank, unless one held nothing but a carriage return
/// before its line break.
pub proof fn updates_leave_no_blank_line(
    content: Seq<char>,
    key: Seq<char>,
    value: Seq<char>,
    i: int,
)
    requires
        is_key(key),
        is_value(value),
        forall|k: int| 0 <= k < lines_of(content).len() ==> #[trigger] lines_of(content)[k] != seq![
            '\r',
        ],
        0 <= i < lines_of(upserted(content, key, value)).len(),
    ensures
        lines_of(upserted(content, key, value))[i].len() > 0,
{
    let lines = lines_of(content);
    let p = key_prefix(key);
    let e = p + value;
    lemma_lines_are_lines(content);
    lemma_entry_is_a_line(key, value);
    lemma_updated_lines(lines, lines.len(), p, e);
    let new = updated(lines, key, value);
    lines_read_back(new);
    assert(e.len() >= 1);
    if e.len() == 1 {
        assert(e[0] == '=');
    }
    lemma_updated_full(lines, lines.len(), p, e);
    assert(full_line(new[i]));
    assert(without_cr(new)[i] == drop_cr(new[i]));
}

/// Does the line hold more than a carriage return?
spec fn full_line(l: Seq<char>) -> bool {
    drop_cr(l).len() > 0
}

proof fn lemma_updated_full(lines: Seq<Seq<char>>, n: nat, p: Seq<char>, e: Seq<char>)
    requires
        n <= lines.len(),
        forall|k: int| 0 <= k < lines.len() ==> #[trigger] lines[k] != seq!['\r'],
        full_line(e),
    ensures
        forall|k: int|
            0 <= k < updated_lines(lines, n, p, e).len() ==> full_line(
                #[trigger] updated_lines(lines, n, p, e)[k],
            ),
    decreases n,
{
    if n > 0 {
        lemma_updated_full(lines, (n - 1) as nat, p, e);
        let l = lines[n - 1];
        if l.len() == 1 && l[0] == '\r' {
            assert(l =~= seq!['\r']);
        }
        assert(l.len() > 0 ==> full_line(l));
        let before = updated_lines(lines, (n - 1) as nat, p, e);
        let now = updated_lines(lines, n, p, e);
        assert forall|k: int| 0 <= k < now.len() implies full_line(#[trigger] now[k]) by {
            if k < before.len() {
                assert(now[k] == before[k]);
            }
        }
    }
}

proof fn lemma_entry_is_a_line(key: Seq<char>, value: Seq<char>)
    requires
        is_key(key),
        is_value(value),
    ensures
        one_line(key_prefix(key) + value),
{
    let e = key_prefix(key) + value;
    let n = key_prefix(key).len();
    if e.contains('\n') {
        let i = choose|i: int| 0 <= i < e.len() && e[i] == '\n';
        if i < key.len() {
            assert(key[i] == '\n');
            assert(key.contains('\n'));
        } else if i > key.len() {
            assert(value[i - n] == '\n');
            assert(value.contains('\n'));
        }
    }
}

} // verus!
