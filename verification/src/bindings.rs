//! Merging the key bindings of mods into the game's configuration.
//!
//! Each mod brings XML with a `<bindings>` element. Its children go to one of
//! two configuration files, by their tag. Merging always starts from the
//! pristine file, so it can be repeated and undone.
use vstd::prelude::*;
use vstd::slice::slice_subrange;

use crate::activation::{extension, extension_of};
use crate::encode::{lowercase, to_lowercase};
use crate::text::{chars_of, dec, find, has_prefix, has_suffix, index_of, is_lit, lemma_next_index,
    next_index, next_occurrence, occurs_at, push_chars, push_dec, push_lit, same, same_str,
    string_of, strings_view, trim, trimmed};
use crate::webapi::{sort_texts, sorted_list};

verus! {

// ---- elements --------------------------------------------------------------

/// May the character stand in a tag's name?
pub open spec fn tag_char(c: char) -> bool {
    ||| 'a' <= c <= 'z'
    ||| 'A' <= c <= 'Z'
    ||| '0' <= c <= '9'
    ||| c == '_'
    ||| c == ':'
    ||| c == '-'
}

/// Where a tag's name ends.
pub open spec fn name_end(s: Seq<char>, i: int) -> int
    decreases s.len() - i,
{
    if 0 <= i < s.len() && tag_char(s[i]) {
        name_end(s, i + 1)
    } else {
        i
    }
}

pub open spec fn open_pattern(tag: Seq<char>) -> Seq<char> {
    "<"@ + tag
}

/// The first position at or after `k` where an element of this very name opens:
/// the character behind the name is none that a name holds.
pub open spec fn next_open(s: Seq<char>, tag: Seq<char>, k: int) -> Option<int>
    decreases s.len() - k,
{
    if k < 0 || k >= s.len() {
        None
    } else if opens_at(s, tag, k) {
        Some(k)
    } else {
        next_open(s, tag, k + 1)
    }
}

pub open spec fn opens_at(s: Seq<char>, tag: Seq<char>, k: int) -> bool {
    let b = k + open_pattern(tag).len();
    occurs_at(s, open_pattern(tag), k) && !(b < s.len() && tag_char(s[b]))
}

proof fn lemma_next_open(s: Seq<char>, tag: Seq<char>, k: int)
    requires
        0 <= k,
    ensures
        match next_open(s, tag, k) {
            Some(o) => k <= o && o + open_pattern(tag).len() <= s.len() && opens_at(s, tag, o),
            None => true,
        },
    decreases s.len() - k,
{
    if k < s.len() && !opens_at(s, tag, k) {
        lemma_next_open(s, tag, k + 1);
    }
}

pub open spec fn close_pattern(tag: Seq<char>) -> Seq<char> {
    "</"@ + tag + ">"@
}

/// Where the closing tag that matches ends, searching from `k` with `depth`
/// elements of the same name open. A self-closing element opens none.
pub open spec fn close_end(s: Seq<char>, tag: Seq<char>, k: int, depth: nat) -> Option<int>
    decreases s.len() - k,
    via close_end_decreases
{
    let no = next_open(s, tag, k);
    let nc = next_occurrence(s, close_pattern(tag), k);
    if k < 0 || k >= s.len() {
        None
    } else {
        match nc {
            None => None,
            Some(c) => if no is Some && no->0 < c {
                let o = no->0;
                let e = next_index(s, '>', o);
                if e >= s.len() {
                    close_end(s, tag, o + open_pattern(tag).len(), depth + 1)
                } else if s[e - 1] == '/' {
                    close_end(s, tag, e + 1, depth)
                } else {
                    close_end(s, tag, e + 1, depth + 1)
                }
            } else if depth <= 1 {
                Some(c + close_pattern(tag).len())
            } else {
                close_end(s, tag, c + close_pattern(tag).len(), (depth - 1) as nat)
            },
        }
    }
}

#[via_fn]
proof fn close_end_decreases(s: Seq<char>, tag: Seq<char>, k: int, depth: nat) {
    reveal_strlit("<");
    reveal_strlit("</");
    reveal_strlit(">");
    if 0 <= k < s.len() {
        lemma_next_open(s, tag, k);
        lemma_occurrence(s, close_pattern(tag), k);
        match next_open(s, tag, k) {
            Some(o) => {
                lemma_next_index(s, '>', o);
            },
            None => {},
        }
    }
}

/// Where something occurs, it lies inside the text at or after the start.
pub proof fn lemma_occurrence(s: Seq<char>, p: Seq<char>, i: int)
    requires
        0 <= i <= s.len(),
    ensures
        match next_occurrence(s, p, i) {
            Some(k) => i <= k && k + p.len() <= s.len() && occurs_at(s, p, k),
            None => true,
        },
    decreases s.len() - i,
{
    if i + p.len() <= s.len() && !occurs_at(s, p, i) && i < s.len() {
        lemma_occurrence(s, p, i + 1);
    }
}

/// What stands at a position: something to pass over, an element, or something
/// unfinished that ends the search.
pub enum StepV {
    Skip(int),
    Element { tag: Seq<char>, end: int },
    Stop,
}

pub open spec fn element_at(s: Seq<char>, i: int) -> StepV {
    let j = name_end(s, i + 1);
    let gt = next_index(s, '>', i);
    let tag = s.subrange(i + 1, j);
    if s[i] != '<' {
        StepV::Skip(i + 1)
    } else if occurs_at(s, "<!--"@, i) {
        match next_occurrence(s, "-->"@, i) {
            Some(e) => StepV::Skip(e + 3),
            None => StepV::Stop,
        }
    } else if occurs_at(s, "<?"@, i) || occurs_at(s, "<!"@, i) {
        if gt < s.len() {
            StepV::Skip(gt + 1)
        } else {
            StepV::Stop
        }
    } else if j == i + 1 {
        StepV::Skip(i + 1)
    } else if gt >= s.len() {
        StepV::Stop
    } else if s[gt - 1] == '/' {
        StepV::Element { tag, end: gt + 1 }
    } else {
        match close_end(s, tag, gt + 1, 1) {
            Some(end) => StepV::Element { tag, end },
            None => StepV::Stop,
        }
    }
}

proof fn lemma_name_end(s: Seq<char>, i: int)
    requires
        0 <= i <= s.len(),
    ensures
        i <= name_end(s, i) <= s.len(),
        forall|k: int| i <= k < name_end(s, i) ==> tag_char(#[trigger] s[k]),
    decreases s.len() - i,
{
    if i < s.len() && tag_char(s[i]) {
        lemma_name_end(s, i + 1);
    }
}

proof fn lemma_close_end(s: Seq<char>, tag: Seq<char>, k: int, depth: nat)
    requires
        0 <= k,
    ensures
        match close_end(s, tag, k, depth) {
            Some(e) => k + close_pattern(tag).len() <= e <= s.len() && s.subrange(
                e - close_pattern(tag).len(),
                e,
            ) == close_pattern(tag),
            None => true,
        },
    decreases s.len() - k,
{
    reveal_strlit("<");
    reveal_strlit("</");
    reveal_strlit(">");
    let no = next_open(s, tag, k);
    let nc = next_occurrence(s, close_pattern(tag), k);
    if k < s.len() {
        lemma_next_open(s, tag, k);
        lemma_occurrence(s, close_pattern(tag), k);
        match nc {
            None => {},
            Some(c) => {
                if no is Some && no->0 < c {
                    let o = no->0;
                    let e = next_index(s, '>', o);
                    lemma_next_index(s, '>', o);
                    if e >= s.len() {
                        lemma_close_end(s, tag, o + open_pattern(tag).len(), depth + 1);
                    } else if s[e - 1] == '/' {
                        lemma_close_end(s, tag, e + 1, depth);
                    } else {
                        lemma_close_end(s, tag, e + 1, depth + 1);
                    }
                } else if depth > 1 {
                    lemma_close_end(s, tag, c + close_pattern(tag).len(), (depth - 1) as nat);
                }
            },
        }
    }
}

/// Every step goes forward and stays inside the text.
proof fn lemma_element_at(s: Seq<char>, i: int)
    requires
        0 <= i < s.len(),
    ensures
        match element_at(s, i) {
            StepV::Skip(n) => i < n <= s.len(),
            StepV::Element { tag, end } => i < end <= s.len(),
            StepV::Stop => true,
        },
{
    reveal_strlit("-->");
    reveal_strlit("<");
    reveal_strlit("</");
    reveal_strlit(">");
    lemma_next_index(s, '>', i);
    lemma_name_end(s, i + 1);
    lemma_occurrence(s, "-->"@, i);
    let gt = next_index(s, '>', i);
    lemma_close_end(s, s.subrange(i + 1, name_end(s, i + 1)), gt + 1, 1);
}

/// The elements from a position on: each tag with its whole text.
pub open spec fn elements_from(s: Seq<char>, i: int) -> Seq<(Seq<char>, Seq<char>)>
    decreases s.len() - i,
    via elements_from_decreases
{
    if i < 0 || i >= s.len() {
        Seq::empty()
    } else {
        match element_at(s, i) {
            StepV::Skip(n) => elements_from(s, n),
            StepV::Element { tag, end } => seq![(tag, s.subrange(i, end))] + elements_from(s, end),
            StepV::Stop => Seq::empty(),
        }
    }
}

#[via_fn]
proof fn elements_from_decreases(s: Seq<char>, i: int) {
    if 0 <= i < s.len() {
        lemma_element_at(s, i);
    }
}

pub open spec fn pairs_view(v: Seq<(String, String)>) -> Seq<(Seq<char>, Seq<char>)> {
    v.map_values(|e: (String, String)| (e.0@, e.1@))
}

fn is_tag_char(c: char) -> (r: bool)
    ensures
        r == tag_char(c),
{
    ('a' <= c && c <= 'z') || ('A' <= c && c <= 'Z') || ('0' <= c && c <= '9') || c == '_' || c
        == ':' || c == '-'
}

/// Does a literal stand at the position?
fn stands_at(s: &[char], i: usize, lit: &str) -> (r: bool)
    requires
        i <= s@.len(),
    ensures
        r == occurs_at(s@, lit@, i as int),
{
    let p = chars_of(lit);
    if p.len() > s.len() - i {
        return false;
    }
    same(slice_subrange(s, i, i + p.len()), p.as_slice())
}

/// Finds where the next element of this very name opens.
fn find_open(s: &[char], open: &[char], Ghost(tag): Ghost<Seq<char>>, from: usize) -> (r: Option<
    usize,
>)
    requires
        from <= s@.len(),
        open@ == open_pattern(tag),
    ensures
        match r {
            Some(o) => next_open(s@, tag, from as int) == Some(o as int),
            None => next_open(s@, tag, from as int) is None,
        },
{
    let n: usize = open.len();
    let mut k: usize = from;
    while k < s.len()
        invariant
            k <= s@.len(),
            n == open@.len(),
            open@ == open_pattern(tag),
            next_open(s@, tag, from as int) == next_open(s@, tag, k as int),
        decreases s@.len() - k,
    {
        if n <= s.len() - k && same(slice_subrange(s, k, k + n), open) {
            let b: usize = k + n;
            if !(b < s.len() && is_tag_char(s[b])) {
                return Some(k);
            }
        }
        k += 1;
    }
    None
}

/// Finds the closing tag that matches the one opened before `from`.
fn find_close(s: &[char], tag: &[char], from: usize) -> (r: Option<usize>)
    requires
        1 <= from <= s@.len(),
    ensures
        match r {
            Some(e) => close_end(s@, tag@, from as int, 1) == Some(e as int) && e <= s@.len(),
            None => close_end(s@, tag@, from as int, 1) is None,
        },
{
    let mut open: Vec<char> = Vec::new();
    open.push('<');
    push_chars(&mut open, tag);
    let mut close: Vec<char> = Vec::new();
    close.push('<');
    close.push('/');
    push_chars(&mut close, tag);
    close.push('>');
    proof {
        reveal_strlit("<");
        reveal_strlit("</");
        reveal_strlit(">");
        assert(open@ =~= open_pattern(tag@));
        assert(close@ =~= close_pattern(tag@));
    }
    let mut k: usize = from;
    let mut depth: usize = 1;
    while k < s.len()
        invariant
            k <= s@.len(),
            1 <= depth <= k,
            open@ == open_pattern(tag@),
            close@ == close_pattern(tag@),
            open@.len() >= 1,
            open@[0] == '<',
            close@.len() >= 3,
            close_end(s@, tag@, from as int, 1) == close_end(s@, tag@, k as int, depth as nat),
        decreases s@.len() - k,
    {
        let no = find_open(s, open.as_slice(), Ghost(tag@), k);
        let c: usize = match find(s, close.as_slice(), k) {
            None => {
                return None;
            },
            Some(c) => c,
        };
        let mut opened: bool = false;
        if let Some(o) = no {
            if o < c {
                opened = true;
                proof {
                    lemma_next_open(s@, tag@, k as int);
                    assert(s@.subrange(o as int, o + open@.len())[0] == '<');
                    assert(s@[o as int] == '<');
                }
                let e: usize = index_of(s, '>', o);
                if e >= s.len() {
                    k = o + open.len();
                    depth += 1;
                } else {
                    if s[e - 1] != '/' {
                        depth += 1;
                    }
                    k = e + 1;
                }
            }
        }
        if !opened {
            if depth == 1 {
                return Some(c + close.len());
            }
            k = c + close.len();
            depth -= 1;
        }
    }
    None
}

/// The top-level elements of an XML text: each tag with its whole text.
/// Comments and declarations are passed over.
pub fn extract_elements(inner: &str) -> (r: Vec<(String, String)>)
    ensures
        pairs_view(r@) == elements_from(inner@, 0),
{
    let v = chars_of(inner);
    let s = v.as_slice();
    let mut out: Vec<(String, String)> = Vec::new();
    let mut i: usize = 0;
    proof {
        assert(pairs_view(out@) =~= Seq::empty());
        assert(pairs_view(out@) + elements_from(s@, 0) =~= elements_from(s@, 0));
        reveal_strlit("-->");
    }
    while i < s.len()
        invariant
            i <= s@.len(),
            s@ == inner@,
            "-->"@.len() == 3,
            pairs_view(out@) + elements_from(s@, i as int) == elements_from(s@, 0),
        decreases s@.len() - i,
    {
        proof {
            lemma_element_at(s@, i as int);
        }
        if s[i] != '<' {
            i += 1;
            continue;
        }
        if stands_at(s, i, "<!--") {
            let p = chars_of("-->");
            match find(s, p.as_slice(), i) {
                Some(e) => {
                    i = e + 3;
                    continue;
                },
                None => {
                    proof {
                        assert(pairs_view(out@) + Seq::empty() =~= pairs_view(out@));
                    }
                    return out;
                },
            }
        }
        let gt: usize = index_of(s, '>', i);
        if stands_at(s, i, "<?") || stands_at(s, i, "<!") {
            if gt < s.len() {
                i = gt + 1;
                continue;
            }
            proof {
                assert(pairs_view(out@) + Seq::empty() =~= pairs_view(out@));
            }
            return out;
        }
        let mut j: usize = i + 1;
        while j < s.len() && is_tag_char(s[j])
            invariant
                i + 1 <= j <= s@.len(),
                name_end(s@, i + 1) == name_end(s@, j as int),
            decreases s@.len() - j,
        {
            j += 1;
        }
        if j == i + 1 {
            i += 1;
            continue;
        }
        if gt >= s.len() {
            proof {
                assert(pairs_view(out@) + Seq::empty() =~= pairs_view(out@));
            }
            return out;
        }
        let tag = slice_subrange(s, i + 1, j);
        let end: usize = if s[gt - 1] == '/' {
            gt + 1
        } else {
            match find_close(s, tag, gt + 1) {
                Some(e) => e,
                None => {
                    proof {
                        assert(pairs_view(out@) + Seq::empty() =~= pairs_view(out@));
                    }
                    return out;
                },
            }
        };
        let ghost before = pairs_view(out@);
        let t = string_of(tag);
        let e = string_of(slice_subrange(s, i, end));
        out.push((t, e));
        proof {
            assert(pairs_view(out@) =~= before.push((t@, e@)));
            assert(before.push((t@, e@)) + elements_from(s@, end as int) =~= before + (seq![
                (t@, e@),
            ] + elements_from(s@, end as int)));
        }
        i = end;
    }
    proof {
        assert(pairs_view(out@) + Seq::empty() =~= pairs_view(out@));
    }
    out
}

// ---- the bindings element --------------------------------------------------

/// The last position at or before `i` where `p` occurs.
pub open spec fn last_occurrence(s: Seq<char>, p: Seq<char>, i: int) -> Option<int>
    decreases i + 1,
{
    if i < 0 {
        None
    } else if occurs_at(s, p, i) {
        Some(i)
    } else {
        last_occurrence(s, p, i - 1)
    }
}

/// Where the closing tag of the bindings stands.
pub open spec fn bindings_close(s: Seq<char>) -> Option<int> {
    last_occurrence(s, "</bindings>"@, s.len() as int)
}

/// What stands between the first `<bindings` tag and the last `</bindings>`.
pub open spec fn inner_of(s: Seq<char>) -> Option<Seq<char>> {
    match next_occurrence(s, "<bindings"@, 0) {
        None => None,
        Some(open) => {
            let after = next_index(s, '>', open) + 1;
            if after > s.len() {
                None
            } else {
                match bindings_close(s) {
                    Some(close) => if close <= after {
                        None
                    } else {
                        Some(s.subrange(after, close))
                    },
                    None => None,
                }
            }
        },
    }
}

fn rfind(s: &[char], lit: &str) -> (r: Option<usize>)
    ensures
        match r {
            Some(i) => last_occurrence(s@, lit@, s@.len() as int) == Some(i as int) && i
                <= s@.len(),
            None => last_occurrence(s@, lit@, s@.len() as int) is None,
        },
{
    let mut i: usize = s.len();
    loop
        invariant
            i <= s@.len(),
            last_occurrence(s@, lit@, s@.len() as int) == last_occurrence(s@, lit@, i as int),
        decreases i,
    {
        if stands_at(s, i, lit) {
            return Some(i);
        }
        if i == 0 {
            assert(last_occurrence(s@, lit@, -1) is None);
            return None;
        }
        i -= 1;
    }
}

/// The content of the bindings element.
pub fn bindings_inner(xml: &str) -> (r: Option<String>)
    ensures
        match r {
            Some(t) => inner_of(xml@) == Some(t@),
            None => inner_of(xml@) is None,
        },
{
    let v = chars_of(xml);
    let s = v.as_slice();
    let p = chars_of("<bindings");
    let open: usize = match find(s, p.as_slice(), 0) {
        None => {
            return None;
        },
        Some(o) => o,
    };
    let gt: usize = index_of(s, '>', open);
    if gt >= s.len() {
        return None;
    }
    let after: usize = gt + 1;
    let close: usize = match rfind(s, "</bindings>") {
        None => {
            return None;
        },
        Some(c) => c,
    };
    if close <= after {
        return None;
    }
    Some(string_of(slice_subrange(s, after, close)))
}

/// The base with the additions right before its last closing tag.
pub open spec fn merged(base: Seq<char>, additions: Seq<char>) -> Result<Seq<char>, Seq<char>> {
    match bindings_close(base) {
        None => Err("base sem </bindings>"@),
        Some(pos) => Ok(base.take(pos) + additions + base.skip(pos)),
    }
}

pub open spec fn text_outcome(r: Result<String, String>) -> Result<Seq<char>, Seq<char>> {
    match r {
        Ok(s) => Ok(s@),
        Err(e) => Err(e@),
    }
}

/// Puts the additions right before the last `</bindings>`.
pub fn merge_into(base: &str, additions: &str) -> (r: Result<String, String>)
    ensures
        text_outcome(r) == merged(base@, additions@),
{
    let v = chars_of(base);
    let s = v.as_slice();
    let pos: usize = match rfind(s, "</bindings>") {
        None => {
            return Err("base sem </bindings>".to_owned());
        },
        Some(p) => p,
    };
    let mut out: Vec<char> = Vec::new();
    push_chars(&mut out, slice_subrange(s, 0, pos));
    push_lit(&mut out, additions);
    push_chars(&mut out, slice_subrange(s, pos, s.len()));
    proof {
        assert(out@ =~= s@.take(pos as int) + additions@ + s@.skip(pos as int));
    }
    Ok(string_of(out.as_slice()))
}

// ---- routing ---------------------------------------------------------------

/// The two configuration files.
#[derive(Clone, Copy, PartialEq, Eq, Structural)]
pub enum Target {
    UserMappings,
    Contexts,
}

/// The tags that go to a configuration file.
pub open spec fn tags_for(t: Target) -> Seq<Seq<char>> {
    match t {
        Target::UserMappings => seq!["mapping"@, "buttonGroup"@, "pairedAxes"@, "preset"@],
        Target::Contexts => seq![
            "blend"@,
            "context"@,
            "hold"@,
            "multitap"@,
            "repeat"@,
            "toggle"@,
            "acceptedEvents"@,
        ],
    }
}

pub open spec fn routable(tag: Seq<char>) -> bool {
    tags_for(Target::UserMappings).contains(tag) || tags_for(Target::Contexts).contains(tag)
}

/// The elements of a mod: those inside its bindings element, or of the whole
/// text where it has none.
pub open spec fn mod_elements(text: Seq<char>) -> Seq<(Seq<char>, Seq<char>)> {
    match inner_of(text) {
        Some(inner) => elements_from(inner, 0),
        None => elements_from(text, 0),
    }
}

/// The elements of all mods, in their order.
pub open spec fn all_elements(texts: Seq<Seq<char>>) -> Seq<(Seq<char>, Seq<char>)>
    decreases texts.len(),
{
    if texts.len() == 0 {
        Seq::empty()
    } else {
        all_elements(texts.drop_last()) + mod_elements(texts.last())
    }
}

/// The additions of one tag: each element on a line of its own.
pub open spec fn additions_of(es: Seq<(Seq<char>, Seq<char>)>, tag: Seq<char>) -> Seq<char>
    decreases es.len(),
{
    if es.len() == 0 {
        Seq::empty()
    } else if es.last().0 == tag {
        additions_of(es.drop_last(), tag) + "\n\t"@ + trimmed(es.last().1)
    } else {
        additions_of(es.drop_last(), tag)
    }
}

pub open spec fn count_of(es: Seq<(Seq<char>, Seq<char>)>, tag: Seq<char>) -> nat
    decreases es.len(),
{
    if es.len() == 0 {
        0
    } else {
        count_of(es.drop_last(), tag) + (if es.last().0 == tag {
            1nat
        } else {
            0
        })
    }
}

/// The additions of the first `n` tags, one tag after another.
pub open spec fn additions_for(
    es: Seq<(Seq<char>, Seq<char>)>,
    tags: Seq<Seq<char>>,
    n: nat,
) -> Seq<char>
    decreases n,
{
    if n == 0 {
        Seq::empty()
    } else {
        additions_for(es, tags, (n - 1) as nat) + additions_of(es, tags[n - 1])
    }
}

pub open spec fn count_for(es: Seq<(Seq<char>, Seq<char>)>, tags: Seq<Seq<char>>, n: nat) -> nat
    decreases n,
{
    if n == 0 {
        0
    } else {
        count_for(es, tags, (n - 1) as nat) + count_of(es, tags[n - 1])
    }
}

/// The block that is put into a configuration file.
pub open spec fn block_for(es: Seq<(Seq<char>, Seq<char>)>, t: Target) -> Seq<char> {
    let tags = tags_for(t);
    "\n\t<!-- input-loader: "@ + dec(count_for(es, tags, tags.len()))
        + " node(s) de mods -->"@ + additions_for(es, tags, tags.len()) + "\n"@
}

/// The tags that go nowhere, each once, in the order of their first occurrence.
pub open spec fn unknown_of(es: Seq<(Seq<char>, Seq<char>)>) -> Seq<Seq<char>>
    decreases es.len(),
{
    if es.len() == 0 {
        Seq::empty()
    } else {
        let before = unknown_of(es.drop_last());
        if routable(es.last().0) || before.contains(es.last().0) {
            before
        } else {
            before.push(es.last().0)
        }
    }
}

/// The number of tags of a configuration file.
fn tag_count(t: Target) -> (r: usize)
    ensures
        r == tags_for(t).len(),
{
    match t {
        Target::UserMappings => 4,
        Target::Contexts => 7,
    }
}

fn tag_name(t: Target, i: usize) -> (r: &'static str)
    requires
        i < tags_for(t).len(),
    ensures
        r@ == tags_for(t)[i as int],
{
    match t {
        Target::UserMappings => match i {
            0 => "mapping",
            1 => "buttonGroup",
            2 => "pairedAxes",
            _ => "preset",
        },
        Target::Contexts => match i {
            0 => "blend",
            1 => "context",
            2 => "hold",
            3 => "multitap",
            4 => "repeat",
            5 => "toggle",
            _ => "acceptedEvents",
        },
    }
}

fn goes_to(tag: &str, t: Target) -> (r: bool)
    ensures
        r == tags_for(t).contains(tag@),
{
    let n: usize = tag_count(t);
    let mut i: usize = 0;
    while i < n
        invariant
            i <= n,
            n == tags_for(t).len(),
            forall|k: int| 0 <= k < i ==> tags_for(t)[k] != tag@,
        decreases n - i,
    {
        if same_str(tag_name(t, i), tag) {
            return true;
        }
        i += 1;
    }
    false
}

/// The elements of all mods.
pub fn collect_elements(texts: &Vec<String>) -> (r: Vec<(String, String)>)
    ensures
        pairs_view(r@) == all_elements(strings_view(texts@)),
{
    let ghost all = strings_view(texts@);
    let mut out: Vec<(String, String)> = Vec::new();
    let mut i: usize = 0;
    proof {
        assert(pairs_view(out@) =~= Seq::empty());
    }
    while i < texts.len()
        invariant
            i <= texts@.len(),
            all == strings_view(texts@),
            pairs_view(out@) == all_elements(all.take(i as int)),
        decreases texts@.len() - i,
    {
        let ghost before = pairs_view(out@);
        let ghost prior = out@;
        proof {
            assert(all.take(i + 1).drop_last() =~= all.take(i as int));
            assert(all.take(i + 1).last() == texts@[i as int]@);
        }
        let mut more = match bindings_inner(texts[i].as_str()) {
            Some(inner) => extract_elements(inner.as_str()),
            None => extract_elements(texts[i].as_str()),
        };
        let ghost added = more@;
        out.append(&mut more);
        proof {
            assert(out@ == prior + added);
            assert(pairs_view(out@) =~= before + pairs_view(added));
        }
        i += 1;
    }
    proof {
        assert(all.take(i as int) =~= all);
    }
    out
}

/// The tags that go nowhere.
pub fn unknown_tags(elements: &Vec<(String, String)>) -> (r: Vec<String>)
    ensures
        strings_view(r@) == unknown_of(pairs_view(elements@)),
{
    let ghost all = pairs_view(elements@);
    let mut out: Vec<String> = Vec::new();
    let mut i: usize = 0;
    proof {
        assert(strings_view(out@) =~= Seq::empty());
    }
    while i < elements.len()
        invariant
            i <= elements@.len(),
            all == pairs_view(elements@),
            strings_view(out@) == unknown_of(all.take(i as int)),
        decreases elements@.len() - i,
    {
        let tag = &elements[i].0;
        proof {
            assert(all.take(i + 1).drop_last() =~= all.take(i as int));
            assert(all.take(i + 1).last() == all[i as int]);
            assert(all[i as int].0 == tag@);
        }
        if !goes_to(tag.as_str(), Target::UserMappings) && !goes_to(tag.as_str(), Target::Contexts)
            && !listed(&out, tag) {
            let ghost before = out@;
            let t = tag.clone();
            out.push(t);
            proof {
                assert(strings_view(out@) =~= strings_view(before).push(tag@));
            }
        }
        i += 1;
    }
    proof {
        assert(all.take(i as int) =~= all);
    }
    out
}

fn listed(v: &Vec<String>, s: &String) -> (r: bool)
    ensures
        r == strings_view(v@).contains(s@),
{
    let mut i: usize = 0;
    while i < v.len()
        invariant
            i <= v@.len(),
            forall|k: int| 0 <= k < i ==> strings_view(v@)[k] != s@,
        decreases v@.len() - i,
    {
        if same_str(v[i].as_str(), s.as_str()) {
            proof {
                assert(strings_view(v@)[i as int] == s@);
            }
            return true;
        }
        i += 1;
    }
    proof {
        if strings_view(v@).contains(s@) {
            let k = choose|k: int| 0 <= k < v@.len() && strings_view(v@)[k] == s@;
            assert(strings_view(v@)[k] != s@);
        }
    }
    false
}

/// Appends the elements with a tag, and says how many there were.
fn push_additions(out: &mut Vec<char>, elements: &Vec<(String, String)>, tag: &str) -> (r: u64)
    ensures
        final(out)@ == old(out)@ + additions_of(pairs_view(elements@), tag@),
        r == count_of(pairs_view(elements@), tag@),
        r <= elements@.len(),
{
    let ghost start = out@;
    let ghost all = pairs_view(elements@);
    let mut n: u64 = 0;
    let mut i: usize = 0;
    proof {
        assert(all.take(0) =~= Seq::empty());
        assert(start + additions_of(all.take(0), tag@) =~= start);
    }
    while i < elements.len()
        invariant
            i <= elements@.len(),
            all == pairs_view(elements@),
            n <= i,
            out@ == start + additions_of(all.take(i as int), tag@),
            n == count_of(all.take(i as int), tag@),
        decreases elements@.len() - i,
    {
        proof {
            assert(all.take(i + 1).drop_last() =~= all.take(i as int));
            assert(all.take(i + 1).last() == all[i as int]);
            assert(all[i as int] == (elements@[i as int].0@, elements@[i as int].1@));
        }
        if same_str(elements[i].0.as_str(), tag) {
            let e = chars_of(elements[i].1.as_str());
            push_lit(out, "\n\t");
            push_chars(out, trim(e.as_slice()));
            n += 1;
            proof {
                assert(out@ =~= start + additions_of(all.take(i + 1), tag@));
            }
        }
        i += 1;
    }
    proof {
        assert(all.take(i as int) =~= all);
    }
    n
}

/// The block for a configuration file, and how many elements it holds.
pub fn additions_block(elements: &Vec<(String, String)>, t: Target) -> (r: (u128, String))
    ensures
        r.0 == count_for(pairs_view(elements@), tags_for(t), tags_for(t).len()),
        r.1@ == block_for(pairs_view(elements@), t),
{
    let ghost all = pairs_view(elements@);
    let ghost tags = tags_for(t);
    let mut body: Vec<char> = Vec::new();
    let mut n: u128 = 0;
    let count: usize = tag_count(t);
    let mut i: usize = 0;
    while i < count
        invariant
            i <= count <= 7,
            count == tags.len(),
            tags == tags_for(t),
            all == pairs_view(elements@),
            n <= i * 0xFFFF_FFFF_FFFF_FFFF,
            body@ == additions_for(all, tags, i as nat),
            n == count_for(all, tags, i as nat),
        decreases count - i,
    {
        let k: u64 = push_additions(&mut body, elements, tag_name(t, i));
        n = n + k as u128;
        i += 1;
    }
    let mut out: Vec<char> = Vec::new();
    push_lit(&mut out, "\n\t<!-- input-loader: ");
    push_dec(&mut out, n);
    push_lit(&mut out, " node(s) de mods -->");
    push_chars(&mut out, body.as_slice());
    push_lit(&mut out, "\n");
    proof {
        assert(out@ =~= block_for(all, t));
    }
    (n, string_of(out.as_slice()))
}

// ---- files -----------------------------------------------------------------

/// A configuration file and the pristine copy that was kept of it.
pub struct ConfigFile {
    pub base: String,
    pub orig: Option<String>,
}

pub struct ConfigV {
    pub base: Seq<char>,
    pub orig: Option<Seq<char>>,
}

impl View for ConfigFile {
    type V = ConfigV;

    open spec fn view(&self) -> ConfigV {
        ConfigV {
            base: self.base@,
            orig: match self.orig {
                Some(s) => Some(s@),
                None => None,
            },
        }
    }
}

impl ConfigV {
    /// The pristine text: the copy, or the file itself before the first merge.
    pub open spec fn pristine(self) -> Seq<char> {
        match self.orig {
            Some(s) => s,
            None => self.base,
        }
    }
}

/// The file after a merge, which always starts from the pristine text.
pub open spec fn merged_file(
    f: ConfigV,
    es: Seq<(Seq<char>, Seq<char>)>,
    t: Target,
) -> Result<ConfigV, Seq<char>> {
    match merged(f.pristine(), block_for(es, t)) {
        Ok(base) => Ok(ConfigV { base, orig: Some(f.pristine()) }),
        Err(e) => Err(e),
    }
}

/// Merges elements into a configuration file.
pub fn merge_file(f: &ConfigFile, elements: &Vec<(String, String)>, t: Target) -> (r: Result<
    ConfigFile,
    String,
>)
    ensures
        match r {
            Ok(g) => merged_file(f@, pairs_view(elements@), t) == Ok::<ConfigV, Seq<char>>(g@),
            Err(e) => merged_file(f@, pairs_view(elements@), t) == Err::<ConfigV, Seq<char>>(e@),
        },
{
    let pristine = match &f.orig {
        Some(s) => s.clone(),
        None => f.base.clone(),
    };
    let (_, block) = additions_block(elements, t);
    match merge_into(pristine.as_str(), block.as_str()) {
        Err(e) => Err(e),
        Ok(base) => Ok(ConfigFile { base, orig: Some(pristine) }),
    }
}

/// The file as it was before any merge; none where no copy was kept.
pub fn restore_file(f: &ConfigFile) -> (r: Option<ConfigFile>)
    ensures
        match r {
            Some(g) => f@.orig is Some && g@ == (ConfigV { base: f@.orig->0, orig: f@.orig }),
            None => f@.orig is None,
        },
{
    match &f.orig {
        None => None,
        Some(s) => Some(ConfigFile { base: s.clone(), orig: Some(s.clone()) }),
    }
}

/// Does the text carry the mark of a merge?
pub fn is_merged(text: &str) -> (r: bool)
    ensures
        r == (next_occurrence(text@, "<!-- input-loader:"@, 0) is Some),
{
    let v = chars_of(text);
    let p = chars_of("<!-- input-loader:");
    find(v.as_slice(), p.as_slice(), 0).is_some()
}

/// Is the file one of bindings, by its extension?
pub open spec fn is_bindings_file(path: Seq<char>) -> bool {
    extension(path) is Some && lowercase(extension(path)->0) == "xml"@
}

/// The files of bindings among these, in their order.
pub open spec fn bindings_files(paths: Seq<Seq<char>>) -> Seq<Seq<char>>
    decreases paths.len(),
{
    if paths.len() == 0 {
        Seq::empty()
    } else {
        let front = bindings_files(paths.drop_last());
        if is_bindings_file(paths.last()) {
            front.push(paths.last())
        } else {
            front
        }
    }
}

/// The files of bindings among these, sorted.
pub fn mod_files(paths: &Vec<String>) -> (r: Vec<String>)
    ensures
        sorted_list(bindings_files(strings_view(paths@)), strings_view(r@)),
{
    let ghost all = strings_view(paths@);
    let mut out: Vec<String> = Vec::new();
    let mut i: usize = 0;
    proof {
        assert(strings_view(out@) =~= Seq::empty());
    }
    while i < paths.len()
        invariant
            i <= paths@.len(),
            all == strings_view(paths@),
            strings_view(out@) == bindings_files(all.take(i as int)),
        decreases paths@.len() - i,
    {
        proof {
            assert(all.take(i + 1).drop_last() =~= all.take(i as int));
            assert(all.take(i + 1).last() == paths@[i as int]@);
        }
        let v = chars_of(paths[i].as_str());
        let keep: bool = match extension_of(v.as_slice()) {
            None => false,
            Some(e) => {
                let low = to_lowercase(e);
                is_lit(low.as_slice(), "xml")
            },
        };
        if keep {
            let ghost before = out@;
            let t = paths[i].clone();
            out.push(t);
            proof {
                assert(strings_view(out@) =~= strings_view(before).push(t@));
            }
        }
        i += 1;
    }
    proof {
        assert(all.take(i as int) =~= all);
    }
    sort_texts(out)
}

/// The name of a configuration file in messages.
pub open spec fn label_of(t: Target) -> Seq<char> {
    match t {
        Target::UserMappings => "inputUserMappings"@,
        Target::Contexts => "inputContexts"@,
    }
}

pub fn target_label(t: Target) -> (r: &'static str)
    ensures
        r@ == label_of(t),
{
    match t {
        Target::UserMappings => "inputUserMappings",
        Target::Contexts => "inputContexts",
    }
}

/// The line on the state of a configuration file: whether it and its pristine
/// copy are there, and whether it carries the mark of a merge.
pub open spec fn status_text(t: Target, base: bool, orig: bool, merged: bool) -> Seq<char> {
    label_of(t) + ": base "@ + (if base {
        "ok"@
    } else {
        "AUSENTE"@
    }) + " · pristino "@ + (if orig {
        "ok"@
    } else {
        "—"@
    }) + " · "@ + (if merged {
        "MESCLADO"@
    } else {
        "vanilla"@
    })
}

pub fn cmd_status(t: Target, base: bool, orig: bool, merged: bool) -> (r: String)
    ensures
        r@ == status_text(t, base, orig, merged),
{
    let mut out: Vec<char> = Vec::new();
    push_lit(&mut out, target_label(t));
    push_lit(&mut out, ": base ");
    push_lit(
        &mut out,
        if base {
            "ok"
        } else {
            "AUSENTE"
        },
    );
    push_lit(&mut out, " · pristino ");
    push_lit(
        &mut out,
        if orig {
            "ok"
        } else {
            "—"
        },
    );
    push_lit(&mut out, " · ");
    push_lit(
        &mut out,
        if merged {
            "MESCLADO"
        } else {
            "vanilla"
        },
    );
    proof {
        assert(out@ =~= status_text(t, base, orig, merged));
    }
    string_of(out.as_slice())
}

// ---- laws ------------------------------------------------------------------

/// Merging twice is merging once: the second merge starts from the same
/// pristine text.
pub proof fn merge_is_idempotent(f: ConfigV, es: Seq<(Seq<char>, Seq<char>)>, t: Target)
    ensures
        match merged_file(f, es, t) {
            Ok(g) => merged_file(g, es, t) == Ok::<ConfigV, Seq<char>>(g),
            Err(_) => true,
        },
{
}

/// A merge can be undone: the pristine text is kept, whatever was merged.
pub proof fn merge_is_reversible(f: ConfigV, es: Seq<(Seq<char>, Seq<char>)>, t: Target)
    ensures
        match merged_file(f, es, t) {
            Ok(g) => g.orig == Some(f.pristine()) && g.pristine() == f.pristine(),
            Err(_) => true,
        },
{
}

/// A merge takes nothing away: without the additions the base is left, and what
/// follows them is its last closing tag.
pub proof fn merge_only_adds(base: Seq<char>, additions: Seq<char>)
    requires
        merged(base, additions) is Ok,
    ensures
        ({
            let out = merged(base, additions)->Ok_0;
            let pos = bindings_close(base)->0;
            &&& 0 <= pos
            &&& out.take(pos) + out.skip(pos + additions.len()) == base
            &&& out.subrange(pos, pos + additions.len()) == additions
            &&& occurs_at(out, "</bindings>"@, pos + additions.len())
            &&& forall|k: int| k > pos ==> !occurs_at(base, "</bindings>"@, k)
        }),
{
    lemma_last_occurrence(base, "</bindings>"@, base.len() as int);
    let out = merged(base, additions)->Ok_0;
    let pos = bindings_close(base)->0;
    let p = "</bindings>"@;
    assert(out.take(pos) + out.skip(pos + additions.len()) =~= base);
    assert(out.subrange(pos, pos + additions.len()) =~= additions);
    assert(out.subrange(pos + additions.len(), pos + additions.len() + p.len()) =~= base.subrange(
        pos,
        pos + p.len(),
    ));
    assert forall|k: int| k > pos implies !occurs_at(base, p, k) by {
        if k <= base.len() {
        }
    }
}

proof fn lemma_last_occurrence(s: Seq<char>, p: Seq<char>, i: int)
    ensures
        match last_occurrence(s, p, i) {
            Some(k) => 0 <= k <= i && occurs_at(s, p, k) && forall|m: int|
                k < m <= i ==> !occurs_at(s, p, m),
            None => forall|m: int| 0 <= m <= i ==> !occurs_at(s, p, m),
        },
    decreases i + 1,
{
    if i >= 0 && !occurs_at(s, p, i) {
        lemma_last_occurrence(s, p, i - 1);
    }
}

/// Is the text one element: does it start with its opening tag, and end with
/// its closing tag or close itself?
pub open spec fn is_element(tag: Seq<char>, text: Seq<char>) -> bool {
    &&& tag.len() > 0
    &&& has_prefix(text, open_pattern(tag))
    &&& (has_suffix(text, "/>"@) || has_suffix(text, close_pattern(tag)))
}

/// Whatever is extracted is a whole element.
pub proof fn extracted_are_elements(s: Seq<char>, i: int)
    requires
        0 <= i,
    ensures
        forall|k: int|
            0 <= k < elements_from(s, i).len() ==> is_element(
                (#[trigger] elements_from(s, i)[k]).0,
                elements_from(s, i)[k].1,
            ),
    decreases s.len() - i,
{
    if i < s.len() {
        lemma_element_at(s, i);
        match element_at(s, i) {
            StepV::Skip(n) => {
                extracted_are_elements(s, n);
                assert(elements_from(s, i) == elements_from(s, n));
            },
            StepV::Element { tag, end } => {
                extracted_are_elements(s, end);
                assert(elements_from(s, i) == seq![(tag, s.subrange(i, end))] + elements_from(
                    s,
                    end,
                ));
                reveal_strlit("<");
                reveal_strlit("</");
                reveal_strlit(">");
                reveal_strlit("/>");
                lemma_next_index(s, '>', i);
                lemma_name_end(s, i + 1);
                let gt = next_index(s, '>', i);
                let j = name_end(s, i + 1);
                let text = s.subrange(i, end);
                lemma_close_end(s, tag, gt + 1, 1);
                assert(j <= gt) by {
                    if gt < j {
                        assert(tag_char(s[gt]));
                    }
                }
                assert(text.take(open_pattern(tag).len() as int) =~= open_pattern(tag));
                if s[gt - 1] == '/' {
                    assert(text.skip(text.len() - 2) =~= "/>"@);
                } else {
                    let c = close_pattern(tag);
                    assert(text.skip(text.len() - c.len()) =~= s.subrange(end - c.len(), end));
                }
                let rest = elements_from(s, end);
                assert forall|k: int| 0 <= k < elements_from(s, i).len() implies is_element(
                    (#[trigger] elements_from(s, i)[k]).0,
                    elements_from(s, i)[k].1,
                ) by {
                    if k > 0 {
                        assert(elements_from(s, i)[k] == rest[k - 1]);
                    }
                }
            },
            StepV::Stop => {
                assert(elements_from(s, i) =~= Seq::empty());
            },
        }
    } else {
        assert(elements_from(s, i) =~= Seq::empty());
    }
}

} // verus!
