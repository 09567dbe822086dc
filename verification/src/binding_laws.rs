//! What is found in a file of bindings: the elements that stand at its top, whole
//! and in their order, and nothing of its comments.
use vstd::prelude::*;

use crate::bindings::{
    additions_of, bindings_close, bindings_files, block_for, close_end, close_pattern, count_for,
    count_of, element_at, elements_from, inner_of, is_bindings_file, last_occurrence,
    lemma_occurrence, merged, merged_file, name_end, next_open, open_pattern, opens_at, routable,
    tag_char, tags_for, unknown_of, ConfigV, StepV, Target,
};
use crate::text::{
    has_prefix, has_suffix, lemma_next_index, next_index, next_occurrence, occurs_at, trimmed,
};

verus! {

// ---- what stands before does not matter ------------------------------------

proof fn lemma_shift_occurs(p: Seq<char>, b: Seq<char>, pat: Seq<char>, i: int)
    requires
        0 <= i,
    ensures
        occurs_at(p + b, pat, p.len() + i) == occurs_at(b, pat, i),
{
    if i + pat.len() <= b.len() {
        assert((p + b).subrange(p.len() + i, p.len() + i + pat.len()) =~= b.subrange(
            i,
            i + pat.len(),
        ));
    }
}

proof fn lemma_shift_index(p: Seq<char>, b: Seq<char>, c: char, i: int)
    requires
        0 <= i,
    ensures
        next_index(p + b, c, p.len() + i) == p.len() + next_index(b, c, i),
    decreases b.len() - i,
{
    if i < b.len() {
        lemma_shift_index(p, b, c, i + 1);
    }
}

/// The same place, further on.
spec fn further(at: Option<int>, n: int) -> Option<int> {
    match at {
        Some(k) => Some(n + k),
        None => None,
    }
}

proof fn lemma_shift_occurrence(p: Seq<char>, b: Seq<char>, pat: Seq<char>, i: int)
    requires
        0 <= i,
    ensures
        next_occurrence(p + b, pat, p.len() + i) == further(
            next_occurrence(b, pat, i),
            p.len() as int,
        ),
    decreases b.len() - i,
{
    lemma_shift_occurs(p, b, pat, i);
    if i < b.len() {
        lemma_shift_occurrence(p, b, pat, i + 1);
    }
}

proof fn lemma_shift_name(p: Seq<char>, b: Seq<char>, i: int)
    requires
        0 <= i,
    ensures
        name_end(p + b, p.len() + i) == p.len() + name_end(b, i),
    decreases b.len() - i,
{
    if i < b.len() {
        lemma_shift_name(p, b, i + 1);
    }
}

proof fn lemma_shift_open(p: Seq<char>, b: Seq<char>, tag: Seq<char>, i: int)
    requires
        0 <= i,
    ensures
        opens_at(p + b, tag, p.len() + i) == opens_at(b, tag, i),
        next_open(p + b, tag, p.len() + i) == further(next_open(b, tag, i), p.len() as int),
    decreases b.len() - i,
{
    lemma_shift_occurs(p, b, open_pattern(tag), i);
    if i < b.len() {
        lemma_shift_open(p, b, tag, i + 1);
    }
}

proof fn lemma_open_place(s: Seq<char>, tag: Seq<char>, k: int)
    requires
        0 <= k,
    ensures
        match next_open(s, tag, k) {
            Some(o) => k <= o && o + open_pattern(tag).len() <= s.len() && opens_at(s, tag, o),
            None => true,
        },
    decreases s.len() - k,
{
    if k < s.len() && !opens_at(s, tag, k) {
        lemma_open_place(s, tag, k + 1);
    }
}

proof fn lemma_shift_close(p: Seq<char>, b: Seq<char>, tag: Seq<char>, i: int, depth: nat)
    requires
        0 <= i,
    ensures
        close_end(p + b, tag, p.len() + i, depth) == further(
            close_end(b, tag, i, depth),
            p.len() as int,
        ),
    decreases b.len() - i,
{
    reveal_strlit("<");
    reveal_strlit("</");
    reveal_strlit(">");
    lemma_shift_open(p, b, tag, i);
    lemma_shift_occurrence(p, b, close_pattern(tag), i);
    if i < b.len() {
        lemma_open_place(b, tag, i);
        lemma_occurrence(b, close_pattern(tag), i);
        match next_occurrence(b, close_pattern(tag), i) {
            None => {},
            Some(c) => {
                let no = next_open(b, tag, i);
                if no is Some && no->0 < c {
                    let o = no->0;
                    lemma_shift_index(p, b, '>', o);
                    lemma_next_index(b, '>', o);
                    let e = next_index(b, '>', o);
                    assert(b[o] == '<') by {
                        assert(b.subrange(o, o + open_pattern(tag).len())[0] == open_pattern(tag)[0]);
                    }
                    if e >= b.len() {
                        lemma_shift_close(p, b, tag, o + open_pattern(tag).len(), depth + 1);
                    } else {
                        assert((p + b)[p.len() + e - 1] == b[e - 1]);
                        if b[e - 1] == '/' {
                            lemma_shift_close(p, b, tag, e + 1, depth);
                        } else {
                            lemma_shift_close(p, b, tag, e + 1, depth + 1);
                        }
                    }
                } else if depth > 1 {
                    lemma_shift_close(
                        p,
                        b,
                        tag,
                        c + close_pattern(tag).len(),
                        (depth - 1) as nat,
                    );
                }
            },
        }
    }
}

proof fn lemma_name_place(s: Seq<char>, i: int)
    requires
        0 <= i <= s.len(),
    ensures
        i <= name_end(s, i) <= s.len(),
    decreases s.len() - i,
{
    if i < s.len() && tag_char(s[i]) {
        lemma_name_place(s, i + 1);
    }
}

spec fn further_step(st: StepV, n: int) -> StepV {
    match st {
        StepV::Skip(k) => StepV::Skip(n + k),
        StepV::Element { tag, end } => StepV::Element { tag, end: n + end },
        StepV::Stop => StepV::Stop,
    }
}

proof fn lemma_shift_step(p: Seq<char>, b: Seq<char>, i: int)
    requires
        0 <= i < b.len(),
    ensures
        element_at(p + b, p.len() + i) == further_step(element_at(b, i), p.len() as int),
{
    let s = p + b;
    let n = p.len() as int;
    lemma_shift_name(p, b, i + 1);
    lemma_name_place(b, i + 1);
    lemma_shift_index(p, b, '>', i);
    lemma_next_index(b, '>', i);
    lemma_shift_occurs(p, b, "<!--"@, i);
    lemma_shift_occurs(p, b, "<?"@, i);
    lemma_shift_occurs(p, b, "<!"@, i);
    lemma_shift_occurrence(p, b, "-->"@, i);
    let j = name_end(b, i + 1);
    let gt = next_index(b, '>', i);
    let tag = b.subrange(i + 1, j);
    assert(s.subrange(n + i + 1, n + j) =~= tag);
    lemma_shift_close(p, b, tag, gt + 1, 1);
    assert(s[n + i] == b[i]);
    if gt < b.len() && b[i] == '<' {
        assert(gt > i);
        assert(s[n + gt - 1] == b[gt - 1]);
    }
}

/// What is found from a place on depends on what stands there and behind it alone.
pub proof fn elements_do_not_depend_on_what_stands_before(p: Seq<char>, b: Seq<char>, i: int)
    requires
        0 <= i,
    ensures
        elements_from(p + b, p.len() + i) == elements_from(b, i),
    decreases b.len() - i,
{
    if i < b.len() {
        lemma_shift_step(p, b, i);
        lemma_step_forward(b, i);
        match element_at(b, i) {
            StepV::Skip(n) => {
                elements_do_not_depend_on_what_stands_before(p, b, n);
            },
            StepV::Element { tag, end } => {
                elements_do_not_depend_on_what_stands_before(p, b, end);
                assert((p + b).subrange(p.len() + i, p.len() + end) =~= b.subrange(i, end));
            },
            StepV::Stop => {},
        }
    }
}

proof fn lemma_close_forward(s: Seq<char>, tag: Seq<char>, k: int, depth: nat)
    requires
        0 <= k,
    ensures
        match close_end(s, tag, k, depth) {
            Some(e) => k < e <= s.len(),
            None => true,
        },
    decreases s.len() - k,
{
    reveal_strlit("<");
    reveal_strlit("</");
    reveal_strlit(">");
    if k < s.len() {
        lemma_open_place(s, tag, k);
        lemma_occurrence(s, close_pattern(tag), k);
        match next_occurrence(s, close_pattern(tag), k) {
            None => {},
            Some(c) => {
                let no = next_open(s, tag, k);
                if no is Some && no->0 < c {
                    let o = no->0;
                    let e = next_index(s, '>', o);
                    lemma_next_index(s, '>', o);
                    if e >= s.len() {
                        lemma_close_forward(s, tag, o + open_pattern(tag).len(), depth + 1);
                    } else if s[e - 1] == '/' {
                        lemma_close_forward(s, tag, e + 1, depth);
                    } else {
                        lemma_close_forward(s, tag, e + 1, depth + 1);
                    }
                } else if depth > 1 {
                    lemma_close_forward(s, tag, c + close_pattern(tag).len(), (depth - 1) as nat);
                }
            },
        }
    }
}

proof fn lemma_step_forward(s: Seq<char>, i: int)
    requires
        0 <= i < s.len(),
    ensures
        match element_at(s, i) {
            StepV::Skip(n) => i < n <= s.len(),
            StepV::Element { tag, end } => i < end <= s.len(),
            StepV::Stop => true,
        },
{
    reveal_strlit("-->");
    lemma_next_index(s, '>', i);
    lemma_name_place(s, i + 1);
    lemma_occurrence(s, "-->"@, i);
    lemma_close_forward(s, s.subrange(i + 1, name_end(s, i + 1)), next_index(s, '>', i) + 1, 1);
}

// ---- comments --------------------------------------------------------------

/// Nothing is found inside a comment: where one opens, the search goes on right
/// behind the first `-->`, and where it never ends, nothing more is found.
pub proof fn comments_are_passed_over(s: Seq<char>, i: int)
    requires
        0 <= i,
        occurs_at(s, "<!--"@, i),
    ensures
        forall|e: int|
            i <= e && #[trigger] occurs_at(s, "-->"@, e) && (forall|k: int|
                i <= k < e ==> !occurs_at(s, "-->"@, k)) ==> elements_from(s, i) == elements_from(
                s,
                e + 3,
            ),
        (forall|k: int| i <= k ==> !occurs_at(s, "-->"@, k)) ==> elements_from(s, i)
            == Seq::<(Seq<char>, Seq<char>)>::empty(),
{
    reveal_strlit("<!--");
    reveal_strlit("-->");
    assert(s[i] == '<') by {
        assert(s.subrange(i, i + 4)[0] == "<!--"@[0]);
    }
    lemma_occurrence(s, "-->"@, i);
    assert forall|e: int|
        i <= e && #[trigger] occurs_at(s, "-->"@, e) && (forall|k: int|
            i <= k < e ==> !occurs_at(s, "-->"@, k)) implies elements_from(s, i) == elements_from(
        s,
        e + 3,
    ) by {
        lemma_first_occurrence(s, "-->"@, i, e);
    }
}

proof fn lemma_first_occurrence(s: Seq<char>, p: Seq<char>, i: int, e: int)
    requires
        0 <= i <= e,
        p.len() > 0,
        occurs_at(s, p, e),
        forall|k: int| i <= k < e ==> !occurs_at(s, p, k),
    ensures
        next_occurrence(s, p, i) == Some(e),
    decreases e - i,
{
    if i < e {
        lemma_first_occurrence(s, p, i + 1, e);
    }
}

/// A whole comment: it ends where its first `-->` does.
pub open spec fn is_comment(c: Seq<char>) -> bool {
    &&& c.len() >= 5
    &&& has_prefix(c, "<!--"@)
    &&& has_suffix(c, "-->"@)
    &&& forall|k: int| 0 <= k < c.len() - 3 ==> !#[trigger] occurs_at(c, "-->"@, k)
}

/// A comment adds nothing, whatever it holds: the elements are those of the text
/// behind it.
pub proof fn comments_add_nothing(c: Seq<char>, b: Seq<char>)
    requires
        is_comment(c),
    ensures
        elements_from(c + b, 0) == elements_from(b, 0),
{
    reveal_strlit("<!--");
    reveal_strlit("-->");
    let s = c + b;
    let e = c.len() - 3;
    assert(s.subrange(0, 4) =~= c.take(4));
    assert(s.subrange(e, e + 3) =~= c.skip(e));
    assert forall|k: int| 0 <= k < e implies !occurs_at(s, "-->"@, k) by {
        assert(!occurs_at(c, "-->"@, k));
        if occurs_at(s, "-->"@, k) {
            assert(c.subrange(k, k + 3) =~= s.subrange(k, k + 3));
        }
    }
    comments_are_passed_over(s, 0);
    assert(occurs_at(s, "-->"@, e));
    elements_do_not_depend_on_what_stands_before(c, b, 0);
}

/// Text in which nothing opens adds nothing.
pub proof fn other_text_adds_nothing(t: Seq<char>, b: Seq<char>)
    requires
        !t.contains('<'),
    ensures
        elements_from(t + b, 0) == elements_from(b, 0),
    decreases t.len(),
{
    if t.len() == 0 {
        assert(t + b =~= b);
    } else {
        let rest = t.skip(1);
        assert(t[0] != '<') by {
            assert(t.contains(t[0]));
        }
        assert(!rest.contains('<')) by {
            if rest.contains('<') {
                let k = choose|k: int| 0 <= k < rest.len() && rest[k] == '<';
                assert(t[k + 1] == '<');
            }
        }
        other_text_adds_nothing(rest, b);
        let first = t.take(1);
        assert(t + b =~= first + (rest + b));
        assert((t + b)[0] == t[0]);
        elements_do_not_depend_on_what_stands_before(first, rest + b, 0);
    }
}

/// A declaration, `<?...>` or `<!...>`, adds nothing.
pub proof fn declarations_add_nothing(d: Seq<char>, b: Seq<char>)
    requires
        d.len() > 2,
        d[0] == '<',
        d[1] == '?' || (d[1] == '!' && d[2] != '-'),
        d.last() == '>',
        forall|k: int| 0 <= k < d.len() - 1 ==> d[k] != '>',
    ensures
        elements_from(d + b, 0) == elements_from(b, 0),
{
    reveal_strlit("<!--");
    reveal_strlit("<!");
    reveal_strlit("<?");
    let s = d + b;
    assert(s[0] == '<' && s[1] == d[1] && s[2] == d[2]);
    if occurs_at(s, "<!--"@, 0) {
        assert(s.subrange(0, 4)[1] == '!');
        assert(s.subrange(0, 4)[2] == '-');
    }
    if d[1] == '?' {
        assert(s.subrange(0, 2) =~= "<?"@);
    } else {
        assert(s.subrange(0, 2) =~= "<!"@);
    }
    lemma_first_index(s, '>', 0, d.len() - 1);
    elements_do_not_depend_on_what_stands_before(d, b, 0);
}

proof fn lemma_first_index(s: Seq<char>, c: char, i: int, e: int)
    requires
        0 <= i <= e < s.len(),
        s[e] == c,
        forall|k: int| i <= k < e ==> s[k] != c,
    ensures
        next_index(s, c, i) == e,
    decreases e - i,
{
    if i < e {
        lemma_first_index(s, c, i + 1, e);
    }
}

// ---- elements --------------------------------------------------------------

/// A name: letters, digits, and the signs `_`, `:` and `-`.
pub open spec fn is_name(n: Seq<char>) -> bool {
    n.len() > 0 && forall|k: int| 0 <= k < n.len() ==> name_sign(#[trigger] n[k])
}

pub open spec fn name_sign(c: char) -> bool {
    ('a' <= c <= 'z') || ('A' <= c <= 'Z') || ('0' <= c <= '9') || c == '_' || c == ':' || c == '-'
}

/// What may stand behind the name in a tag: nothing, or a blank and whatever opens
/// and closes nothing.
pub open spec fn is_attributes(a: Seq<char>) -> bool {
    &&& forall|k: int| 0 <= k < a.len() ==> #[trigger] a[k] != '<' && a[k] != '>'
    &&& a.len() > 0 ==> a[0] == ' ' && a.last() != '/'
}

/// Text, an element that closes itself, or an element with content.
pub enum XmlV {
    Text(Seq<char>),
    Single { name: Seq<char>, attributes: Seq<char> },
    Nested { name: Seq<char>, attributes: Seq<char>, content: Seq<XmlV> },
}

pub open spec fn single_text(n: Seq<char>, a: Seq<char>) -> Seq<char> {
    seq!['<'] + n + a + seq!['/', '>']
}

pub open spec fn opening_text(n: Seq<char>, a: Seq<char>) -> Seq<char> {
    seq!['<'] + n + a + seq!['>']
}

pub open spec fn closing_text(n: Seq<char>) -> Seq<char> {
    seq!['<', '/'] + n + seq!['>']
}

pub open spec fn xml_text(x: XmlV) -> Seq<char>
    decreases x,
{
    match x {
        XmlV::Text(t) => t,
        XmlV::Single { name, attributes } => single_text(name, attributes),
        XmlV::Nested { name, attributes, content } => opening_text(name, attributes) + xml_texts(
            content,
        ) + closing_text(name),
    }
}

pub open spec fn xml_texts(xs: Seq<XmlV>) -> Seq<char>
    decreases xs,
{
    if xs.len() == 0 {
        Seq::empty()
    } else {
        xml_text(xs[0]) + xml_texts(xs.skip(1))
    }
}

/// Are the names names, the attributes attributes, and is the text free of tags?
pub open spec fn is_xml(x: XmlV) -> bool
    decreases x,
{
    match x {
        XmlV::Text(t) => !t.contains('<'),
        XmlV::Single { name, attributes } => is_name(name) && is_attributes(attributes),
        XmlV::Nested { name, attributes, content } => is_name(name) && is_attributes(attributes)
            && all_xml(content),
    }
}

pub open spec fn all_xml(xs: Seq<XmlV>) -> bool
    decreases xs,
{
    xs.len() == 0 || (is_xml(xs[0]) && all_xml(xs.skip(1)))
}

proof fn lemma_patterns(n: Seq<char>)
    ensures
        open_pattern(n) == seq!['<'] + n,
        close_pattern(n) == closing_text(n),
{
    reveal_strlit("<");
    reveal_strlit("</");
    reveal_strlit(">");
    assert(open_pattern(n) =~= seq!['<'] + n);
    assert(close_pattern(n) =~= closing_text(n));
}

/// Does no tag of this name stand there?
spec fn silent(s: Seq<char>, n: Seq<char>, i: int) -> bool {
    !opens_at(s, n, i) && !occurs_at(s, close_pattern(n), i)
}

/// No tag of this name stands where no `<` does.
proof fn lemma_no_tag(s: Seq<char>, n: Seq<char>, k: int)
    requires
        0 <= k < s.len(),
        s[k] != '<',
    ensures
        !opens_at(s, n, k),
        !occurs_at(s, close_pattern(n), k),
{
    lemma_patterns(n);
    if occurs_at(s, open_pattern(n), k) {
        assert(s.subrange(k, k + open_pattern(n).len())[0] == '<');
    }
    if occurs_at(s, close_pattern(n), k) {
        assert(s.subrange(k, k + close_pattern(n).len())[0] == '<');
    }
}

proof fn lemma_skip_places(s: Seq<char>, n: Seq<char>, k: int, m: int)
    requires
        0 <= k <= m < s.len(),
        forall|i: int| k <= i < m ==> #[trigger] silent(s, n, i),
    ensures
        next_open(s, n, k) == next_open(s, n, m),
        next_occurrence(s, close_pattern(n), k) == next_occurrence(s, close_pattern(n), m),
    decreases m - k,
{
    if k < m {
        assert(silent(s, n, k));
        lemma_skip_places(s, n, k + 1, m);
        if k + close_pattern(n).len() > s.len() {
            lemma_patterns(n);
        }
    }
}

proof fn lemma_skip(s: Seq<char>, n: Seq<char>, m: int, d: nat)
    requires
        0 <= m < s.len(),
        forall|i: int| 0 <= i < m ==> #[trigger] silent(s, n, i),
    ensures
        close_end(s, n, 0, d) == close_end(s, n, m, d),
{
    lemma_skip_places(s, n, 0, m);
}

/// Past text without tags.
proof fn lemma_past_text(t: Seq<char>, r: Seq<char>, n: Seq<char>, d: nat)
    requires
        !t.contains('<'),
        r.len() > 0,
    ensures
        close_end(t + r, n, 0, d) == further(close_end(r, n, 0, d), t.len() as int),
{
    let s = t + r;
    assert forall|i: int| 0 <= i < t.len() implies #[trigger] silent(s, n, i) by {
        assert(t.contains(t[i]));
        lemma_no_tag(s, n, i);
    }
    lemma_skip(s, n, t.len() as int, d);
    lemma_shift_close(t, r, n, 0, d);
}

/// An opening tag of another name opens nothing of this one.
proof fn lemma_other_open(m: Seq<char>, rest: Seq<char>, n: Seq<char>)
    requires
        is_name(m),
        is_name(n),
        rest.len() > 0,
        !name_sign(rest[0]),
    ensures
        opens_at(seq!['<'] + m + rest, n, 0) == (m == n),
        !occurs_at(seq!['<'] + m + rest, close_pattern(n), 0),
{
    let s = seq!['<'] + m + rest;
    lemma_patterns(n);
    assert(tag_char(rest[0]) == name_sign(rest[0]));
    assert(name_sign(m[0]));
    if occurs_at(s, close_pattern(n), 0) {
        assert(s.subrange(0, close_pattern(n).len() as int)[1] == '/');
        assert(s[1] == m[0]);
    }
    if m == n {
        assert(s.subrange(0, open_pattern(n).len() as int) =~= open_pattern(n));
    } else if opens_at(s, n, 0) {
        let sub = s.subrange(0, open_pattern(n).len() as int);
        assert forall|k: int| 0 <= k < n.len() implies s[k + 1] == #[trigger] n[k] by {
            assert(sub[k + 1] == open_pattern(n)[k + 1]);
        }
        if n.len() < m.len() {
            assert(name_sign(m[n.len() as int]));
            assert(s[1 + n.len() as int] == m[n.len() as int]);
        } else if n.len() > m.len() {
            assert(name_sign(n[m.len() as int]));
            assert(s[1 + m.len() as int] == rest[0]);
        } else {
            assert(n =~= m);
        }
    }
}

/// A closing tag of another name closes nothing of this one.
proof fn lemma_other_close(m: Seq<char>, rest: Seq<char>, n: Seq<char>)
    requires
        is_name(m),
        is_name(n),
    ensures
        occurs_at(closing_text(m) + rest, close_pattern(n), 0) == (m == n),
        !opens_at(closing_text(m) + rest, n, 0),
{
    let s = closing_text(m) + rest;
    lemma_patterns(n);
    assert(name_sign(n[0]));
    if occurs_at(s, open_pattern(n), 0) {
        assert(s.subrange(0, open_pattern(n).len() as int)[1] == n[0]);
        assert(s[1] == '/');
    }
    if m == n {
        assert(s.subrange(0, close_pattern(n).len() as int) =~= close_pattern(n));
    } else if occurs_at(s, close_pattern(n), 0) {
        let sub = s.subrange(0, close_pattern(n).len() as int);
        assert forall|k: int| 0 <= k < n.len() implies s[k + 2] == #[trigger] n[k] by {
            assert(sub[k + 2] == close_pattern(n)[k + 2]);
        }
        assert(sub[n.len() as int + 2] == '>');
        if n.len() < m.len() {
            assert(name_sign(m[n.len() as int]));
            assert(s[2 + n.len() as int] == m[n.len() as int]);
        } else if n.len() > m.len() {
            assert(name_sign(n[m.len() as int]));
            assert(s[2 + m.len() as int] == '>');
        } else {
            assert(n =~= m);
        }
    }
}

/// The shape of a tag: one `<`, at its start, and one `>`, at its end.
proof fn lemma_tag_shape(n: Seq<char>, a: Seq<char>)
    requires
        is_name(n),
        is_attributes(a),
    ensures
        ({
            let e = single_text(n, a);
            &&& forall|k: int| 1 <= k < e.len() ==> #[trigger] e[k] != '<'
            &&& forall|k: int| 0 <= k < e.len() - 1 ==> #[trigger] e[k] != '>'
            &&& e[e.len() - 1] == '>'
            &&& e[e.len() - 2] == '/'
        }),
        ({
            let o = opening_text(n, a);
            &&& forall|k: int| 1 <= k < o.len() ==> #[trigger] o[k] != '<'
            &&& forall|k: int| 0 <= k < o.len() - 1 ==> #[trigger] o[k] != '>'
            &&& o[o.len() - 1] == '>'
            &&& o[o.len() - 2] != '/'
        }),
{
    let e = single_text(n, a);
    let o = opening_text(n, a);
    assert forall|k: int| 1 <= k < 1 + n.len() implies #[trigger] e[k] != '<' && e[k] != '>' && e[k]
        != '/' && o[k] == e[k] by {
        assert(name_sign(n[k - 1]));
        assert(e[k] == n[k - 1]);
    }
    assert forall|k: int| 1 + n.len() <= k < 1 + n.len() + a.len() implies #[trigger] e[k] != '<'
        && e[k] != '>' && o[k] == e[k] by {
        assert(e[k] == a[k - 1 - n.len()]);
    }
    assert forall|k: int| 1 <= k < o.len() implies #[trigger] o[k] != '<' by {
        if k < o.len() - 1 {
            assert(o[k] == e[k]);
        }
    }
    assert forall|k: int| 0 <= k < o.len() - 1 implies #[trigger] o[k] != '>' by {
        if k > 0 {
            assert(o[k] == e[k]);
        }
    }
    if a.len() == 0 {
        assert(o[o.len() - 2] == e[n.len() as int]);
    } else {
        assert(o[o.len() - 2] == a.last());
    }
}

/// Past an element that closes itself.
proof fn lemma_past_single(m: Seq<char>, a: Seq<char>, r: Seq<char>, n: Seq<char>, d: nat)
    requires
        is_name(m),
        is_attributes(a),
        is_name(n),
        r.len() > 0,
    ensures
        close_end(single_text(m, a) + r, n, 0, d) == further(
            close_end(r, n, 0, d),
            single_text(m, a).len() as int,
        ),
{
    let e = single_text(m, a);
    let s = e + r;
    lemma_tag_shape(m, a);
    let rest = a + seq!['/', '>'] + r;
    assert(s =~= seq!['<'] + m + rest);
    lemma_other_open(m, rest, n);
    assert forall|i: int| 1 <= i < e.len() implies #[trigger] silent(s, n, i) by {
        assert(s[i] == e[i]);
        lemma_no_tag(s, n, i);
    }
    if m == n {
        lemma_skip_places(s, n, 1, e.len() as int);
        assert(next_open(s, n, 0) == Some(0int));
        lemma_occurrence(s, close_pattern(n), 0);
        lemma_patterns(n);
        assert(next_occurrence(s, close_pattern(n), 0) == next_occurrence(
            s,
            close_pattern(n),
            e.len() as int,
        ));
        lemma_first_index(s, '>', 0, e.len() - 1);
        assert(s[e.len() - 2] == e[e.len() - 2]);
    } else {
        assert(silent(s, n, 0));
        lemma_skip(s, n, e.len() as int, d);
    }
    lemma_shift_close(e, r, n, 0, d);
}

/// At the opening tag of an element with content.
proof fn lemma_past_opening(m: Seq<char>, a: Seq<char>, r: Seq<char>, n: Seq<char>, d: nat)
    requires
        is_name(m),
        is_attributes(a),
        is_name(n),
        r.len() > 0,
        m == n ==> next_occurrence(r, close_pattern(n), 0) is Some,
    ensures
        close_end(opening_text(m, a) + r, n, 0, d) == further(
            close_end(
                r,
                n,
                0,
                if m == n {
                    d + 1
                } else {
                    d
                },
            ),
            opening_text(m, a).len() as int,
        ),
{
    let o = opening_text(m, a);
    let s = o + r;
    lemma_tag_shape(m, a);
    let rest = a + seq!['>'] + r;
    assert(s =~= seq!['<'] + m + rest);
    lemma_other_open(m, rest, n);
    assert forall|i: int| 1 <= i < o.len() implies #[trigger] silent(s, n, i) by {
        assert(s[i] == o[i]);
        lemma_no_tag(s, n, i);
    }
    if m == n {
        lemma_skip_places(s, n, 1, o.len() as int);
        assert(next_open(s, n, 0) == Some(0int));
        lemma_shift_occurrence(o, r, close_pattern(n), 0);
        lemma_occurrence(s, close_pattern(n), 0);
        lemma_patterns(n);
        assert(next_occurrence(s, close_pattern(n), 0) == next_occurrence(
            s,
            close_pattern(n),
            o.len() as int,
        ));
        lemma_first_index(s, '>', 0, o.len() - 1);
        assert(s[o.len() - 2] == o[o.len() - 2]);
        lemma_shift_close(o, r, n, 0, d + 1);
    } else {
        assert(silent(s, n, 0));
        lemma_skip(s, n, o.len() as int, d);
        lemma_shift_close(o, r, n, 0, d);
    }
}

/// At the closing tag.
proof fn lemma_past_closing(m: Seq<char>, r: Seq<char>, n: Seq<char>, d: nat)
    requires
        is_name(m),
        is_name(n),
    ensures
        m == n && d <= 1 ==> close_end(closing_text(m) + r, n, 0, d) == Some(
            closing_text(m).len() as int,
        ),
        m == n && d > 1 ==> close_end(closing_text(m) + r, n, 0, d) == further(
            close_end(r, n, 0, (d - 1) as nat),
            closing_text(m).len() as int,
        ),
        m != n && r.len() > 0 ==> close_end(closing_text(m) + r, n, 0, d) == further(
            close_end(r, n, 0, d),
            closing_text(m).len() as int,
        ),
{
    let c = closing_text(m);
    let s = c + r;
    lemma_other_close(m, r, n);
    lemma_patterns(n);
    assert forall|i: int| 1 <= i < c.len() implies #[trigger] silent(s, n, i) by {
        assert(s[i] == c[i]);
        if 2 <= i < 2 + m.len() {
            assert(name_sign(m[i - 2]));
        }
        lemma_no_tag(s, n, i);
    }
    if m == n {
        lemma_open_place(s, n, 0);
        assert(next_occurrence(s, close_pattern(n), 0) == Some(0int));
        if d > 1 {
            lemma_shift_close(c, r, n, 0, (d - 1) as nat);
        }
    } else if r.len() > 0 {
        assert(silent(s, n, 0));
        lemma_skip(s, n, c.len() as int, d);
        lemma_shift_close(c, r, n, 0, d);
    }
}

/// Past one piece of content, whatever is nested in it.
proof fn lemma_past(x: XmlV, r: Seq<char>, n: Seq<char>, d: nat)
    requires
        is_xml(x),
        is_name(n),
        r.len() > 0,
        d > 0,
    ensures
        close_end(xml_text(x) + r, n, 0, d) == further(
            close_end(r, n, 0, d),
            xml_text(x).len() as int,
        ),
    decreases x,
{
    match x {
        XmlV::Text(t) => {
            lemma_past_text(t, r, n, d);
        },
        XmlV::Single { name, attributes } => {
            lemma_past_single(name, attributes, r, n, d);
        },
        XmlV::Nested { name, attributes, content } => {
            let o = opening_text(name, attributes);
            let b = xml_texts(content);
            let c = closing_text(name);
            assert(xml_text(x) + r =~= o + (b + (c + r)));
            let inner: nat = if name == n {
                d + 1
            } else {
                d
            };
            if name == n {
                lemma_patterns(n);
                lemma_other_close(name, r, n);
                lemma_shift_occurs(b, c + r, close_pattern(n), 0);
                lemma_some_occurrence(b + (c + r), close_pattern(n), 0, b.len() as int);
            }
            lemma_past_opening(name, attributes, b + (c + r), n, d);
            lemma_past_all(content, c + r, n, inner);
            lemma_past_closing(name, r, n, inner);
        },
    }
}

proof fn lemma_past_all(xs: Seq<XmlV>, r: Seq<char>, n: Seq<char>, d: nat)
    requires
        all_xml(xs),
        is_name(n),
        r.len() > 0,
        d > 0,
    ensures
        close_end(xml_texts(xs) + r, n, 0, d) == further(
            close_end(r, n, 0, d),
            xml_texts(xs).len() as int,
        ),
    decreases xs,
{
    if xs.len() == 0 {
        assert(xml_texts(xs) + r =~= r);
    } else {
        let rest = xml_texts(xs.skip(1)) + r;
        lemma_past(xs[0], rest, n, d);
        lemma_past_all(xs.skip(1), r, n, d);
        assert(xml_texts(xs) + r =~= xml_text(xs[0]) + rest);
    }
}

proof fn lemma_some_occurrence(s: Seq<char>, p: Seq<char>, i: int, e: int)
    requires
        0 <= i <= e,
        p.len() > 0,
        occurs_at(s, p, e),
    ensures
        next_occurrence(s, p, i) is Some,
    decreases e - i,
{
    if i < e {
        lemma_some_occurrence(s, p, i + 1, e);
    }
}

proof fn lemma_name(n: Seq<char>, rest: Seq<char>, k: int)
    requires
        is_name(n),
        rest.len() > 0,
        !name_sign(rest[0]),
        0 <= k <= n.len(),
    ensures
        name_end(seq!['<'] + n + rest, 1 + k) == 1 + n.len(),
    decreases n.len() - k,
{
    let s = seq!['<'] + n + rest;
    if k < n.len() {
        assert(name_sign(n[k]));
        assert(s[1 + k] == n[k]);
        lemma_name(n, rest, k + 1);
    } else {
        assert(s[1 + k] == rest[0]);
    }
}

proof fn lemma_no_markup(s: Seq<char>)
    requires
        s.len() > 1,
        s[1] != '!',
        s[1] != '?',
    ensures
        !occurs_at(s, "<!--"@, 0),
        !occurs_at(s, "<!"@, 0),
        !occurs_at(s, "<?"@, 0),
{
    reveal_strlit("<!--");
    reveal_strlit("<!");
    reveal_strlit("<?");
    if occurs_at(s, "<!--"@, 0) {
        assert(s.subrange(0, 4)[1] == '!');
    }
    if occurs_at(s, "<!"@, 0) {
        assert(s.subrange(0, 2)[1] == '!');
    }
    if occurs_at(s, "<?"@, 0) {
        assert(s.subrange(0, 2)[1] == '?');
    }
}

/// An element that closes itself is found under its name, with its whole text, and
/// then what follows it.
pub proof fn single_elements_are_found(n: Seq<char>, a: Seq<char>, b: Seq<char>)
    requires
        is_name(n),
        is_attributes(a),
    ensures
        elements_from(single_text(n, a) + b, 0) == seq![(n, single_text(n, a))] + elements_from(
            b,
            0,
        ),
{
    let e = single_text(n, a);
    let s = e + b;
    let rest = a + seq!['/', '>'] + b;
    assert(s =~= seq!['<'] + n + rest);
    lemma_tag_shape(n, a);
    lemma_name(n, rest, 0);
    assert(name_sign(n[0]));
    assert(s[1] == n[0]);
    lemma_no_markup(s);
    lemma_first_index(s, '>', 0, e.len() - 1);
    assert(s[e.len() - 2] == e[e.len() - 2]);
    assert(s.subrange(1, 1 + n.len() as int) =~= n);
    assert(s.subrange(0, e.len() as int) =~= e);
    elements_do_not_depend_on_what_stands_before(e, b, 0);
}

/// An element with content is found under its name, up to the closing tag that is
/// its own, whatever is nested in it, and then what follows it. Nothing of its
/// content is found by itself.
pub proof fn nested_elements_are_found(n: Seq<char>, a: Seq<char>, content: Seq<XmlV>, b: Seq<char>)
    requires
        is_name(n),
        is_attributes(a),
        all_xml(content),
    ensures
        ({
            let text = opening_text(n, a) + xml_texts(content) + closing_text(n);
            elements_from(text + b, 0) == seq![(n, text)] + elements_from(b, 0)
        }),
{
    let o = opening_text(n, a);
    let c = closing_text(n);
    let body = xml_texts(content);
    let text = o + body + c;
    let s = text + b;
    let rest = a + seq!['>'] + (body + c + b);
    assert(s =~= seq!['<'] + n + rest);
    lemma_tag_shape(n, a);
    lemma_name(n, rest, 0);
    assert(name_sign(n[0]));
    assert(s[1] == n[0]);
    lemma_no_markup(s);
    assert forall|k: int| 0 <= k < o.len() implies s[k] == #[trigger] o[k] by {}
    lemma_first_index(s, '>', 0, o.len() - 1);
    assert(s[o.len() - 2] == o[o.len() - 2]);
    assert(s.subrange(1, 1 + n.len() as int) =~= n);
    assert(s =~= o + (body + (c + b)));
    lemma_shift_close(o, body + (c + b), n, 0, 1);
    lemma_past_all(content, c + b, n, 1);
    lemma_past_closing(n, b, n, 1);
    assert(s.subrange(0, text.len() as int) =~= text);
    elements_do_not_depend_on_what_stands_before(text, b, 0);
}

// ---- the bindings element --------------------------------------------------

/// The signs of a tag: one `<`, at its start.
spec fn starts_once(c: Seq<char>) -> bool {
    c.len() > 0 && c[0] == '<' && forall|k: int| 1 <= k < c.len() ==> #[trigger] c[k] != '<'
}

proof fn lemma_tags_of_bindings()
    ensures
        starts_once("<bindings"@),
        starts_once("</bindings>"@),
        !"<bindings"@.contains('>'),
        ">"@ == seq!['>'],
{
    reveal_strlit("<bindings");
    reveal_strlit("</bindings>");
    reveal_strlit(">");
    assert(">"@ =~= seq!['>']);
}

/// A tag behind which nothing opens is the last one.
proof fn lemma_last_tag(a: Seq<char>, c: Seq<char>, b: Seq<char>)
    requires
        starts_once(c),
        !b.contains('<'),
    ensures
        last_occurrence(a + c + b, c, (a + c + b).len() as int) == Some(a.len() as int),
{
    let s = a + c + b;
    let at = a.len() as int;
    let n = c.len() as int;
    assert(s.subrange(at, at + n) =~= c);
    assert forall|k: int| at < k <= s.len() implies !occurs_at(s, c, k) by {
        if occurs_at(s, c, k) {
            assert(s.subrange(k, k + n)[0] == s[k]);
            if k < at + n {
                assert(s[k] == c[k - at]);
            } else {
                assert(s[k] == b[k - at - n]);
                assert(b.contains(b[k - at - n]));
            }
        }
    }
    lemma_last(s, c, s.len() as int, at);
}

/// A tag before which nothing opens is the first one.
proof fn lemma_first_tag(p: Seq<char>, o: Seq<char>, r: Seq<char>)
    requires
        starts_once(o),
        !p.contains('<'),
    ensures
        next_occurrence(p + o + r, o, 0) == Some(p.len() as int),
{
    let s = p + o + r;
    let n = p.len() as int;
    assert forall|k: int| 0 <= k < n implies !occurs_at(s, o, k) by {
        assert(p.contains(p[k]));
        if occurs_at(s, o, k) {
            assert(s.subrange(k, k + o.len())[0] == s[k]);
        }
    }
    assert(s.subrange(n, n + o.len()) =~= o);
    lemma_first_occurrence(s, o, 0, n);
}

/// What stands inside the bindings element is what stands between the first
/// `<bindings ...>` and the last `</bindings>`.
pub proof fn the_inside_is_what_stands_between(p: Seq<char>, a: Seq<char>, x: Seq<char>, q: Seq<char>)
    requires
        !p.contains('<'),
        !a.contains('>'),
        x.len() > 0,
        !q.contains('<'),
    ensures
        inner_of(p + "<bindings"@ + a + ">"@ + x + "</bindings>"@ + q) == Some(x),
{
    lemma_tags_of_bindings();
    let o = "<bindings"@;
    let c = "</bindings>"@;
    let s = p + o + a + ">"@ + x + c + q;
    let n = p.len() as int;
    lemma_first_tag(p, o, a + ">"@ + x + c + q);
    assert(p + o + (a + ">"@ + x + c + q) =~= s);
    lemma_last_tag(p + o + a + ">"@ + x, c, q);
    let gt = n + o.len() + a.len();
    assert(s[gt] == '>');
    assert forall|k: int| n <= k < gt implies s[k] != '>' by {
        if k < n + o.len() {
            assert(s[k] == o[k - n]);
            assert(o.contains(o[k - n]));
        } else {
            assert(s[k] == a[k - n - o.len()]);
            assert(a.contains(a[k - n - o.len()]));
        }
    }
    lemma_first_index(s, '>', n, gt);
    assert(s.subrange(gt + 1, gt + 1 + x.len()) =~= x);
}

proof fn lemma_last(s: Seq<char>, p: Seq<char>, i: int, e: int)
    requires
        0 <= e <= i,
        occurs_at(s, p, e),
        forall|k: int| e < k <= i ==> !occurs_at(s, p, k),
    ensures
        last_occurrence(s, p, i) == Some(e),
    decreases i,
{
    if e < i {
        lemma_last(s, p, i - 1, e);
    }
}

/// Additions go right before the last closing tag, and everything else stays where
/// it was.
pub proof fn additions_go_before_the_closing_tag(a: Seq<char>, b: Seq<char>, additions: Seq<char>)
    requires
        !b.contains('<'),
    ensures
        merged(a + "</bindings>"@ + b, additions) == Ok::<Seq<char>, Seq<char>>(
            a + additions + "</bindings>"@ + b,
        ),
{
    lemma_tags_of_bindings();
    let c = "</bindings>"@;
    let s = a + c + b;
    let at = a.len() as int;
    lemma_last_tag(a, c, b);
    assert(s.take(at) + additions + s.skip(at) =~= a + additions + c + b);
}

// ---- where elements go -----------------------------------------------------

/// Which element goes to which file: mappings, groups of buttons, paired axes and
/// presets to the one; blends, contexts, holds, multiple taps, repeats, toggles and
/// accepted events to the other; any other to neither.
pub proof fn each_tag_goes_to_its_file(tag: Seq<char>)
    ensures
        tags_for(Target::UserMappings).contains(tag) <==> (tag == "mapping"@ || tag
            == "buttonGroup"@ || tag == "pairedAxes"@ || tag == "preset"@),
        tags_for(Target::Contexts).contains(tag) <==> (tag == "blend"@ || tag == "context"@ || tag
            == "hold"@ || tag == "multitap"@ || tag == "repeat"@ || tag == "toggle"@ || tag
            == "acceptedEvents"@),
        !(tags_for(Target::UserMappings).contains(tag) && tags_for(Target::Contexts).contains(tag)),
        routable(tag) <==> tags_for(Target::UserMappings).contains(tag) || tags_for(
            Target::Contexts,
        ).contains(tag),
{
    let u = tags_for(Target::UserMappings);
    let c = tags_for(Target::Contexts);
    assert(u[0] == "mapping"@ && u[1] == "buttonGroup"@ && u[2] == "pairedAxes"@ && u[3]
        == "preset"@);
    assert(c[0] == "blend"@ && c[1] == "context"@ && c[2] == "hold"@ && c[3] == "multitap"@ && c[4]
        == "repeat"@ && c[5] == "toggle"@ && c[6] == "acceptedEvents"@);
    reveal_strlit("mapping");
    reveal_strlit("buttonGroup");
    reveal_strlit("pairedAxes");
    reveal_strlit("preset");
    reveal_strlit("blend");
    reveal_strlit("context");
    reveal_strlit("hold");
    reveal_strlit("multitap");
    reveal_strlit("repeat");
    reveal_strlit("toggle");
    reveal_strlit("acceptedEvents");
    assert("mapping"@.len() == 7 && "mapping"@[0] == 'm');
    assert("buttonGroup"@.len() == 11 && "buttonGroup"@[0] == 'b');
    assert("pairedAxes"@.len() == 10);
    assert("preset"@.len() == 6 && "preset"@[0] == 'p');
    assert("blend"@.len() == 5);
    assert("context"@.len() == 7 && "context"@[0] == 'c');
    assert("hold"@.len() == 4);
    assert("multitap"@.len() == 8);
    assert("repeat"@.len() == 6 && "repeat"@[0] == 'r');
    assert("toggle"@.len() == 6 && "toggle"@[0] == 't');
    assert("acceptedEvents"@.len() == 14);
}

/// An element is added under its own tag and no other, behind those before it, on a
/// line of its own and without the blanks around it.
pub proof fn elements_are_added_under_their_tag(
    es: Seq<(Seq<char>, Seq<char>)>,
    e: (Seq<char>, Seq<char>),
    tag: Seq<char>,
)
    ensures
        additions_of(es.push(e), tag) == if e.0 == tag {
            additions_of(es, tag) + seq!['\n', '\t'] + trimmed(e.1)
        } else {
            additions_of(es, tag)
        },
        count_of(es.push(e), tag) == if e.0 == tag {
            count_of(es, tag) + 1
        } else {
            count_of(es, tag)
        },
        additions_of(Seq::empty(), tag) == Seq::<char>::empty(),
        count_of(Seq::empty(), tag) == 0,
{
    assert(es.push(e).drop_last() =~= es);
    reveal_strlit("\n\t");
    assert("\n\t"@ =~= seq!['\n', '\t']);
}

proof fn lemma_tags_once(tags: Seq<Seq<char>>, es: Seq<(Seq<char>, Seq<char>)>, e: (Seq<char>, Seq<char>), n: nat)
    requires
        n <= tags.len(),
        tags.no_duplicates(),
    ensures
        count_for(es.push(e), tags, n) == count_for(es, tags, n) + if tags.take(n as int).contains(e.0) {
            1nat
        } else {
            0
        },
    decreases n,
{
    let t = tags.take(n as int);
    if n > 0 {
        let f = tags.take(n - 1);
        lemma_tags_once(tags, es, e, (n - 1) as nat);
        elements_are_added_under_their_tag(es, e, tags[n - 1]);
        if f.contains(e.0) {
            let k = choose|k: int| 0 <= k < f.len() && f[k] == e.0;
            assert(t[k] == e.0);
            assert(tags[k] != tags[n - 1]);
        }
        if t.contains(e.0) {
            let k = choose|k: int| 0 <= k < t.len() && t[k] == e.0;
            if k < n - 1 {
                assert(f[k] == e.0);
            }
        }
        if e.0 == tags[n - 1] {
            assert(t[n - 1] == e.0);
        }
    }
}

/// Every element is counted once, in the file that it goes to: what the two files
/// get together is every element that goes anywhere.
pub proof fn every_element_goes_somewhere_once(
    es: Seq<(Seq<char>, Seq<char>)>,
    e: (Seq<char>, Seq<char>),
    t: Target,
)
    ensures
        count_for(es.push(e), tags_for(t), tags_for(t).len()) == count_for(
            es,
            tags_for(t),
            tags_for(t).len(),
        ) + if tags_for(t).contains(e.0) {
            1nat
        } else {
            0
        },
{
    let tags = tags_for(t);
    lemma_distinct_tags(t);
    lemma_tags_once(tags, es, e, tags.len());
    assert(tags.take(tags.len() as int) =~= tags);
}

proof fn lemma_distinct_tags(t: Target)
    ensures
        tags_for(t).no_duplicates(),
{
    reveal_strlit("mapping");
    reveal_strlit("buttonGroup");
    reveal_strlit("pairedAxes");
    reveal_strlit("preset");
    reveal_strlit("blend");
    reveal_strlit("context");
    reveal_strlit("hold");
    reveal_strlit("multitap");
    reveal_strlit("repeat");
    reveal_strlit("toggle");
    reveal_strlit("acceptedEvents");
    assert("mapping"@.len() == 7);
    assert("buttonGroup"@.len() == 11);
    assert("pairedAxes"@.len() == 10);
    assert("preset"@.len() == 6);
    assert("blend"@.len() == 5);
    assert("context"@.len() == 7);
    assert("hold"@.len() == 4);
    assert("multitap"@.len() == 8);
    assert("repeat"@.len() == 6 && "repeat"@[0] == 'r');
    assert("toggle"@.len() == 6 && "toggle"@[0] == 't');
    assert("acceptedEvents"@.len() == 14);
}

/// The unknown tags are those of the elements that go nowhere, each once.
pub proof fn unknown_tags_are_those_that_go_nowhere(es: Seq<(Seq<char>, Seq<char>)>)
    ensures
        forall|tag: Seq<char>| #[trigger]
            unknown_of(es).contains(tag) <==> !routable(tag) && exists|k: int|
                0 <= k < es.len() && (#[trigger] es[k]).0 == tag,
        unknown_of(es).no_duplicates(),
        forall|n: int| 0 <= n <= es.len() ==> unknown_of(es.take(n)).is_prefix_of(unknown_of(es)),
    decreases es.len(),
{
    if es.len() > 0 {
        let front = es.drop_last();
        unknown_tags_are_those_that_go_nowhere(front);
        let before = unknown_of(front);
        let all = unknown_of(es);
        assert forall|tag: Seq<char>| #[trigger] all.contains(tag) <==> !routable(tag) && exists|
            k: int,
        | 0 <= k < es.len() && (#[trigger] es[k]).0 == tag by {
            if all.contains(tag) {
                let k = choose|k: int| 0 <= k < all.len() && all[k] == tag;
                if k < before.len() {
                    assert(before[k] == tag);
                    assert(before.contains(tag));
                    let j = choose|j: int| 0 <= j < front.len() && (#[trigger] front[j]).0 == tag;
                    assert(es[j].0 == tag);
                } else {
                    assert(es[es.len() - 1].0 == tag);
                }
            }
            if !routable(tag) && exists|k: int| 0 <= k < es.len() && (#[trigger] es[k]).0 == tag {
                let k = choose|k: int| 0 <= k < es.len() && (#[trigger] es[k]).0 == tag;
                if k < front.len() {
                    assert(front[k].0 == tag);
                    assert(before.contains(tag));
                }
                if before.contains(tag) {
                    let j = choose|j: int| 0 <= j < before.len() && before[j] == tag;
                    assert(all[j] == tag);
                } else {
                    assert(all.last() == tag);
                }
            }
        }
        assert forall|n: int| 0 <= n <= es.len() implies unknown_of(es.take(n)).is_prefix_of(
            unknown_of(es),
        ) by {
            if n < es.len() {
                assert(front.take(n) =~= es.take(n));
                assert(unknown_of(front.take(n)).is_prefix_of(before));
                assert(before.is_prefix_of(all));
            } else {
                assert(es.take(n) =~= es);
            }
        }
    } else {
        assert forall|n: int| 0 <= n <= es.len() implies unknown_of(es.take(n)).is_prefix_of(
            unknown_of(es),
        ) by {
            assert(es.take(n) =~= es);
        }
    }
}

/// A file that was merged carries the mark of a merge, and is seen as merged.
pub proof fn merged_files_carry_the_mark(f: ConfigV, es: Seq<(Seq<char>, Seq<char>)>, t: Target)
    ensures
        match merged_file(f, es, t) {
            Ok(g) => next_occurrence(g.base, "<!-- input-loader:"@, 0) is Some,
            Err(_) => true,
        },
{
    match merged_file(f, es, t) {
        Ok(g) => {
            let base = f.pristine();
            let add = block_for(es, t);
            let pos = bindings_close(base)->0;
            lemma_close_place(base);
            reveal_strlit("<!-- input-loader:");
            reveal_strlit("\n\t<!-- input-loader: ");
            let m = "<!-- input-loader:"@;
            let head = "\n\t<!-- input-loader: "@;
            assert(head.subrange(2, 2 + m.len() as int) =~= m);
            assert(add.subrange(2, 2 + m.len() as int) =~= m);
            assert(g.base.subrange(pos + 2, pos + 2 + m.len()) =~= m);
            lemma_some_occurrence(g.base, m, 0, pos + 2);
        },
        Err(_) => {},
    }
}

proof fn lemma_close_place(s: Seq<char>)
    ensures
        bindings_close(s) is Some ==> 0 <= bindings_close(s)->0 <= s.len(),
{
    lemma_last_place(s, "</bindings>"@, s.len() as int);
}

proof fn lemma_last_place(s: Seq<char>, p: Seq<char>, i: int)
    ensures
        match last_occurrence(s, p, i) {
            Some(k) => 0 <= k <= i,
            None => true,
        },
    decreases i + 1,
{
    if i >= 0 && !occurs_at(s, p, i) {
        lemma_last_place(s, p, i - 1);
    }
}

/// The files of bindings are exactly those with the extension, in their order.
pub proof fn files_of_bindings_are_kept(paths: Seq<Seq<char>>, path: Seq<char>)
    ensures
        bindings_files(paths.push(path)) == if is_bindings_file(path) {
            bindings_files(paths).push(path)
        } else {
            bindings_files(paths)
        },
        bindings_files(Seq::empty()) == Seq::<Seq<char>>::empty(),
{
    assert(paths.push(path).drop_last() =~= paths);
}

} // verus!
