//! Sorting: the order of texts, and a stable sort that yields positions.
use vstd::prelude::*;

use crate::text::chars_of;

verus! {

// ---- the order of texts ----------------------------------------------------

/// Does `a` come before `b`, character by character? A prefix comes first.
pub open spec fn text_less(a: Seq<char>, b: Seq<char>) -> bool
    decreases a.len(),
{
    if b.len() == 0 {
        false
    } else if a.len() == 0 {
        true
    } else if a[0] != b[0] {
        a[0] < b[0]
    } else {
        text_less(a.skip(1), b.skip(1))
    }
}

proof fn lemma_text_irreflexive(a: Seq<char>)
    ensures
        !text_less(a, a),
    decreases a.len(),
{
    if a.len() > 0 {
        lemma_text_irreflexive(a.skip(1));
    }
}

proof fn lemma_text_transitive(a: Seq<char>, b: Seq<char>, c: Seq<char>)
    requires
        text_less(a, b),
        text_less(b, c),
    ensures
        text_less(a, c),
    decreases a.len(),
{
    if a.len() > 0 && a[0] == b[0] && b[0] == c[0] {
        lemma_text_transitive(a.skip(1), b.skip(1), c.skip(1));
    }
}

proof fn lemma_text_total(a: Seq<char>, b: Seq<char>)
    requires
        !text_less(a, b),
        !text_less(b, a),
    ensures
        a == b,
    decreases a.len(),
{
    if a.len() > 0 && b.len() > 0 {
        lemma_text_total(a.skip(1), b.skip(1));
        assert(a =~= seq![a[0]] + a.skip(1));
        assert(b =~= seq![b[0]] + b.skip(1));
    } else {
        assert(a =~= b);
    }
}

/// The order of texts is strict, transitive and total.
pub proof fn lemma_text_order(a: Seq<char>, b: Seq<char>, c: Seq<char>)
    ensures
        !text_less(a, a),
        text_less(a, b) && text_less(b, c) ==> text_less(a, c),
        !text_less(a, b) && !text_less(b, a) ==> a == b,
{
    lemma_text_irreflexive(a);
    if text_less(a, b) && text_less(b, c) {
        lemma_text_transitive(a, b, c);
    }
    if !text_less(a, b) && !text_less(b, a) {
        lemma_text_total(a, b);
    }
}

/// Does `a` come before `b`?
pub fn text_before(a: &str, b: &str) -> (r: bool)
    ensures
        r == text_less(a@, b@),
{
    let x = chars_of(a);
    let y = chars_of(b);
    let mut i: usize = 0;
    proof {
        assert(x@.skip(0) =~= x@);
        assert(y@.skip(0) =~= y@);
    }
    while i < x.len() && i < y.len()
        invariant
            i <= x@.len(),
            i <= y@.len(),
            x@ == a@,
            y@ == b@,
            text_less(x@, y@) == text_less(x@.skip(i as int), y@.skip(i as int)),
        decreases x@.len() - i,
    {
        let c: char = x[i];
        let d: char = y[i];
        proof {
            assert(x@.skip(i as int)[0] == c);
            assert(y@.skip(i as int)[0] == d);
        }
        if c != d {
            return c < d;
        }
        proof {
            assert(x@.skip(i as int).skip(1) =~= x@.skip(i + 1));
            assert(y@.skip(i as int).skip(1) =~= y@.skip(i + 1));
        }
        i += 1;
    }
    i < y.len()
}

// ---- sorting ---------------------------------------------------------------

/// Something that has a place in an order.
pub trait Rank: Sized {
    /// Does this come before the other?
    spec fn precedes(&self, other: &Self) -> bool;

    proof fn order_laws(a: &Self, b: &Self, c: &Self)
        ensures
            !a.precedes(a),
            a.precedes(b) && b.precedes(c) ==> a.precedes(c),
            a.precedes(b) ==> a.precedes(c) || c.precedes(b),
    ;

    fn is_before(&self, other: &Self) -> (r: bool)
        ensures
            r == self.precedes(other),
    ;
}

/// The stable order of positions: by the items, and by position where neither
/// item comes before the other.
pub open spec fn position_less<T: Rank>(items: Seq<T>, a: int, b: int) -> bool {
    items[a].precedes(&items[b]) || (!items[b].precedes(&items[a]) && a < b)
}

/// Are the positions in their stable order?
pub open spec fn in_order<T: Rank>(items: Seq<T>, p: Seq<usize>) -> bool {
    forall|i: int, j: int|
        0 <= i < j < p.len() ==> position_less(items, #[trigger] p[i] as int, #[trigger] p[j] as int)
}

/// Are these exactly the positions from `lo` to `hi`?
pub open spec fn covers(p: Seq<usize>, lo: int, hi: int) -> bool {
    &&& p.len() == hi - lo
    &&& forall|i: int| 0 <= i < p.len() ==> lo <= #[trigger] p[i] < hi
    &&& forall|k: usize| lo <= k < hi ==> #[trigger] p.contains(k)
}

/// Is `p` the stable sort of the items?
pub open spec fn sorts<T: Rank>(items: Seq<T>, p: Seq<usize>) -> bool {
    covers(p, 0, items.len() as int) && in_order(items, p)
}

proof fn lemma_position_trans<T: Rank>(items: Seq<T>, a: int, b: int, c: int)
    requires
        position_less(items, a, b),
        position_less(items, b, c),
    ensures
        position_less(items, a, c),
{
    T::order_laws(&items[a], &items[b], &items[c]);
    T::order_laws(&items[b], &items[c], &items[a]);
    T::order_laws(&items[c], &items[a], &items[b]);
    T::order_laws(&items[a], &items[c], &items[b]);
    T::order_laws(&items[c], &items[b], &items[a]);
    T::order_laws(&items[b], &items[a], &items[c]);
}

proof fn lemma_position_total<T: Rank>(items: Seq<T>, a: int, b: int)
    requires
        a != b,
    ensures
        position_less(items, a, b) || position_less(items, b, a),
{
    T::order_laws(&items[a], &items[b], &items[a]);
}

/// Merges two sorted halves.
fn merge<T: Rank>(items: &Vec<T>, a: &Vec<usize>, b: &Vec<usize>, Ghost(lo): Ghost<int>, Ghost(
    mid,
): Ghost<int>, Ghost(hi): Ghost<int>) -> (r: Vec<usize>)
    requires
        0 <= lo <= mid <= hi <= items@.len(),
        covers(a@, lo, mid),
        covers(b@, mid, hi),
        in_order(items@, a@),
        in_order(items@, b@),
    ensures
        covers(r@, lo, hi),
        in_order(items@, r@),
{
    let mut out: Vec<usize> = Vec::new();
    let mut i: usize = 0;
    let mut j: usize = 0;
    while i < a.len() || j < b.len()
        invariant
            0 <= lo <= mid <= hi <= items@.len(),
            covers(a@, lo, mid),
            covers(b@, mid, hi),
            in_order(items@, a@),
            in_order(items@, b@),
            i <= a@.len(),
            j <= b@.len(),
            out@.len() == i + j,
            in_order(items@, out@),
            forall|k: int| 0 <= k < out@.len() ==> lo <= #[trigger] out@[k] < hi,
            forall|k: int| 0 <= k < i ==> out@.contains(#[trigger] a@[k]),
            forall|k: int| 0 <= k < j ==> out@.contains(#[trigger] b@[k]),
            forall|k: int, m: int|
                0 <= k < out@.len() && i <= m < a@.len() ==> position_less(
                    items@,
                    #[trigger] out@[k] as int,
                    #[trigger] a@[m] as int,
                ),
            forall|k: int, m: int|
                0 <= k < out@.len() && j <= m < b@.len() ==> position_less(
                    items@,
                    #[trigger] out@[k] as int,
                    #[trigger] b@[m] as int,
                ),
        decreases a@.len() - i + b@.len() - j,
    {
        let ghost before = out@;
        let take_a: bool = if i >= a.len() {
            false
        } else if j >= b.len() {
            true
        } else {
            !items[b[j]].is_before(&items[a[i]])
        };
        if take_a {
            proof {
                if j < b@.len() {
                    lemma_position_total(items@, a@[i as int] as int, b@[j as int] as int);
                    assert(position_less(items@, a@[i as int] as int, b@[j as int] as int)) by {
                        assert(!items@[b@[j as int] as int].precedes(&items@[a@[i as int] as int]));
                    }
                    assert forall|m: int| j <= m < b@.len() implies position_less(
                        items@,
                        a@[i as int] as int,
                        #[trigger] b@[m] as int,
                    ) by {
                        if m > j {
                            lemma_position_trans(
                                items@,
                                a@[i as int] as int,
                                b@[j as int] as int,
                                b@[m] as int,
                            );
                        }
                    }
                }
            }
            out.push(a[i]);
            i += 1;
        } else {
            proof {
                if i < a@.len() {
                    assert(position_less(items@, b@[j as int] as int, a@[i as int] as int));
                    assert forall|m: int| i <= m < a@.len() implies position_less(
                        items@,
                        b@[j as int] as int,
                        #[trigger] a@[m] as int,
                    ) by {
                        if m > i {
                            lemma_position_trans(
                                items@,
                                b@[j as int] as int,
                                a@[i as int] as int,
                                a@[m] as int,
                            );
                        }
                    }
                }
            }
            out.push(b[j]);
            j += 1;
        }
        proof {
            assert(out@.last() == out@[out@.len() - 1]);
            assert forall|k: int| 0 <= k < i implies out@.contains(#[trigger] a@[k]) by {
                if before.contains(a@[k]) {
                    let m = choose|m: int| 0 <= m < before.len() && before[m] == a@[k];
                    assert(out@[m] == a@[k]);
                } else {
                    assert(out@[out@.len() - 1] == a@[k]);
                }
            }
            assert forall|k: int| 0 <= k < j implies out@.contains(#[trigger] b@[k]) by {
                if before.contains(b@[k]) {
                    let m = choose|m: int| 0 <= m < before.len() && before[m] == b@[k];
                    assert(out@[m] == b@[k]);
                } else {
                    assert(out@[out@.len() - 1] == b@[k]);
                }
            }
        }
    }
    proof {
        assert forall|k: usize| lo <= k < hi implies #[trigger] out@.contains(k) by {
            if k < mid {
                assert(a@.contains(k));
                let m = choose|m: int| 0 <= m < a@.len() && a@[m] == k;
                assert(out@.contains(a@[m]));
            } else {
                assert(b@.contains(k));
                let m = choose|m: int| 0 <= m < b@.len() && b@[m] == k;
                assert(out@.contains(b@[m]));
            }
        }
    }
    out
}

fn sort_range<T: Rank>(items: &Vec<T>, lo: usize, hi: usize) -> (r: Vec<usize>)
    requires
        lo <= hi <= items@.len(),
    ensures
        covers(r@, lo as int, hi as int),
        in_order(items@, r@),
    decreases hi - lo,
{
    let mut out: Vec<usize> = Vec::new();
    if hi == lo {
        return out;
    }
    if hi - lo == 1 {
        out.push(lo);
        proof {
            assert(out@[0] == lo);
        }
        return out;
    }
    let mid: usize = lo + (hi - lo) / 2;
    let a = sort_range(items, lo, mid);
    let b = sort_range(items, mid, hi);
    merge(items, &a, &b, Ghost(lo as int), Ghost(mid as int), Ghost(hi as int))
}

/// The positions of the items in their stable order.
pub fn sorted_positions<T: Rank>(items: &Vec<T>) -> (r: Vec<usize>)
    ensures
        sorts(items@, r@),
{
    sort_range(items, 0, items.len())
}

/// A text in its order.
pub struct TextKey {
    pub text: String,
}

impl Rank for TextKey {
    open spec fn precedes(&self, other: &TextKey) -> bool {
        text_less(self.text@, other.text@)
    }

    proof fn order_laws(a: &TextKey, b: &TextKey, c: &TextKey) {
        lemma_text_order(a.text@, b.text@, c.text@);
        lemma_text_order(a.text@, c.text@, b.text@);
        lemma_text_order(c.text@, b.text@, a.text@);
    }

    fn is_before(&self, other: &TextKey) -> (r: bool) {
        text_before(self.text.as_str(), other.text.as_str())
    }
}

/// A text with a count: the greater count comes first, then the text.
pub struct TextTally {
    pub text: String,
    pub count: u64,
}

impl Rank for TextTally {
    open spec fn precedes(&self, other: &TextTally) -> bool {
        self.count > other.count || (self.count == other.count && text_less(
            self.text@,
            other.text@,
        ))
    }

    proof fn order_laws(a: &TextTally, b: &TextTally, c: &TextTally) {
        lemma_text_order(a.text@, b.text@, c.text@);
        lemma_text_order(a.text@, c.text@, b.text@);
        lemma_text_order(c.text@, b.text@, a.text@);
    }

    fn is_before(&self, other: &TextTally) -> (r: bool) {
        self.count > other.count || (self.count == other.count && text_before(
            self.text.as_str(),
            other.text.as_str(),
        ))
    }
}

/// A key with a count: the greater count comes first, then the lesser key.
pub struct KeyTally {
    pub key: u32,
    pub count: u64,
    pub example: Option<String>,
}

impl Rank for KeyTally {
    open spec fn precedes(&self, other: &KeyTally) -> bool {
        self.count > other.count || (self.count == other.count && self.key < other.key)
    }

    proof fn order_laws(a: &KeyTally, b: &KeyTally, c: &KeyTally) {
    }

    fn is_before(&self, other: &KeyTally) -> (r: bool) {
        self.count > other.count || (self.count == other.count && self.key < other.key)
    }
}

// ---- laws ------------------------------------------------------------------

/// There is only one stable sort.
pub proof fn sort_is_unique<T: Rank>(items: Seq<T>, p: Seq<usize>, q: Seq<usize>)
    requires
        sorts(items, p),
        sorts(items, q),
    ensures
        p == q,
{
    assert forall|i: int| 0 <= i < p.len() implies p[i] == q[i] by {
        lemma_same_prefix(items, p, q, i);
    }
    assert(p =~= q);
}

proof fn lemma_same_prefix<T: Rank>(items: Seq<T>, p: Seq<usize>, q: Seq<usize>, i: int)
    requires
        sorts(items, p),
        sorts(items, q),
        0 <= i < p.len(),
    ensures
        forall|k: int| 0 <= k <= i ==> p[k] == q[k],
    decreases i,
{
    if i > 0 {
        lemma_same_prefix(items, p, q, i - 1);
    }
    if p[i] != q[i] {
        assert(q.contains(p[i]));
        let m = choose|m: int| 0 <= m < q.len() && q[m] == p[i];
        assert(p.contains(q[i]));
        let n = choose|n: int| 0 <= n < p.len() && p[n] == q[i];
        T::order_laws(&items[p[i] as int], &items[q[i] as int], &items[p[i] as int]);
        if m < i {
            assert(p[m] == q[m]);
            assert(position_less(items, p[m] as int, p[i] as int));
            T::order_laws(&items[p[i] as int], &items[p[i] as int], &items[p[i] as int]);
        } else if n < i {
            assert(p[n] == q[n]);
            assert(position_less(items, q[n] as int, q[i] as int));
            T::order_laws(&items[q[i] as int], &items[q[i] as int], &items[q[i] as int]);
        } else {
            assert(position_less(items, q[i] as int, q[m] as int));
            assert(position_less(items, p[i] as int, p[n] as int));
            lemma_position_trans(items, p[i] as int, q[i] as int, p[i] as int);
            T::order_laws(&items[p[i] as int], &items[p[i] as int], &items[p[i] as int]);
        }
    }
}

} // verus!
