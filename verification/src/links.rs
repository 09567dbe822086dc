//! Redirects of resources, and the tables of items that mods add: both are kept
//! by the hash of a path.
use vstd::prelude::*;
use vstd::slice::slice_subrange;

use crate::hashes::{path_hash_of, resource_path_hash};
use crate::text::{chars_of, index_of, lines_of, next_index, slices_view, split_lines, string_of,
    starts_with_char, trim, trimmed};

verus! {

// ---- redirects -------------------------------------------------------------

/// The pairs whose source is another.
pub open spec fn without_source(list: Seq<(u64, u64)>, src: u64) -> Seq<(u64, u64)>
    decreases list.len(),
{
    if list.len() == 0 {
        Seq::empty()
    } else {
        let front = without_source(list.drop_last(), src);
        if list.last().0 == src {
            front
        } else {
            front.push(list.last())
        }
    }
}

/// The pairs with the source led to the target, and nowhere else.
pub open spec fn linked(list: Seq<(u64, u64)>, src: u64, tgt: u64) -> Seq<(u64, u64)> {
    without_source(list, src).push((src, tgt))
}

/// The target of the first pair for the path from `i` on.
pub open spec fn target_from(list: Seq<(u64, u64)>, path: u64, i: int) -> Option<u64>
    decreases list.len() - i,
{
    if i >= list.len() {
        None
    } else if list[i].0 == path {
        Some(list[i].1)
    } else {
        target_from(list, path, i + 1)
    }
}

/// Where a path leads: to its target where it has one, else to itself.
pub open spec fn led_to(list: Seq<(u64, u64)>, path: u64) -> u64 {
    match target_from(list, path, 0) {
        Some(t) => t,
        None => path,
    }
}

/// Has every source one pair?
pub open spec fn sources_distinct(list: Seq<(u64, u64)>) -> bool {
    forall|i: int, j: int|
        0 <= i < j < list.len() ==> (#[trigger] list[i]).0 != (#[trigger] list[j]).0
}

/// The redirects, how often one was followed, and the path that is watched for.
pub struct Links {
    pub pairs: Vec<(u64, u64)>,
    pub hits: u64,
    pub watched: u64,
    pub seen: bool,
}

/// The two paths of a line: what stands before and behind its first bar. Empty
/// lines and comments have none.
pub open spec fn line_pair(line: Seq<char>) -> Option<(Seq<char>, Seq<char>)> {
    let t = trimmed(line);
    let k = next_index(t, '|', 0);
    if t.len() == 0 || t[0] == '#' || k >= t.len() {
        None
    } else {
        Some((trimmed(t.take(k)), trimmed(t.skip(k + 1))))
    }
}

/// The pairs after the first `n` lines of a file.
pub open spec fn lines_linked(list: Seq<(u64, u64)>, lines: Seq<Seq<char>>, n: nat) -> Seq<
    (u64, u64),
>
    decreases n,
{
    if n == 0 {
        list
    } else {
        let before = lines_linked(list, lines, (n - 1) as nat);
        match line_pair(lines[n - 1]) {
            Some((s, t)) => linked(before, path_hash_of(s), path_hash_of(t)),
            None => before,
        }
    }
}

/// How many of the first `n` lines hold a pair.
pub open spec fn pairs_in(lines: Seq<Seq<char>>, n: nat) -> nat
    decreases n,
{
    if n == 0 {
        0
    } else {
        pairs_in(lines, (n - 1) as nat) + (if line_pair(lines[n - 1]) is Some {
            1nat
        } else {
            0nat
        })
    }
}

impl Links {
    pub fn new() -> (r: Links)
        ensures
            r.pairs@ == Seq::<(u64, u64)>::empty(),
            r.hits == 0,
            r.watched == 0,
            !r.seen,
    {
        Links { pairs: Vec::new(), hits: 0, watched: 0, seen: false }
    }

    /// Leads a source to a target.
    pub fn reslink_add(&mut self, src: u64, tgt: u64)
        ensures
            final(self).pairs@ == linked(old(self).pairs@, src, tgt),
            final(self).hits == old(self).hits,
            final(self).watched == old(self).watched,
            final(self).seen == old(self).seen,
    {
        let mut kept: Vec<(u64, u64)> = Vec::new();
        let mut i: usize = 0;
        let ghost all = self.pairs@;
        while i < self.pairs.len()
            invariant
                i <= all.len(),
                self.pairs@ == all,
                self.hits == old(self).hits,
                self.watched == old(self).watched,
                self.seen == old(self).seen,
                kept@ == without_source(all.take(i as int), src),
            decreases all.len() - i,
        {
            let e: (u64, u64) = self.pairs[i];
            if e.0 != src {
                kept.push(e);
            }
            i += 1;
            proof {
                assert(all.take(i as int).drop_last() =~= all.take(i - 1));
                assert(all.take(i as int).last() == e);
            }
        }
        proof {
            assert(all.take(i as int) =~= all);
        }
        kept.push((src, tgt));
        self.pairs = kept;
    }

    /// Leads one source to a target, and nothing else anywhere.
    pub fn reslink_set(&mut self, src: u64, tgt: u64)
        ensures
            final(self).pairs@ == seq![(src, tgt)],
            final(self).hits == 0,
            final(self).watched == old(self).watched,
            final(self).seen == old(self).seen,
    {
        self.pairs = Vec::new();
        self.hits = 0;
        self.reslink_add(src, tgt);
        proof {
            assert(without_source(Seq::<(u64, u64)>::empty(), src) =~= Seq::empty());
            assert(self.pairs@ =~= seq![(src, tgt)]);
        }
    }

    /// Leads one path to another.
    pub fn reslink_path(&mut self, src: &str, tgt: &str)
        ensures
            final(self).pairs@ == linked(
                old(self).pairs@,
                path_hash_of(src@),
                path_hash_of(tgt@),
            ),
            final(self).hits == old(self).hits,
            final(self).watched == old(self).watched,
            final(self).seen == old(self).seen,
    {
        let s: u64 = resource_path_hash(src);
        let t: u64 = resource_path_hash(tgt);
        self.reslink_add(s, t);
    }

    /// Watches for a path: it leads to itself, so that it is noticed.
    pub fn reslink_watch(&mut self, path: &str)
        ensures
            final(self).pairs@ == linked(
                old(self).pairs@,
                path_hash_of(path@),
                path_hash_of(path@),
            ),
            final(self).hits == old(self).hits,
            final(self).watched == path_hash_of(path@),
            !final(self).seen,
    {
        let h: u64 = resource_path_hash(path);
        self.watched = h;
        self.seen = false;
        self.reslink_add(h, h);
    }

    /// Where a path leads. A redirect that is followed is counted, and the path
    /// that is watched for is marked as seen.
    pub fn reslink_lookup(&mut self, path: u64) -> (r: u64)
        ensures
            r == led_to(old(self).pairs@, path),
            final(self).pairs@ == old(self).pairs@,
            final(self).watched == old(self).watched,
            final(self).hits == (if target_from(old(self).pairs@, path, 0) is Some {
                (old(self).hits + 1) % 0x1_0000_0000_0000_0000
            } else {
                old(self).hits as int
            }),
            final(self).seen == (old(self).seen || (target_from(old(self).pairs@, path, 0) is Some
                && path == old(self).watched && path != 0)),
    {
        let mut i: usize = 0;
        while i < self.pairs.len()
            invariant
                i <= self.pairs@.len(),
                *self == *old(self),
                target_from(self.pairs@, path, 0) == target_from(self.pairs@, path, i as int),
            decreases self.pairs@.len() - i,
        {
            if self.pairs[i].0 == path {
                let t: u64 = self.pairs[i].1;
                self.hits = if self.hits == u64::MAX {
                    0
                } else {
                    self.hits + 1
                };
                if path == self.watched && path != 0 {
                    self.seen = true;
                }
                return t;
            }
            i += 1;
        }
        path
    }

    /// Takes the pairs of a file over, one for each line. Returns how many there
    /// were.
    pub fn reslink_file(&mut self, content: &str) -> (r: usize)
        ensures
            final(self).pairs@ == lines_linked(
                old(self).pairs@,
                lines_of(content@),
                lines_of(content@).len(),
            ),
            final(self).hits == old(self).hits,
            final(self).watched == old(self).watched,
            final(self).seen == old(self).seen,
            r == pairs_in(lines_of(content@), lines_of(content@).len()),
    {
        let text = chars_of(content);
        let lines = split_lines(text.as_slice());
        let ghost all = lines_of(content@);
        let ghost start = self.pairs@;
        let mut n: usize = 0;
        let mut i: usize = 0;
        while i < lines.len()
            invariant
                i <= lines@.len(),
                all == slices_view(lines@),
                n <= i,
                n == pairs_in(all, i as nat),
                self.pairs@ == lines_linked(start, all, i as nat),
                self.hits == old(self).hits,
                self.watched == old(self).watched,
                self.seen == old(self).seen,
            decreases lines@.len() - i,
        {
            let ghost line = all[i as int];
            proof {
                assert(line == lines@[i as int]@);
            }
            let t = trim(lines[i]);
            if t.len() > 0 && !starts_with_char(t, '#') {
                let k: usize = index_of(t, '|', 0);
                if k < t.len() {
                    let head = slice_subrange(t, 0, k);
                    let tail = slice_subrange(t, k + 1, t.len());
                    proof {
                        assert(head@ =~= t@.take(k as int));
                        assert(tail@ =~= t@.skip(k + 1));
                    }
                    let s = string_of(trim(head));
                    let d = string_of(trim(tail));
                    self.reslink_path(s.as_str(), d.as_str());
                    n += 1;
                }
            }
            i += 1;
        }
        n
    }
}

/// A path that was led somewhere leads there, and every other path leads where it
/// led.
pub proof fn links_lead_where_they_were_set(list: Seq<(u64, u64)>, src: u64, tgt: u64, other: u64)
    ensures
        led_to(linked(list, src, tgt), src) == tgt,
        other != src ==> led_to(linked(list, src, tgt), other) == led_to(list, other),
{
    let w = without_source(list, src);
    lemma_without_source(list, src);
    lemma_target_push(w, (src, tgt), src, 0);
    lemma_target_push(w, (src, tgt), other, 0);
    lemma_target_absent(w, src, 0);
    if other != src {
        lemma_target_without(list, src, other);
    }
}

/// Every source keeps one pair, whatever is added.
pub proof fn sources_stay_distinct(list: Seq<(u64, u64)>, src: u64, tgt: u64)
    requires
        sources_distinct(list),
    ensures
        sources_distinct(linked(list, src, tgt)),
    decreases list.len(),
{
    lemma_without_distinct(list, src);
    lemma_without_source(list, src);
}

/// The last pair of a file for a source is the one that counts.
pub proof fn last_line_wins(list: Seq<(u64, u64)>, lines: Seq<Seq<char>>, n: nat)
    requires
        0 < n <= lines.len(),
        line_pair(lines[n - 1]) is Some,
    ensures
        led_to(lines_linked(list, lines, n), path_hash_of((line_pair(lines[n - 1])->0).0))
            == path_hash_of((line_pair(lines[n - 1])->0).1),
{
    let before = lines_linked(list, lines, (n - 1) as nat);
    let s = path_hash_of((line_pair(lines[n - 1])->0).0);
    let t = path_hash_of((line_pair(lines[n - 1])->0).1);
    links_lead_where_they_were_set(before, s, t, s);
}

proof fn lemma_without_source(list: Seq<(u64, u64)>, src: u64)
    ensures
        forall|i: int|
            0 <= i < without_source(list, src).len() ==> (#[trigger] without_source(
                list,
                src,
            )[i]).0 != src,
    decreases list.len(),
{
    if list.len() > 0 {
        lemma_without_source(list.drop_last(), src);
        let front = without_source(list.drop_last(), src);
        let w = without_source(list, src);
        assert forall|i: int| 0 <= i < w.len() implies (#[trigger] w[i]).0 != src by {
            if i < front.len() {
                assert(front[i].0 != src);
            }
        }
    }
}

/// What is left comes from what was there.
proof fn lemma_without_from(list: Seq<(u64, u64)>, src: u64)
    ensures
        forall|i: int|
            0 <= i < without_source(list, src).len() ==> list.contains(
                #[trigger] without_source(list, src)[i],
            ),
    decreases list.len(),
{
    if list.len() > 0 {
        let rest = list.drop_last();
        lemma_without_from(rest, src);
        let w = without_source(list, src);
        let front = without_source(rest, src);
        assert forall|i: int| 0 <= i < w.len() implies list.contains(#[trigger] w[i]) by {
            if i < front.len() {
                assert(rest.contains(front[i]));
                let k = choose|k: int| 0 <= k < rest.len() && rest[k] == front[i];
                assert(list[k] == w[i]);
            } else {
                assert(list[list.len() - 1] == w[i]);
            }
        }
    }
}

proof fn lemma_without_distinct(list: Seq<(u64, u64)>, src: u64)
    requires
        sources_distinct(list),
    ensures
        sources_distinct(without_source(list, src)),
    decreases list.len(),
{
    if list.len() > 0 {
        let rest = list.drop_last();
        assert forall|i: int, j: int| 0 <= i < j < rest.len() implies (#[trigger] rest[i]).0 != (
        #[trigger] rest[j]).0 by {
            assert(list[i].0 != list[j].0);
        }
        lemma_without_distinct(rest, src);
        lemma_without_from(rest, src);
        let front = without_source(rest, src);
        let w = without_source(list, src);
        assert forall|i: int, j: int| 0 <= i < j < w.len() implies (#[trigger] w[i]).0 != (
        #[trigger] w[j]).0 by {
            if j < front.len() {
                assert(front[i].0 != front[j].0);
            } else {
                assert(rest.contains(front[i]));
                let k = choose|k: int| 0 <= k < rest.len() && rest[k] == front[i];
                assert(list[k].0 != list[list.len() - 1].0);
            }
        }
    }
}

proof fn lemma_target_push(list: Seq<(u64, u64)>, e: (u64, u64), q: u64, i: int)
    requires
        0 <= i <= list.len(),
    ensures
        target_from(list.push(e), q, i) == (match target_from(list, q, i) {
            Some(t) => Some(t),
            None => if e.0 == q {
                Some(e.1)
            } else {
                None
            },
        }),
    decreases list.len() - i,
{
    let l2 = list.push(e);
    if i < list.len() {
        lemma_target_push(list, e, q, i + 1);
        assert(l2[i] == list[i]);
    } else {
        assert(target_from(l2, q, i + 1) is None);
    }
}

proof fn lemma_target_absent(list: Seq<(u64, u64)>, q: u64, i: int)
    requires
        0 <= i,
        forall|k: int| 0 <= k < list.len() ==> (#[trigger] list[k]).0 != q,
    ensures
        target_from(list, q, i) is None,
    decreases list.len() - i,
{
    if i < list.len() {
        lemma_target_absent(list, q, i + 1);
    }
}

proof fn lemma_target_without(list: Seq<(u64, u64)>, src: u64, other: u64)
    requires
        other != src,
    ensures
        target_from(without_source(list, src), other, 0) == target_from(list, other, 0),
    decreases list.len(),
{
    if list.len() > 0 {
        let rest = list.drop_last();
        lemma_target_without(rest, src, other);
        assert(rest.push(list.last()) =~= list);
        lemma_target_push(rest, list.last(), other, 0);
        lemma_target_push(without_source(rest, src), list.last(), other, 0);
    }
}

/// What the state of the redirects is reported as: the number of pairs, how many
/// were followed, and whether any was.
pub fn reslink_stat(links: &Links) -> (r: (usize, u64, bool))
    ensures
        r == (links.pairs@.len() as usize, links.hits, links.hits > 0),
{
    (links.pairs.len(), links.hits, links.hits > 0)
}

// ---- tables of items -------------------------------------------------------

/// The path of the last table that the game itself loads.
pub open spec fn sentinel_path() -> Seq<char> {
    "base\\gameplay\\factories\\vehicles\\vehicles.csv"@
}

/// The tables that mods add, by the hashes of their paths; each once, in the
/// order in which they were named.
pub struct Factories {
    pub paths: Vec<u64>,
}

/// The tables with one more, unless it is there.
pub open spec fn with_table(paths: Seq<u64>, h: u64) -> Seq<u64> {
    if paths.contains(h) {
        paths
    } else {
        paths.push(h)
    }
}

/// The path that a line names: none where the line is empty or a comment.
pub open spec fn line_path(line: Seq<char>) -> Option<Seq<char>> {
    let t = trimmed(line);
    if t.len() == 0 || t[0] == '#' {
        None
    } else {
        Some(t)
    }
}

/// The tables after the first `n` lines of a file.
pub open spec fn lines_tabled(paths: Seq<u64>, lines: Seq<Seq<char>>, n: nat) -> Seq<u64>
    decreases n,
{
    if n == 0 {
        paths
    } else {
        let before = lines_tabled(paths, lines, (n - 1) as nat);
        match line_path(lines[n - 1]) {
            Some(p) => with_table(before, path_hash_of(p)),
            None => before,
        }
    }
}

/// How many of the first `n` lines name a path.
pub open spec fn paths_in(lines: Seq<Seq<char>>, n: nat) -> nat
    decreases n,
{
    if n == 0 {
        0
    } else {
        paths_in(lines, (n - 1) as nat) + (if line_path(lines[n - 1]) is Some {
            1nat
        } else {
            0nat
        })
    }
}

impl Factories {
    pub fn new() -> (r: Factories)
        ensures
            r.paths@ == Seq::<u64>::empty(),
    {
        Factories { paths: Vec::new() }
    }

    /// Adds the table at a path.
    pub fn factory_add(&mut self, path: &str)
        ensures
            final(self).paths@ == with_table(old(self).paths@, path_hash_of(path@)),
    {
        let h: u64 = resource_path_hash(path);
        let mut i: usize = 0;
        while i < self.paths.len()
            invariant
                i <= self.paths@.len(),
                self.paths@ == old(self).paths@,
                h == path_hash_of(path@),
                forall|k: int| 0 <= k < i ==> self.paths@[k] != h,
            decreases self.paths@.len() - i,
        {
            if self.paths[i] == h {
                proof {
                    assert(self.paths@[i as int] == h);
                }
                return;
            }
            i += 1;
        }
        self.paths.push(h);
    }

    /// Adds the tables that a file names, one on each line. Returns how many there
    /// were.
    pub fn factory_file(&mut self, content: &str) -> (r: usize)
        ensures
            final(self).paths@ == lines_tabled(
                old(self).paths@,
                lines_of(content@),
                lines_of(content@).len(),
            ),
            r == paths_in(lines_of(content@), lines_of(content@).len()),
    {
        let text = chars_of(content);
        let lines = split_lines(text.as_slice());
        let ghost all = lines_of(content@);
        let ghost start = self.paths@;
        let mut n: usize = 0;
        let mut i: usize = 0;
        while i < lines.len()
            invariant
                i <= lines@.len(),
                all == slices_view(lines@),
                n <= i,
                n == paths_in(all, i as nat),
                self.paths@ == lines_tabled(start, all, i as nat),
            decreases lines@.len() - i,
        {
            let ghost line = all[i as int];
            proof {
                assert(line == lines@[i as int]@);
            }
            let t = trim(lines[i]);
            if t.len() > 0 && !starts_with_char(t, '#') {
                let s = string_of(t);
                self.factory_add(s.as_str());
                n += 1;
            }
            i += 1;
        }
        n
    }

    /// The tables that are loaded after the game's own table with that hash: all
    /// of them after the last one, none after the others.
    pub fn factory_replacement(&self, path: u64) -> (r: Vec<u64>)
        ensures
            r@ == (if path == path_hash_of(sentinel_path()) {
                self.paths@
            } else {
                Seq::empty()
            }),
    {
        let mut out: Vec<u64> = Vec::new();
        if path != resource_path_hash("base\\gameplay\\factories\\vehicles\\vehicles.csv") {
            return out;
        }
        let mut i: usize = 0;
        while i < self.paths.len()
            invariant
                i <= self.paths@.len(),
                out@ == self.paths@.take(i as int),
            decreases self.paths@.len() - i,
        {
            out.push(self.paths[i]);
            i += 1;
            proof {
                assert(out@ =~= self.paths@.take(i as int));
            }
        }
        proof {
            assert(self.paths@.take(i as int) =~= self.paths@);
        }
        out
    }
}

/// Every table is loaded once, whatever the files name.
pub proof fn tables_are_loaded_once(paths: Seq<u64>, lines: Seq<Seq<char>>, n: nat)
    requires
        n <= lines.len(),
        paths.no_duplicates(),
    ensures
        lines_tabled(paths, lines, n).no_duplicates(),
    decreases n,
{
    if n > 0 {
        tables_are_loaded_once(paths, lines, (n - 1) as nat);
        let before = lines_tabled(paths, lines, (n - 1) as nat);
        if line_path(lines[n - 1]) is Some {
            let h = path_hash_of(line_path(lines[n - 1])->0);
            let after = with_table(before, h);
            assert forall|i: int, j: int|
                0 <= i < after.len() && 0 <= j < after.len() && i != j implies after[i]
                != after[j] by {
                if !before.contains(h) {
                    if i < before.len() {
                        assert(before.contains(before[i]));
                    }
                    if j < before.len() {
                        assert(before.contains(before[j]));
                    }
                }
            }
        }
    }
}

/// The words that grew, each with its offset, its value before and after. A jump
/// of a hundred thousand or more is no growth of a count.
pub open spec fn grown_words(before: Seq<u32>, after: Seq<u32>, n: nat) -> Seq<(int, u32, u32)>
    decreases n,
{
    if n == 0 {
        Seq::empty()
    } else {
        let front = grown_words(before, after, (n - 1) as nat);
        let b = before[n - 1];
        let a = after[n - 1];
        if a > b && a - b < 100_000 {
            front.push((4 * (n - 1), b, a))
        } else {
            front
        }
    }
}

pub open spec fn words_view(v: Seq<(u64, u32, u32)>) -> Seq<(int, u32, u32)> {
    v.map_values(|e: (u64, u32, u32)| (e.0 as int, e.1, e.2))
}

/// The words of an index that grew while tables were loaded.
pub fn index_growth(before: &Vec<u32>, after: &Vec<u32>) -> (r: Vec<(u64, u32, u32)>)
    requires
        before@.len() == after@.len(),
        4 * before@.len() <= u64::MAX,
    ensures
        words_view(r@) == grown_words(before@, after@, before@.len()),
{
    let mut out: Vec<(u64, u32, u32)> = Vec::new();
    let mut i: usize = 0;
    proof {
        assert(words_view(out@) =~= Seq::empty());
    }
    while i < before.len()
        invariant
            i <= before@.len(),
            before@.len() == after@.len(),
            4 * before@.len() <= u64::MAX,
            words_view(out@) == grown_words(before@, after@, i as nat),
        decreases before@.len() - i,
    {
        let b: u32 = before[i];
        let a: u32 = after[i];
        if a > b && a - b < 100_000 {
            let ghost was = out@;
            out.push((4 * (i as u64), b, a));
            proof {
                assert(words_view(out@) =~= words_view(was).push(((4 * i) as int, b, a)));
            }
        }
        i += 1;
    }
    out
}

} // verus!
