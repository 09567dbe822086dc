//! What happens around the engine: who hears an event, where a path leads, what a
//! hook answers, and what the marks of a start say.
use vstd::prelude::*;

use crate::boot::{
    area_name_of, at_least, clamped, flag_in, input_context, signed_in, start_state, unsigned_in,
    StartState,
};
use crate::callbacks::{
    limited_to, listeners, service_step, targets_with, targets_without, value_from, without,
    Callback, ServiceStep, ServiceWorld,
};
use crate::encode_laws::firm;
use crate::forge::route_of;
use crate::hooks::{exec_answer, guarded, nonzero, ExecAnswer, ExecCall, ExecState, HookDecision};
use crate::links::{grown_words, line_pair, line_path};
use crate::memory::{is_sane, readable, word_or_zero, RegionV};
use crate::number_laws::decimal_digits_read_back;
use crate::probes::{called, chosen_index, looks_like_path, SweepSlot};
use crate::text::{dec, dec_int, is_space, next_index, trimmed};
use crate::text_laws::{all_blank, trimming_takes_the_ends};

verus! {

// ---- callbacks -------------------------------------------------------------

/// An event is heard by the callbacks that are registered for it and whose target is
/// still there, in the order of their registration, and by no others.
pub proof fn events_reach_their_listeners(list: Seq<Callback>, c: Callback, event: u64)
    ensures
        c.event == event && is_sane(c.target as int) ==> listeners(list.push(c), event)
            == listeners(list, event).push((c.target, c.function)),
        c.event != event || !is_sane(c.target as int) ==> listeners(list.push(c), event)
            == listeners(list, event),
        listeners(Seq::empty(), event) == Seq::<(u64, u64)>::empty(),
{
    assert(list.push(c).drop_last() =~= list);
}

/// Unregistering takes away the callbacks of that event and target, those of one
/// function where one is named or all of them, and leaves every other.
pub proof fn unregistering_takes_what_it_names(
    list: Seq<Callback>,
    c: Callback,
    event: u64,
    target: u64,
    function: Option<u64>,
)
    ensures
        c.event == event && c.target == target && (function is None || function == Some(c.function))
            ==> without(list.push(c), event, target, function) == without(
            list,
            event,
            target,
            function,
        ),
        c.event != event || c.target != target || (function is Some && function != Some(c.function))
            ==> without(list.push(c), event, target, function) == without(
            list,
            event,
            target,
            function,
        ).push(c),
        limited_to(0) is None,
        forall|f: u64| f != 0 ==> #[trigger] limited_to(f) == Some(f),
{
    assert(list.push(c).drop_last() =~= list);
}

/// A target is listed once, however often it is added, and not at all once it is
/// removed; the others stay.
pub proof fn targets_are_listed_once(targets: Seq<u64>, t: u64, u: u64)
    ensures
        targets_with(targets, t).contains(t),
        targets.contains(t) ==> targets_with(targets, t) == targets,
        !targets.contains(t) ==> targets_with(targets, t) == targets.push(t),
        !targets_without(targets, t).contains(t),
        u != t ==> (targets_without(targets, t).contains(u) <==> targets.contains(u)),
    decreases targets.len(),
{
    if !targets.contains(t) {
        assert(targets.push(t)[targets.len() as int] == t);
    }
    if targets.len() > 0 {
        let front = targets.drop_last();
        targets_are_listed_once(front, t, u);
        let w = targets_without(front, t);
        let all = targets_without(targets, t);
        if all.contains(t) {
            let k = choose|k: int| 0 <= k < all.len() && all[k] == t;
            if k < w.len() {
                assert(w[k] == t);
            }
        }
        if u != t {
            if all.contains(u) {
                let k = choose|k: int| 0 <= k < all.len() && all[k] == u;
                if k < w.len() {
                    assert(w[k] == u);
                    assert(w.contains(u));
                    let j = choose|j: int| 0 <= j < front.len() && front[j] == u;
                    assert(targets[j] == u);
                } else {
                    assert(targets[targets.len() - 1] == u);
                }
            }
            if targets.contains(u) {
                let k = choose|k: int| 0 <= k < targets.len() && targets[k] == u;
                if k < front.len() {
                    assert(front[k] == u);
                    assert(w.contains(u));
                    let j = choose|j: int| 0 <= j < w.len() && w[j] == u;
                    assert(all[j] == u);
                } else {
                    assert(all.last() == u);
                    assert(all[all.len() - 1] == u);
                }
            }
        }
    }
}

/// A service that was made is answered again; a new one is made only from a class
/// that is there, and none without a name.
pub proof fn services_are_made_once(
    instances: Seq<(u64, u64)>,
    name: u64,
    p: u64,
    w: ServiceWorld,
)
    ensures
        service_step(instances, 0, w) == (ServiceStep::Answer { instance: 0, cached: false }),
        name != 0 && p != 0 && value_from(instances, name, 0) == Some(p) ==> service_step(
            instances,
            name,
            w,
        ) == (ServiceStep::Answer { instance: p, cached: true }),
        service_step(instances, name, w) is MakeInstance ==> w.registry && w.made_instance is None
            && name != 0,
        service_step(instances, name, w) is MakeClass ==> w.registry && !is_sane(w.class as int)
            && is_sane(w.base as int) && w.made_class is None,
        name != 0 && value_from(instances, name, 0) is None && w.registry && is_sane(w.class as int)
            && w.made_instance == Some(p) ==> service_step(instances, name, w) == (
        ServiceStep::Answer { instance: p, cached: false }),
{
}

// ---- links -----------------------------------------------------------------

proof fn lemma_bar(a: Seq<char>, r: Seq<char>, i: int)
    requires
        !a.contains('|'),
        0 <= i <= a.len(),
    ensures
        next_index(a + seq!['|'] + r, '|', i) == a.len(),
        next_index(a, '|', i) == a.len(),
    decreases a.len() - i,
{
    let s = a + seq!['|'] + r;
    if i < a.len() {
        assert(s[i] == a[i]);
        assert(a.contains(a[i]));
        lemma_bar(a, r, i + 1);
    } else {
        assert(s[i] == '|');
    }
}

/// A line that links is two paths with a bar between them, blanks around them or not;
/// a comment, a blank line and a line without a bar link nothing.
pub proof fn lines_link_their_paths(p: Seq<char>, a: Seq<char>, b: Seq<char>, q: Seq<char>)
    requires
        all_blank(p),
        all_blank(q),
        firm(a),
        firm(b),
        a[0] != '#',
        !a.contains('|'),
    ensures
        line_pair(p + (a + seq![' '] + seq!['|'] + (seq![' '] + b)) + q) == Some((a, b)),
        line_pair(p + (seq!['#'] + b) + q) is None,
        line_pair(p + a + q) is None,
        line_pair(Seq::empty()) is None,
        line_path(p + a + q) == Some(a),
        line_path(p + (seq!['#'] + b) + q) is None,
        line_path(Seq::empty()) is None,
{
    let one = a + seq![' '];
    let two = seq![' '] + b;
    let t = one + seq!['|'] + two;
    assert(t =~= a + seq![' '] + seq!['|'] + (seq![' '] + b));
    assert(t[0] == a[0] && t.last() == b.last());
    trimming_takes_the_ends(p, t, q);
    assert(!one.contains('|')) by {
        if one.contains('|') {
            let k = choose|k: int| 0 <= k < one.len() && one[k] == '|';
            assert(k < a.len());
            assert(a[k] == '|');
        }
    }
    lemma_bar(one, two, 0);
    assert(t.take(one.len() as int) =~= one);
    assert(t.skip(one.len() as int + 1) =~= two);
    let none = Seq::<char>::empty();
    assert(is_space(' '));
    assert(all_blank(seq![' ']));
    trimming_takes_the_ends(none, a, seq![' ']);
    assert(none + a + seq![' '] =~= one);
    trimming_takes_the_ends(seq![' '], b, none);
    assert(seq![' '] + b + none =~= two);
    let c = seq!['#'] + b;
    assert(c.last() == b.last());
    trimming_takes_the_ends(p, c, q);
    trimming_takes_the_ends(p, a, q);
    lemma_bar(a, none, 0);
    assert(trimmed(none) =~= none);
}

/// The words that grew are those that are larger than before, by less than a hundred
/// thousand, each with where it lies.
pub proof fn grown_words_are_listed(before: Seq<u32>, after: Seq<u32>, n: nat, x: (int, u32, u32))
    requires
        n <= before.len(),
        n <= after.len(),
    ensures
        grown_words(before, after, n).contains(x) <==> exists|k: int|
            0 <= k < n && x == (4 * k, #[trigger] before[k], after[k]) && after[k] > before[k]
                && after[k] - before[k] < 100_000,
    decreases n,
{
    let all = grown_words(before, after, n);
    if n > 0 {
        let m = (n - 1) as nat;
        let front = grown_words(before, after, m);
        grown_words_are_listed(before, after, m, x);
        if all.contains(x) {
            let k = choose|k: int| 0 <= k < all.len() && all[k] == x;
            if k < front.len() {
                assert(front[k] == x);
                assert(front.contains(x));
            } else {
                assert(x == (4 * (n - 1), before[n - 1], after[n - 1]));
            }
        }
        if exists|k: int|
            0 <= k < n && x == (4 * k, #[trigger] before[k], after[k]) && after[k] > before[k]
                && after[k] - before[k] < 100_000 {
            let k = choose|k: int|
                0 <= k < n && x == (4 * k, #[trigger] before[k], after[k]) && after[k] > before[k]
                    && after[k] - before[k] < 100_000;
            if k < m {
                assert(front.contains(x));
                let j = choose|j: int| 0 <= j < front.len() && front[j] == x;
                assert(all[j] == x);
            } else {
                assert(all[all.len() - 1] == x);
            }
        }
    }
}

// ---- hooks -----------------------------------------------------------------

/// A hook is set only where it is wanted and the code is what is expected.
pub proof fn hooks_are_set_on_known_code(wanted: bool, code: Option<u64>, prologue: u64)
    ensures
        guarded(wanted, code, prologue) == HookDecision::Install <==> wanted && code == Some(
            prologue,
        ),
        guarded(wanted, code, prologue) == HookDecision::Idle <==> !wanted,
        guarded(wanted, code, prologue) == HookDecision::Unreadable <==> wanted && code is None,
{
}

/// A call whose method is overridden is answered with the value that was set; else
/// the handler of its function answers; else it goes on.
pub proof fn calls_are_answered_in_order(st: ExecState, c: ExecCall, h: u64)
    ensures
        st.override_name != 0 && c.func != 0 && c.out != 0 && c.method == Some(st.override_name)
            ==> exec_answer(st, c) == ExecAnswer::Override(st.override_value),
        (st.override_name == 0 || c.method != Some(st.override_name)) && route_of(
            st.routes@,
            c.func,
        ) == Some(h) ==> exec_answer(st, c) == ExecAnswer::Route(h),
        (st.override_name == 0 || c.method != Some(st.override_name)) && route_of(
            st.routes@,
            c.func,
        ) is None ==> exec_answer(st, c) == (ExecAnswer::Forward {
            tick: st.calls as int % 2048 == 0,
        }),
        c.out == 0 ==> !(exec_answer(st, c) is Override),
{
}

/// What is kept of a list are its values that are not zero, in their order.
pub proof fn zeros_are_left_out(s: Seq<u64>, v: u64)
    ensures
        v != 0 ==> nonzero(s.push(v)) == nonzero(s).push(v),
        nonzero(s.push(0)) == nonzero(s),
        nonzero(Seq::empty()) == Seq::<u64>::empty(),
{
    assert(s.push(v).drop_last() =~= s);
    assert(s.push(0u64).drop_last() =~= s);
}

// ---- starting --------------------------------------------------------------

proof fn lemma_dec_firm(n: nat)
    ensures
        dec(n).len() > 0,
        '0' <= dec(n)[0] <= '9',
        '0' <= dec(n).last() <= '9',
    decreases n,
{
    if n >= 10 {
        lemma_dec_firm(n / 10);
        assert(dec(n)[0] == dec(n / 10)[0]);
    }
}

/// A mark that holds a number, with blanks around it or not, is that number; one that
/// holds none, or is not there, is zero.
pub proof fn marks_hold_numbers(p: Seq<char>, v: int, q: Seq<char>, low: int, high: int)
    requires
        all_blank(p),
        all_blank(q),
        low <= 0 <= high,
    ensures
        low <= v <= high ==> signed_in(Some(p + dec_int(v) + q), low, high) == v,
        !(low <= v <= high) ==> signed_in(Some(p + dec_int(v) + q), low, high) == 0,
        0 <= v <= u64::MAX ==> unsigned_in(Some(p + dec(v as nat) + q)) == v,
        signed_in(None, low, high) == 0,
        unsigned_in(None) == 0,
        flag_in(None) == 0,
        flag_in(Some(p + seq!['1'] + q)) == 1,
        flag_in(Some(p + seq!['0'] + q)) == 0,
{
    let m = (if v < 0 { -v } else { v }) as nat;
    lemma_dec_firm(m);
    let s = dec_int(v);
    if v < 0 {
        assert(s.last() == dec(m).last());
    }
    trimming_takes_the_ends(p, s, q);
    decimal_digits_read_back(0, 0, v, low, high);
    if 0 <= v <= u64::MAX {
        trimming_takes_the_ends(p, dec(v as nat), q);
        decimal_digits_read_back(v as nat, u64::MAX as nat, 0, 0, 0);
    }
    trimming_takes_the_ends(p, seq!['1'], q);
    trimming_takes_the_ends(p, seq!['0'], q);
    reveal_strlit("1");
    assert("1"@ =~= seq!['1']);
    assert(seq!['0'][0] == '0');
}

/// A mode is one of four: what is below is the first, what is above the last.
pub proof fn modes_stay_in_range(m: int)
    ensures
        0 <= clamped(m) <= 3,
        0 <= m <= 3 ==> clamped(m) == m,
        m < 0 ==> clamped(m) == 0,
        m > 3 ==> clamped(m) == 3,
{
}

/// A version is new enough if it is not before the wanted one, its first number
/// counting most.
pub proof fn versions_are_compared_number_by_number(
    a: u32,
    b: u32,
    c: u32,
    x: u32,
    y: u32,
    z: u32,
)
    ensures
        a > x ==> at_least((a, b, c), (x, y, z)),
        a < x ==> !at_least((a, b, c), (x, y, z)),
        b > y ==> at_least((a, b, c), (a, y, z)),
        b < y ==> !at_least((a, b, c), (a, y, z)),
        at_least((a, b, c), (a, b, z)) <==> c >= z,
{
}

/// The areas of clothing have their names.
pub proof fn areas_have_their_names(area: i32)
    ensures
        area_name_of(1) == "OuterChest"@,
        area_name_of(2) == "InnerChest"@,
        area_name_of(3) == "Legs"@,
        area_name_of(4) == "Feet"@,
        area_name_of(5) == "Head"@,
        area_name_of(6) == "Face"@,
        area < 1 || area > 6 ==> area_name_of(area) == "?"@,
{
}

/// The input context is what lies at the end of the chain of words that starts at the
/// state machine; a break in the chain is none.
pub proof fn input_contexts_end_their_chain(
    m: Seq<RegionV>,
    sm: u64,
    a: nat,
    b: nat,
    c: nat,
    d: nat,
)
    requires
        word_or_zero(m, sm + 0x70, 8) == a,
        word_or_zero(m, a as int + 0x288, 8) == b,
        word_or_zero(m, b as int + 0x18, 8) == c,
        word_or_zero(m, c as int + 0x1b0, 8) == d,
    ensures
        a != 0 && b != 0 && c != 0 ==> input_context(m, sm) == d,
        a == 0 || b == 0 || c == 0 ==> input_context(m, sm) == 0,
        sm != 0 && readable(m, sm as int, 0x108) ==> start_state(m, sm) == Some(
            StartState {
                state: word_or_zero(m, sm + 0xd4, 1) as u8,
                phase: word_or_zero(m, sm + 0x84, 1) as u8,
                guard: word_or_zero(m, sm + 0xe8, 1) as u8,
            },
        ),
        sm == 0 || !readable(m, sm as int, 0x108) ==> start_state(m, sm) is None,
{
}

// ---- probes ----------------------------------------------------------------

/// What was never called is left out of a sweep, and the rest keeps its order.
pub proof fn only_called_slots_are_shown(slots: Seq<SweepSlot>, s: SweepSlot)
    ensures
        s.count != 0 ==> called(slots.push(s)) == called(slots).push(s),
        s.count == 0 ==> called(slots.push(s)) == called(slots),
        called(Seq::empty()) == Seq::<SweepSlot>::empty(),
{
    assert(slots.push(s).drop_last() =~= slots);
}

/// The hash of a path has something in its upper half, and not the upper bytes of an
/// address of the program or of its heap; an index that is pinned counts before the
/// last one.
pub proof fn hashes_are_told_from_addresses(v: u64, pinned: u64, last: u64)
    ensures
        v <= 0xffff_ffff ==> !looks_like_path(v),
        0x1000_0000_0000 <= v < 0x1700_0000_0000 ==> !looks_like_path(v),
        0x6000_0000_0000 <= v < 0x8000_0000_0000 ==> !looks_like_path(v),
        v >= 0x8000_0000_0000 ==> looks_like_path(v),
        0x1700_0000_0000 <= v < 0x6000_0000_0000 ==> looks_like_path(v),
        0x100_0000_0000 <= v < 0x1000_0000_0000 ==> looks_like_path(v),
        pinned != 0 ==> chosen_index(pinned, last) == pinned,
        chosen_index(0, last) == last,
{
}

} // verus!
