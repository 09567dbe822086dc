//! What is handed to the engine: the bytes of arguments, of code, of frames and of
//! the things that are made for it.
use vstd::arithmetic::div_mod::lemma_mod_breakdown;
use vstd::prelude::*;
use vstd::utf8::encode_utf8;

use crate::calls::{
    arg_bytes, call_code, frame_image, id_code, local_property, param_step, placed, pod_write_of,
    push_code, signed_image, string_image, string_text, zeros, Arg, ParamEvent, ParamRunV,
    PodWriteV,
};
use crate::cursor::{le_bytes, le_value, lemma_le_bytes_len, pow256, utf8_text};
use crate::forge::{function_image, grown, route_from, route_of};
use crate::rtti::cname_of;

verus! {

/// Do these bytes lie at that place of the image?
pub open spec fn lies(image: Seq<u8>, off: int, bytes: Seq<u8>) -> bool {
    &&& 0 <= off
    &&& off + bytes.len() <= image.len()
    &&& image.subrange(off, off + bytes.len()) == bytes
}

/// What is placed lies there.
pub proof fn lemma_placed(image: Seq<u8>, off: int, bytes: Seq<u8>)
    requires
        0 <= off,
        off + bytes.len() <= image.len(),
    ensures
        placed(image, off, bytes).len() == image.len(),
        lies(placed(image, off, bytes), off, bytes),
{
    assert(placed(image, off, bytes).subrange(off, off + bytes.len()) =~= bytes);
}

/// What lies elsewhere stays.
pub proof fn lemma_apart(image: Seq<u8>, off: int, bytes: Seq<u8>, o: int, b: Seq<u8>)
    requires
        0 <= off,
        off + bytes.len() <= image.len(),
        lies(image, o, b),
        o + b.len() <= off || off + bytes.len() <= o,
    ensures
        lies(placed(image, off, bytes), o, b),
{
    assert(placed(image, off, bytes).subrange(o, o + b.len()) =~= image.subrange(o, o + b.len()));
}

// ---- numbers ---------------------------------------------------------------

/// The bytes of a number that is too large for them are those of what is left of it.
proof fn lemma_low_bytes(v: nat, n: nat)
    ensures
        le_value(le_bytes(v, n)) == v % pow256(n),
        le_bytes(v, n).len() == n,
    decreases n,
{
    lemma_le_bytes_len(v, n);
    if n > 0 {
        let m = (n - 1) as nat;
        lemma_low_bytes(v / 256, m);
        assert(le_bytes(v, n).skip(1) =~= le_bytes(v / 256, m));
        let p = pow256(m);
        lemma_pow_positive(m);
        assert(pow256(n) == 256 * p);
        lemma_mod_breakdown(v as int, 256, p as int);
    } else {
        assert(v % 1 == 0);
    }
}

proof fn lemma_pow_positive(n: nat)
    ensures
        pow256(n) > 0,
    decreases n,
{
    if n > 0 {
        lemma_pow_positive((n - 1) as nat);
    }
}

proof fn lemma_pows()
    ensures
        pow256(1) == 0x100,
        pow256(2) == 0x1_0000,
        pow256(4) == 0x1_0000_0000,
        pow256(8) == 0x1_0000_0000_0000_0000,
{
    reveal_with_fuel(pow256, 9);
}

/// A number is written as wide as it is asked for, low byte first, in two's
/// complement.
pub proof fn values_are_written_as_their_bytes(val: int, n: nat)
    requires
        -0x8000_0000_0000_0000 <= val < 0x8000_0000_0000_0000,
    ensures
        signed_image(val, n).len() == n,
        n <= 8 && 0 <= val < pow256(n) ==> le_value(signed_image(val, n)) == val,
        n == 1 && -0x80 <= val < 0 ==> le_value(signed_image(val, n)) == val + 0x100,
        n == 2 && -0x8000 <= val < 0 ==> le_value(signed_image(val, n)) == val + 0x1_0000,
        n == 4 && -0x8000_0000 <= val < 0 ==> le_value(signed_image(val, n)) == val + 0x1_0000_0000,
        n == 8 && val < 0 ==> le_value(signed_image(val, n)) == val + 0x1_0000_0000_0000_0000,
{
    let w = (if val < 0 { val + 0x1_0000_0000_0000_0000 } else { val }) as nat;
    lemma_low_bytes(w, n);
    lemma_pows();
    if val >= 0 && val < pow256(n) {
        vstd::arithmetic::div_mod::lemma_small_mod(w, pow256(n));
    }
    if val < 0 {
        let top: nat = 0x1_0000_0000_0000_0000;
        assert(w == val + top);
        if n == 1 {
            assert(pow256(n) == 0x100);
            assert(w % 0x100 == (val + 0x100) % 0x100);
        }
        if n == 2 {
            assert(pow256(n) == 0x1_0000);
            assert(w % 0x1_0000 == (val + 0x1_0000) % 0x1_0000);
        }
        if n == 4 {
            assert(pow256(n) == 0x1_0000_0000);
            assert(w % 0x1_0000_0000 == (val + 0x1_0000_0000) % 0x1_0000_0000);
        }
        if n == 8 {
            assert(pow256(n) == top);
            vstd::arithmetic::div_mod::lemma_small_mod(w, top);
        }
    }
}

/// A plain value is written as wide as its type, and a type that is not known, or not
/// as wide as it is said to be, is refused.
pub proof fn plain_values_fill_their_type(tname: u64, size: u32, val: int)
    requires
        -0x8000_0000_0000_0000 <= val < 0x8000_0000_0000_0000,
    ensures
        pod_write_of(tname, size, val) is Bytes ==> pod_write_of(tname, size, val)->Bytes_0.len()
            == size,
        size != 1 && size != 2 && size != 4 && size != 8 ==> pod_write_of(tname, size, val)
            is Refused,
        tname == cname_of("Bool"@) ==> pod_write_of(tname, 1, val) == PodWriteV::Bytes(
            seq![if val != 0 { 1u8 } else { 0u8 }],
        ),
        tname == cname_of("Int16"@) || tname == cname_of("Uint16"@) ==> pod_write_of(tname, 2, val)
            == PodWriteV::Bytes(signed_image(val, 2)),
        tname == cname_of("Int32"@) || tname == cname_of("Uint32"@) ==> pod_write_of(tname, 4, val)
            == PodWriteV::Bytes(signed_image(val, 4)),
        tname == cname_of("Int64"@) || tname == cname_of("Uint64"@) ==> pod_write_of(tname, 8, val)
            == PodWriteV::Bytes(signed_image(val, 8)),
{
    values_are_written_as_their_bytes(val, 1);
    values_are_written_as_their_bytes(val, 2);
    values_are_written_as_their_bytes(val, 4);
    values_are_written_as_their_bytes(val, 8);
}

// ---- texts -----------------------------------------------------------------

/// A short text lies at the start of its slot, with its length behind it and zeros
/// around; a longer one does not fit.
pub proof fn short_texts_lie_in_their_slot(s: Seq<char>)
    ensures
        encode_utf8(s).len() <= 19 ==> string_image(s) is Some && string_image(s)->0.len() == 0x20
            && lies(string_image(s)->0, 0, encode_utf8(s)) && lies(
            string_image(s)->0,
            0x14,
            le_bytes(encode_utf8(s).len(), 4),
        ),
        encode_utf8(s).len() > 19 ==> string_image(s) is None,
{
    let b = encode_utf8(s);
    if b.len() <= 19 {
        let z = zeros(0x20);
        let one = placed(z, 0, b);
        lemma_le_bytes_len(b.len(), 4);
        lemma_placed(z, 0, b);
        lemma_placed(one, 0x14, le_bytes(b.len(), 4));
        lemma_apart(one, 0x14, le_bytes(b.len(), 4), 0, b);
    }
}

/// A text whose length has its mark lies on the heap, as far as the length says.
pub proof fn long_texts_lie_on_the_heap(slot: Seq<u8>, heap: Seq<u8>, n: nat)
    requires
        slot.len() >= 0x20,
        n <= 100_000,
        n <= heap.len(),
        le_value(slot.subrange(0x14, 0x18)) == 0x4000_0000 + n,
    ensures
        string_text(slot, Some(heap)) == utf8_text(heap.take(n as int)),
        string_text(slot, None) == Seq::<char>::empty(),
{
}

// ---- arguments -------------------------------------------------------------

/// Each argument is its own bytes: a handle its two words, a number or a name its
/// bytes, a truth value one byte.
pub proof fn arguments_are_their_bytes(a: u64, b: u64, w: u32, t: bool)
    ensures
        arg_bytes(Arg::Handle(a, b)) == le_bytes(a as nat, 8) + le_bytes(b as nat, 8),
        arg_bytes(Arg::CName(a)) == le_bytes(a as nat, 8),
        arg_bytes(Arg::Enum(a)) == le_bytes(a as nat, 8),
        arg_bytes(Arg::I64(a)) == le_bytes(a as nat, 8),
        arg_bytes(Arg::I32(w)) == le_bytes(w as nat, 4),
        arg_bytes(Arg::F32(w)) == le_bytes(w as nat, 4),
        arg_bytes(Arg::Bool(true)) == seq![1u8],
        arg_bytes(Arg::Bool(false)) == seq![0u8],
{
}

// ---- code ------------------------------------------------------------------

proof fn lemma_push(props: Seq<u64>, total: nat, n: nat, i: int)
    requires
        n <= total,
        total <= props.len(),
    ensures
        push_code(props, total, n).len() == 16 + 9 * total,
        0 <= i < n ==> lies(push_code(props, total, n), 9 * i, seq![0x18u8]) && lies(
            push_code(props, total, n),
            9 * i + 1,
            le_bytes(props[i] as nat, 8),
        ),
        forall|k: int| 9 * n <= k < 16 + 9 * total ==> #[trigger] push_code(props, total, n)[k] == 0,
    decreases n,
{
    if n > 0 {
        let m = (n - 1) as nat;
        lemma_push(props, total, m, i);
        let before = push_code(props, total, m);
        let at = 9 * m as int;
        let op = seq![0x18u8];
        let arg = le_bytes(props[n - 1] as nat, 8);
        lemma_le_bytes_len(props[n - 1] as nat, 8);
        let one = placed(before, at, op);
        let all = placed(one, at + 1, arg);
        lemma_placed(before, at, op);
        lemma_placed(one, at + 1, arg);
        lemma_apart(one, at + 1, arg, at, op);
        if 0 <= i < m {
            lemma_le_bytes_len(props[i] as nat, 8);
            lemma_apart(before, at, op, 9 * i, op);
            lemma_apart(one, at + 1, arg, 9 * i, op);
            lemma_apart(before, at, op, 9 * i + 1, le_bytes(props[i] as nat, 8));
            lemma_apart(one, at + 1, arg, 9 * i + 1, le_bytes(props[i] as nat, 8));
        }
        assert forall|k: int| 9 * n <= k < 16 + 9 * total implies #[trigger] all[k] == 0 by {
            assert(one[k] == before[k]);
            assert(all[k] == one[k]);
        }
    }
}

/// The code of a call pushes every argument, one behind another and each from its own
/// place, and ends there; nothing but zeros follows.
pub proof fn calls_push_their_arguments(props: Seq<u64>, i: int)
    ensures
        call_code(props).len() == 16 + 9 * props.len(),
        0 <= i < props.len() ==> call_code(props)[9 * i] == 0x18 && lies(
            call_code(props),
            9 * i + 1,
            le_bytes(props[i] as nat, 8),
        ),
        call_code(props)[9 * props.len() as int] == 0x26,
        forall|k: int|
            9 * props.len() < k < 16 + 9 * props.len() ==> #[trigger] call_code(props)[k] == 0,
{
    let n = props.len();
    lemma_push(props, n, n, i);
    let before = push_code(props, n, n);
    let at = 9 * n as int;
    let end = seq![0x26u8];
    lemma_placed(before, at, end);
    assert(call_code(props)[at] == end[0]);
    if 0 <= i < n {
        lemma_le_bytes_len(props[i] as nat, 8);
        lemma_apart(before, at, end, 9 * i, seq![0x18u8]);
        lemma_apart(before, at, end, 9 * i + 1, le_bytes(props[i] as nat, 8));
        assert(call_code(props).subrange(9 * i, 9 * i + 1)[0] == 0x18);
    }
    assert forall|k: int| 9 * n < k < 16 + 9 * n implies #[trigger] call_code(props)[k] == 0 by {
        assert(call_code(props)[k] == before[k]);
    }
}

/// The code for an id is its mark, the id, and the end.
pub proof fn ids_are_pushed_whole(id: u64)
    ensures
        id_code(id).len() == 16,
        id_code(id)[0] == 0x11,
        lies(id_code(id), 1, le_bytes(id as nat, 8)),
        id_code(id)[9] == 0x26,
{
    let z = zeros(16);
    let b = le_bytes(id as nat, 8);
    lemma_le_bytes_len(id as nat, 8);
    let one = placed(z, 0, seq![0x11u8]);
    let two = placed(one, 1, b);
    lemma_placed(z, 0, seq![0x11u8]);
    lemma_placed(one, 1, b);
    lemma_placed(two, 9, seq![0x26u8]);
    lemma_apart(two, 9, seq![0x26u8], 1, b);
    assert(one[0] == 0x11);
    assert(two[0] == one[0]);
    assert(id_code(id)[0] == two[0]);
}

/// A frame holds its code, its locals twice, and its context, each in its place, and
/// nothing else.
pub proof fn frames_hold_their_words(code: u64, locals: u64, ctx: u64)
    ensures
        frame_image(code, locals, ctx).len() == 0x90,
        lies(frame_image(code, locals, ctx), 0, le_bytes(code as nat, 8)),
        lies(frame_image(code, locals, ctx), 0x10, le_bytes(locals as nat, 8)),
        lies(frame_image(code, locals, ctx), 0x18, le_bytes(locals as nat, 8)),
        lies(frame_image(code, locals, ctx), 0x40, le_bytes(ctx as nat, 8)),
{
    let c = le_bytes(code as nat, 8);
    let l = le_bytes(locals as nat, 8);
    let x = le_bytes(ctx as nat, 8);
    lemma_le_bytes_len(code as nat, 8);
    lemma_le_bytes_len(locals as nat, 8);
    lemma_le_bytes_len(ctx as nat, 8);
    let z = zeros(0x90);
    let a = placed(z, 0, c);
    let b = placed(a, 0x10, l);
    let d = placed(b, 0x18, l);
    lemma_placed(z, 0, c);
    lemma_placed(a, 0x10, l);
    lemma_placed(b, 0x18, l);
    lemma_placed(d, 0x40, x);
    lemma_apart(a, 0x10, l, 0, c);
    lemma_apart(b, 0x18, l, 0, c);
    lemma_apart(d, 0x40, x, 0, c);
    lemma_apart(b, 0x18, l, 0x10, l);
    lemma_apart(d, 0x40, x, 0x10, l);
    lemma_apart(d, 0x40, x, 0x18, l);
}

/// The description of a local holds its type and where it lies.
pub proof fn locals_are_described(ptype: u64, off: int)
    requires
        0 <= off,
    ensures
        local_property(ptype, off).len() == 0x30,
        lies(local_property(ptype, off), 0, le_bytes(ptype as nat, 8)),
        lies(local_property(ptype, off), 0x20, le_bytes(off as nat, 4)),
{
    let t = le_bytes(ptype as nat, 8);
    let o = le_bytes(off as nat, 4);
    lemma_le_bytes_len(ptype as nat, 8);
    lemma_le_bytes_len(off as nat, 4);
    let z = zeros(0x30);
    let a = placed(z, 0, t);
    lemma_placed(z, 0, t);
    lemma_placed(a, 0x20, o);
    lemma_apart(a, 0x20, o, 0, t);
}

/// A function that is made has its table, its two names, and the flags of a native
/// one, static or not.
pub proof fn functions_hold_their_names(vtable: nat, full: u64, short: u64, is_static: bool)
    ensures
        function_image(vtable, full, short, is_static).len() == 0xC0,
        lies(function_image(vtable, full, short, is_static), 0, le_bytes(vtable, 8)),
        lies(function_image(vtable, full, short, is_static), 0x08, le_bytes(full as nat, 8)),
        lies(function_image(vtable, full, short, is_static), 0x10, le_bytes(short as nat, 8)),
        lies(
            function_image(vtable, full, short, is_static),
            0xA8,
            le_bytes(
                if is_static {
                    5
                } else {
                    1
                },
                4,
            ),
        ),
{
    let v = le_bytes(vtable, 8);
    let f = le_bytes(full as nat, 8);
    let s = le_bytes(short as nat, 8);
    let g = le_bytes(
        if is_static {
            5
        } else {
            1
        },
        4,
    );
    lemma_le_bytes_len(vtable, 8);
    lemma_le_bytes_len(full as nat, 8);
    lemma_le_bytes_len(short as nat, 8);
    lemma_le_bytes_len(5, 4);
    lemma_le_bytes_len(1, 4);
    let z = zeros(0xC0);
    let a = placed(z, 0, v);
    let b = placed(a, 0x08, f);
    let c = placed(b, 0x10, s);
    lemma_placed(z, 0, v);
    lemma_placed(a, 0x08, f);
    lemma_placed(b, 0x10, s);
    lemma_placed(c, 0xA8, g);
    lemma_apart(a, 0x08, f, 0, v);
    lemma_apart(b, 0x10, s, 0, v);
    lemma_apart(c, 0xA8, g, 0, v);
    lemma_apart(b, 0x10, s, 0x08, f);
    lemma_apart(c, 0xA8, g, 0x08, f);
    lemma_apart(c, 0xA8, g, 0x10, s);
}

/// A list that grows at least doubles, and has room for four more.
pub proof fn lists_grow_with_room(cap: int, size: int)
    requires
        0 <= size <= cap,
        size + 4 <= u32::MAX,
    ensures
        grown(cap, size) >= size + 4,
        2 * cap <= u32::MAX ==> grown(cap, size) >= 2 * cap,
        grown(cap, size) == 2 * cap || grown(cap, size) == size + 4 || grown(cap, size) == u32::MAX,
{
}

/// A function is routed to the first handler that it was given, and none without one.
pub proof fn the_first_route_counts(list: Seq<(u64, u64)>, func: u64, i: int)
    ensures
        func != 0 && 0 <= i < list.len() && list[i].0 == func && (forall|k: int|
            0 <= k < i ==> (#[trigger] list[k]).0 != func) ==> route_of(list, func) == Some(
            list[i].1,
        ),
        (forall|k: int| 0 <= k < list.len() ==> (#[trigger] list[k]).0 != func) ==> route_of(
            list,
            func,
        ) is None,
        route_of(list, 0) is None,
{
    if func != 0 && 0 <= i < list.len() && list[i].0 == func && (forall|k: int|
        0 <= k < i ==> (#[trigger] list[k]).0 != func) {
        lemma_route_at(list, func, 0, i);
    }
    if forall|k: int| 0 <= k < list.len() ==> (#[trigger] list[k]).0 != func {
        lemma_no_route(list, func, 0);
    }
}

proof fn lemma_route_at(list: Seq<(u64, u64)>, func: u64, j: int, i: int)
    requires
        0 <= j <= i < list.len(),
        list[i].0 == func,
        forall|k: int| 0 <= k < i ==> (#[trigger] list[k]).0 != func,
    ensures
        route_from(list, func, j) == Some(list[i].1),
    decreases i - j,
{
    if j < i {
        assert(list[j].0 != func);
        lemma_route_at(list, func, j + 1, i);
    }
}

proof fn lemma_no_route(list: Seq<(u64, u64)>, func: u64, j: int)
    requires
        0 <= j <= list.len(),
        forall|k: int| 0 <= k < list.len() ==> (#[trigger] list[k]).0 != func,
    ensures
        route_from(list, func, j) is None,
    decreases list.len() - j,
{
    if j < list.len() {
        assert(list[j].0 != func);
        lemma_no_route(list, func, j + 1);
    }
}

// ---- parameters ------------------------------------------------------------

/// Every parameter that was read is kept, behind those before it, with the name of
/// its type: a scalar, and what the engine calls a name, an enumeration or a handle,
/// with its value, any other with none.
pub proof fn parameters_are_kept_in_order(
    run: ParamRunV,
    regs: crate::calls::FrameRegs,
    tname: u64,
    raw: Option<u64>,
)
    ensures
        ({
            let next = param_step(run, ParamEvent::Ran { regs, tname, raw }).0;
            &&& next.values.len() == run.values.len() + 1
            &&& next.values.take(run.values.len() as int) == run.values
            &&& next.values.last().1 == tname
            &&& raw is Some && (run.ertti == 9 || run.ertti == 10 || run.ertti == 5)
                ==> next.values.last().0 == raw->0
            &&& raw is Some && (tname == cname_of("CName"@) || tname == cname_of("Int32"@) || tname
                == cname_of("Uint32"@) || tname == cname_of("Int64"@) || tname == cname_of(
                "Uint64"@,
            ) || tname == cname_of("Float"@) || tname == cname_of("Bool"@) || tname == cname_of(
                "TweakDBID"@,
            ) || tname == cname_of("EntityID"@)) ==> next.values.last().0 == raw->0
            &&& raw is None ==> next.values.last().0 == 0
            &&& next.now == regs
        }),
        ({
            let step = param_step(run, ParamEvent::Ran { regs, tname, raw }).1;
            &&& run.values.len() + 1 < run.count ==> step is Instance
            &&& run.values.len() + 1 >= run.count ==> step is Finish
        }),
{
    let next = param_step(run, ParamEvent::Ran { regs, tname, raw }).0;
    assert(next.values.take(run.values.len() as int) =~= run.values);
}

} // verus!
