//! Where the engine keeps what is asked of it, and where what is made for it has its
//! parts.
use vstd::prelude::*;

use crate::call_laws::{lemma_apart, lemma_placed, lies};
use crate::calls::{placed, zeros};
use crate::classes::{has_objects, methods_of, outcome_of, parent_of, ClassOutcome, ForgedClass};
use crate::cursor::{le_bytes, lemma_le_bytes_len};
use crate::forge::{donor_of, first_sane, instance_image, property_image, with_properties, Donor};
use crate::live::flat_address;
use crate::memory::{is_sane, readable, word, word_or_zero, RegionV};
use crate::natives::{
    bits16_natives, bits32_natives, bits64_natives, bits8_natives, borrowed, typed, with_params,
    NativeV,
};
use crate::probes::{array_at, ArrayAt};
use crate::reflect::{
    inner_type_of, live_value, member_at, name_getter, param_type_of, registry_at, row_at,
    size_getter, stored_name, validator_call, NameCall, ProbeRow, Registry,
};
use crate::rtti::{aligned_up, alloc_plan, enum_value, property_of_class, return_type};

verus! {

// ---- types -----------------------------------------------------------------

/// A type keeps its inner type sixteen bytes in, and its name eight further; one that
/// cannot be read has neither.
pub proof fn types_keep_their_parts(m: Seq<RegionV>, ty: u64, v: nat)
    ensures
        ty != 0 && readable(m, ty as int, 0x18) && word(m, ty + 16, 8) == Some(v) ==> inner_type_of(
            m,
            ty,
        ) == v,
        ty != 0 && readable(m, ty as int, 0x20) && word(m, ty + 24, 8) == Some(v) ==> stored_name(
            m,
            ty,
        ) == v,
        ty == 0 || !readable(m, ty as int, 0x18) ==> inner_type_of(m, ty) == 0,
        ty == 0 || !readable(m, ty as int, 0x20) ==> stored_name(m, ty) == 0,
{
}

/// The functions of a type stand in its table: the one for its name third, the one for
/// its size fourth.
pub proof fn types_have_their_functions(m: Seq<RegionV>, ty: u64, vt: nat, g: nat)
    requires
        ty != 0,
        word(m, ty as int, 8) == Some(vt),
        vt != 0,
        is_sane(g as int),
    ensures
        readable(m, ty as int, 0x18) && readable(m, vt as int, 0x18) && word(m, vt as int + 16, 8)
            == Some(g) ==> name_getter(m, ty) == Some(g),
        word(m, vt as int + 24, 8) == Some(g) ==> size_getter(m, ty) == Some(g),
{
}

/// The registry finds classes by the third function of its table, and enumerations by
/// the fourth.
pub proof fn registries_have_their_functions(
    m: Seq<RegionV>,
    reg: u64,
    vtbl: u64,
    get_class: u64,
    get_enum: u64,
)
    requires
        reg != 0,
        vtbl != 0,
        word(m, reg as int, 8) == Some(vtbl as nat),
        word(m, vtbl + 16, 8) == Some(get_class as nat),
        word(m, vtbl + 24, 8) == Some(get_enum as nat),
    ensures
        get_class != 0 && get_enum != 0 ==> registry_at(m, reg) == Some(
            Registry { reg, vtbl, get_class, get_enum },
        ),
        get_class == 0 || get_enum == 0 ==> registry_at(m, reg) is None,
{
}

/// A validator is asked for a class by the function in its table for that.
pub proof fn validators_are_asked_by_name(
    m: Seq<RegionV>,
    validator: u64,
    name: u64,
    vt: nat,
    func: u64,
)
    requires
        validator != 0,
        readable(m, validator as int, 8),
        word(m, validator as int, 8) == Some(vt),
        vt != 0,
        readable(m, vt as int + 264, 8),
        word(m, vt as int + 264, 8) == Some(func as nat),
    ensures
        is_sane(func as int) ==> validator_call(m, validator, name) == Some(
            NameCall { func, this: validator, name },
        ),
        !is_sane(func as int) ==> validator_call(m, validator, name) is None,
{
}

/// The type of a parameter is the type of its property, which the entries lead to in
/// order; the type that a function returns is that of its return property.
pub proof fn parameters_have_their_types(
    m: Seq<RegionV>,
    entries: u64,
    i: int,
    prop: nat,
    ty: nat,
    f: int,
)
    requires
        is_sane(prop as int),
        word(m, prop as int, 8) == Some(ty),
    ensures
        entries != 0 && word(m, entries + 8 * i, 8) == Some(prop) && is_sane(ty as int) && readable(
            m,
            ty as int,
            0x20,
        ) ==> param_type_of(m, entries, i) == ty,
        word(m, f + 24, 8) == Some(prop) ==> return_type(m, f) == ty,
        word_or_zero(m, f + 24, 8) == 0 ==> return_type(m, f) == 0,
{
}

/// A member of an object lies where its property says, from the start of the object.
pub proof fn members_lie_at_their_offset(
    m: Seq<RegionV>,
    obj: u64,
    cls: u64,
    name: Seq<char>,
    p: nat,
    off: nat,
    v: u32,
)
    requires
        obj != 0,
        property_of_class(m, cls as int, name) == Some(p),
        word(m, p as int + 32, 4) == Some(off),
    ensures
        member_at(m, obj, cls, name) == Some(obj + off),
        member_at(m, 0, cls, name) is None,
        off <= u32::MAX && word(m, obj + off, 4) == Some(v as nat) ==> live_value(
            m,
            obj,
            off as u32,
        ) == Some(v),
{
}

/// A row on a property holds its name, its offset and its type.
pub proof fn rows_hold_the_property(
    m: Seq<RegionV>,
    pp: nat,
    i: nat,
    name: u64,
    off: u32,
    ty: u64,
)
    requires
        word(m, pp as int + 8, 8) == Some(name as nat),
        word(m, pp as int + 32, 4) == Some(off as nat),
        word(m, pp as int, 8) == Some(ty as nat),
    ensures
        row_at(m, pp, i) == (ProbeRow {
            index: i as u32,
            prop: pp as u64,
            name,
            offset: off,
            ty,
        }),
{
}

/// The place of an object is as large as its class says, and aligned by a power of
/// two that is eight at least.
pub proof fn objects_have_room_for_their_class(
    get_size: u64,
    construct: u64,
    size: u32,
    get_align: u64,
    align: u32,
)
    ensures
        alloc_plan(get_size, construct, size, get_align, align) is Some <==> is_sane(
            get_size as int,
        ) && is_sane(construct as int) && 0 < size <= 1_000_000,
        alloc_plan(get_size, construct, size, get_align, align) is Some ==> (alloc_plan(
            get_size,
            construct,
            size,
            get_align,
            align,
        )->0).size == size,
        alloc_plan(get_size, construct, size, get_align, align) is Some && (align <= 8 || !is_sane(
            get_align as int,
        )) ==> (alloc_plan(get_size, construct, size, get_align, align)->0).align == 8,
        aligned_up(align as int, 8) >= align,
        aligned_up(align as int, 8) % 8 == 0,
        align > 8 ==> aligned_up(align as int, 8) < 2 * align,
{
    lemma_aligned(align as int, 8);
}

proof fn lemma_aligned(a: int, p: int)
    requires
        p > 0,
        p % 8 == 0,
    ensures
        aligned_up(a, p) >= a,
        aligned_up(a, p) % 8 == 0,
        p < a ==> aligned_up(a, p) < 2 * a,
        p >= a ==> aligned_up(a, p) == p,
    decreases
            (if p < a {
                a - p
            } else {
                0
            }),
{
    if p < a {
        lemma_aligned(a, 2 * p);
    }
}

// ---- arrays and flats ------------------------------------------------------

/// An array is a pointer, its capacity and its count, one behind another.
pub proof fn arrays_are_their_words(
    m: Seq<RegionV>,
    base: int,
    off: nat,
    ptr: u64,
    cap: u32,
    count: u32,
)
    requires
        word(m, base + off, 8) == Some(ptr as nat),
        word(m, base + off + 8, 4) == Some(cap as nat),
        word(m, base + off + 12, 4) == Some(count as nat),
        off <= u64::MAX,
    ensures
        ptr >= 0x1_1000_0000 && 0 < count <= cap && cap < 100_000 && readable(m, ptr as int, 8)
            ==> array_at(m, base, off) == Some(ArrayAt { off: off as u64, ptr, cap, count }),
        ptr == 0 || count == 0 || count > cap || cap >= 100_000 || !readable(m, ptr as int, 8)
            || 0x1_0000_0000 <= ptr < 0x1_1000_0000 ==> array_at(m, base, off) is None,
{
}

/// Without entries, without a buffer, or with an absurd number of entries no flat has
/// an address.
pub proof fn flats_need_their_table(m: Seq<RegionV>, t: int, name: Seq<char>)
    ensures
        word_or_zero(m, t + 64, 8) == 0 ==> flat_address(m, t, name) is None,
        word_or_zero(m, t + 72, 4) == 0 ==> flat_address(m, t, name) is None,
        word_or_zero(m, t + 72, 4) > 10_000_000 ==> flat_address(m, t, name) is None,
        word_or_zero(m, t + 328, 8) == 0 ==> flat_address(m, t, name) is None,
        flat_address(m, t, name) is Some ==> readable(m, flat_address(m, t, name)->0, 24),
{
}

/// The value of an enumeration needs both of its lists, of names and of values.
pub proof fn enumerations_need_their_lists(m: Seq<RegionV>, en: int, name: u64)
    ensures
        word_or_zero(m, en + 40, 8) == 0 ==> enum_value(m, en, name) is None,
        word_or_zero(m, en + 56, 8) == 0 ==> enum_value(m, en, name) is None,
        word_or_zero(m, en + 48, 4) == 0 ==> enum_value(m, en, name) is None,
        enum_value(m, 0, name) is None,
{
}

// ---- what is made ----------------------------------------------------------

/// A property that is made holds its type, its name, its class and its offset.
pub proof fn properties_hold_their_words(ftype: u64, name: u64, class: u64, off: u32)
    ensures
        property_image(ftype, name, class, off as int).len() == 48,
        lies(property_image(ftype, name, class, off as int), 0, le_bytes(ftype as nat, 8)),
        lies(property_image(ftype, name, class, off as int), 8, le_bytes(name as nat, 8)),
        lies(property_image(ftype, name, class, off as int), 24, le_bytes(class as nat, 8)),
        lies(property_image(ftype, name, class, off as int), 32, le_bytes(off as nat, 4)),
{
    let t = le_bytes(ftype as nat, 8);
    let n = le_bytes(name as nat, 8);
    let c = le_bytes(class as nat, 8);
    let o = le_bytes(off as nat, 4);
    lemma_le_bytes_len(ftype as nat, 8);
    lemma_le_bytes_len(name as nat, 8);
    lemma_le_bytes_len(class as nat, 8);
    lemma_le_bytes_len(off as nat, 4);
    let z = zeros(0x30);
    let x = placed(z, 0, t);
    let y = placed(x, 0x08, n);
    let w = placed(y, 0x18, c);
    lemma_placed(z, 0, t);
    lemma_placed(x, 0x08, n);
    lemma_placed(y, 0x18, c);
    lemma_placed(w, 0x20, o);
    lemma_apart(x, 0x08, n, 0, t);
    lemma_apart(y, 0x18, c, 0, t);
    lemma_apart(w, 0x20, o, 0, t);
    lemma_apart(y, 0x18, c, 8, n);
    lemma_apart(w, 0x20, o, 8, n);
    lemma_apart(w, 0x20, o, 24, c);
}

/// A class gets its list of properties: where it lies, for how many there is room, and
/// how many there are. A function gets its list of parameters in the same way.
pub proof fn lists_are_hung_in(image: Seq<u8>, buffer: u64, cap: u32, size: u32)
    requires
        image.len() >= 56,
    ensures
        with_properties(image, buffer, cap, size).len() == image.len(),
        lies(with_properties(image, buffer, cap, size), 40, le_bytes(buffer as nat, 8)),
        lies(with_properties(image, buffer, cap, size), 48, le_bytes(cap as nat, 4)),
        lies(with_properties(image, buffer, cap, size), 52, le_bytes(size as nat, 4)),
        lies(with_params(image, buffer, size), 40, le_bytes(buffer as nat, 8)),
        lies(with_params(image, buffer, size), 48, le_bytes(size as nat, 4)),
{
    let b = le_bytes(buffer as nat, 8);
    let c = le_bytes(cap as nat, 4);
    let s = le_bytes(size as nat, 4);
    lemma_le_bytes_len(buffer as nat, 8);
    lemma_le_bytes_len(cap as nat, 4);
    lemma_le_bytes_len(size as nat, 4);
    let x = placed(image, 0x28, b);
    let y = placed(x, 0x30, c);
    lemma_placed(image, 0x28, b);
    lemma_placed(x, 0x30, c);
    lemma_placed(y, 0x34, s);
    lemma_apart(x, 0x30, c, 40, b);
    lemma_apart(y, 0x34, s, 40, b);
    lemma_apart(y, 0x34, s, 48, c);
    lemma_placed(x, 0x30, s);
    lemma_apart(x, 0x30, s, 40, b);
}

/// A class that is made from another has its table, its own name, its size twice, and
/// its alignment.
pub proof fn classes_are_made_from_their_donor(d: Donor, name: u64, size: u32)
    ensures
        lies(instance_image(d, name, size as int), 0, le_bytes(d.vtable as nat, 8)),
        lies(instance_image(d, name, size as int), 24, le_bytes(name as nat, 8)),
        lies(instance_image(d, name, size as int), 104, le_bytes(size as nat, 4)),
        lies(instance_image(d, name, size as int), 108, le_bytes(size as nat, 4)),
        lies(instance_image(d, name, size as int), 112, le_bytes(2, 4)),
        lies(instance_image(d, name, size as int), 116, le_bytes(d.align as nat, 4)),
{
    let v = le_bytes(d.vtable as nat, 8);
    let n = le_bytes(name as nat, 8);
    let s = le_bytes(size as nat, 4);
    let f = le_bytes(2, 4);
    let a = le_bytes(d.align as nat, 4);
    lemma_le_bytes_len(d.vtable as nat, 8);
    lemma_le_bytes_len(name as nat, 8);
    lemma_le_bytes_len(size as nat, 4);
    lemma_le_bytes_len(2, 4);
    lemma_le_bytes_len(d.align as nat, 4);
    let z = zeros(0x2D0);
    let i1 = placed(z, 0, v);
    let i2 = placed(i1, 0x18, n);
    let i3 = placed(i2, 0x68, s);
    let i4 = placed(i3, 0x6C, s);
    let i5 = placed(i4, 0x70, f);
    lemma_placed(z, 0, v);
    lemma_placed(i1, 0x18, n);
    lemma_placed(i2, 0x68, s);
    lemma_placed(i3, 0x6C, s);
    lemma_placed(i4, 0x70, f);
    lemma_placed(i5, 0x74, a);
    lemma_apart(i1, 0x18, n, 0, v);
    lemma_apart(i2, 0x68, s, 0, v);
    lemma_apart(i3, 0x6C, s, 0, v);
    lemma_apart(i4, 0x70, f, 0, v);
    lemma_apart(i5, 0x74, a, 0, v);
    lemma_apart(i2, 0x68, s, 24, n);
    lemma_apart(i3, 0x6C, s, 24, n);
    lemma_apart(i4, 0x70, f, 24, n);
    lemma_apart(i5, 0x74, a, 24, n);
    lemma_apart(i3, 0x6C, s, 104, s);
    lemma_apart(i4, 0x70, f, 104, s);
    lemma_apart(i5, 0x74, a, 104, s);
    lemma_apart(i4, 0x70, f, 108, s);
    lemma_apart(i5, 0x74, a, 108, s);
    lemma_apart(i5, 0x74, a, 112, f);
}

/// A class can be made from another that has a table and a size that is not absurd;
/// an alignment that is absurd counts as eight.
pub proof fn donors_have_table_and_size(m: Seq<RegionV>, src: u64, vt: u64, size: u32, align: u32)
    requires
        word(m, src as int, 8) == Some(vt as nat),
        word(m, src + 104, 4) == Some(size as nat),
        word(m, src + 116, 4) == Some(align as nat),
    ensures
        vt != 0 && 0 < size <= 0x10000 && 0 < align <= 64 ==> donor_of(m, src) == Some(
            Donor { vtable: vt, size, align },
        ),
        vt != 0 && 0 < size <= 0x10000 && (align == 0 || align > 64) ==> donor_of(m, src) == Some(
            Donor { vtable: vt, size, align: 8 },
        ),
        vt == 0 || size == 0 || size > 0x10000 ==> donor_of(m, src) is None,
{
}

/// The first address that can be one is taken.
pub proof fn the_first_sane_address_is_taken(list: Seq<u64>, j: int, i: int)
    requires
        0 <= j <= i < list.len(),
        is_sane(list[i] as int),
        forall|k: int| j <= k < i ==> !is_sane(#[trigger] list[k] as int),
    ensures
        first_sane(list, j) == Some(list[i]),
    decreases i - j,
{
    if j < i {
        assert(!is_sane(list[j] as int));
        the_first_sane_address_is_taken(list, j + 1, i);
    }
}

/// The parameters that are borrowed from another function are those that its list
/// leads to, in order.
pub proof fn parameters_are_borrowed_in_order(m: Seq<RegionV>, proto: u64, i: u32, entries: nat, p: nat)
    requires
        word_or_zero(m, proto + 40, 8) == entries,
        entries != 0,
        word(m, entries + 8 * i, 8) == Some(p),
    ensures
        borrowed(m, proto, i) == p,
{
}

// ---- classes ---------------------------------------------------------------

/// The events of the callback system are events, its systems are systems of the game,
/// and all else is scriptable.
pub proof fn classes_have_their_parents(c: ForgedClass)
    ensures
        c is KeyInputEvent || c is GameSessionEvent || c is EntityLifecycleEvent || c
            is ResourceEvent <==> parent_of(c) == "CallbackSystemEvent"@,
        c is CallbackSystem || c is ScriptableServiceContainer <==> parent_of(c)
            == "IGameSystem"@,
        c is ScriptableService || c is CallbackSystemTarget || c is CallbackSystemHandler || c
            is CallbackSystemEvent <==> parent_of(c) == "IScriptable"@,
        !has_objects(c) <==> c is ScriptableService || c is CallbackSystemTarget || c
            is CallbackSystemEvent,
        methods_of(c).len() == 0 <==> c is ScriptableService || c is CallbackSystemTarget,
{
    reveal_strlit("CallbackSystemEvent");
    reveal_strlit("IGameSystem");
    reveal_strlit("IScriptable");
    assert("CallbackSystemEvent"@.len() == 19);
    assert("IGameSystem"@.len() == 11 && "IGameSystem"@[1] == 'G');
    assert("IScriptable"@.len() == 11 && "IScriptable"@[1] == 'S');
}

/// A class is made where its parent is there, if it has objects, where it could be
/// registered, and where its methods have something to be made after.
pub proof fn classes_are_made_in_order(c: ForgedClass, parent: u64, made: u64, proto: bool)
    ensures
        outcome_of(c, parent, made, proto) == ClassOutcome::Made <==> (has_objects(c) ==> is_sane(
            parent as int,
        )) && made != 0 && (methods_of(c).len() > 0 ==> proto),
        has_objects(c) && !is_sane(parent as int) ==> outcome_of(c, parent, made, proto)
            == ClassOutcome::NoParent,
{
}

/// The natives on bits take a number of their width and a place, and the one that
/// sets a bit also what it is set to.
pub proof fn natives_on_bits_take_their_width()
    ensures
        takes_bits(bits8_natives(), "Uint8"@),
        takes_bits(bits16_natives(), "Uint16"@),
        takes_bits(bits32_natives(), "Uint32"@),
        takes_bits(bits64_natives(), "Uint64"@),
{
}

pub open spec fn takes_bits(t: Seq<NativeV>, number: Seq<char>) -> bool {
    &&& t.len() == 4
    &&& t[0] == typed(t[0].name, seq![number, "Int32"@])
    &&& t[1] == typed(t[1].name, seq![number, "Int32"@, "Bool"@])
    &&& t[2] == typed(t[2].name, seq![number, "Int32"@])
    &&& t[3] == typed(t[3].name, seq![number, "Int32"@])
}

} // verus!
