//! Walking the engine's type information: functions and properties of a class
//! and of the classes it derives from, enum values, and where a field's value
//! lies.
use vstd::prelude::*;
use vstd::utf8::encode_utf8;

use crate::hashes::{fnv1a64, fnv64_from};
use crate::memory::{is_sane, readable, sane, word, word_or_zero, Memory, RegionV};
use crate::text::{after_prefix, chars_of, string_of, strip_prefix};
use crate::targets::Image;

verus! {

// ---- names -----------------------------------------------------------------

/// The engine's hash of a name.
pub open spec fn cname_of(name: Seq<char>) -> u64 {
    fnv64_from(encode_utf8(name), 0xcbf2_9ce4_8422_2325)
}

pub fn cname(name: &str) -> (r: u64)
    ensures
        r == cname_of(name@),
{
    fnv1a64(name.as_bytes())
}

/// How many classes a walk up the hierarchy looks at.
pub open spec fn max_depth() -> nat {
    64
}

// ---- functions -------------------------------------------------------------

/// A function that was found: the address of its object, of its return type,
/// and whether it is static.
#[derive(Clone, Copy, PartialEq, Eq, Structural)]
pub struct ResolvedFn {
    pub func: u64,
    pub ret_type: u64,
    pub is_static: bool,
}

/// The return type of a function object: what its return property points to.
pub open spec fn return_type(m: Seq<RegionV>, f: int) -> nat {
    let rp = word_or_zero(m, f + 0x18, 8);
    if rp == 0 {
        0
    } else {
        word_or_zero(m, rp as int, 8)
    }
}

/// The first function object from slot `i` on with that short name. An unreadable
/// slot ends the search; an unreadable object is passed over.
pub open spec fn function_in(m: Seq<RegionV>, slots: int, n: nat, name: u64, i: nat) -> Option<nat>
    decreases n - i,
{
    if i >= n || !readable(m, slots + 8 * i, 8) {
        None
    } else {
        let f = word_or_zero(m, slots + 8 * i, 8);
        if f != 0 && readable(m, f as int, 0x20) && word_or_zero(m, f as int + 0x10, 8) == name {
            Some(f)
        } else {
            function_in(m, slots, n, name, i + 1)
        }
    }
}

/// The function with that name in one table of a class.
pub open spec fn function_in_table(m: Seq<RegionV>, cls: int, off: int, name: u64) -> Option<nat> {
    let slots = word_or_zero(m, cls + off, 8);
    let n = word_or_zero(m, cls + off + 8, 4);
    if slots != 0 && n < 20_000 && readable(m, slots as int, 8) {
        function_in(m, slots as int, n, name, 0)
    } else {
        None
    }
}

/// The function with that name in a class or in one that it derives from:
/// instance functions first, then static ones.
pub open spec fn function_from(m: Seq<RegionV>, cls: int, name: u64, depth: nat) -> Option<
    ResolvedFn,
>
    decreases max_depth() - depth,
{
    if cls == 0 || depth >= max_depth() || !readable(m, cls, 0x60) {
        None
    } else {
        match function_in_table(m, cls, 0x48, name) {
            Some(f) => Some(
                ResolvedFn {
                    func: f as u64,
                    ret_type: return_type(m, f as int) as u64,
                    is_static: false,
                },
            ),
            None => match function_in_table(m, cls, 0x58, name) {
                Some(f) => Some(
                    ResolvedFn {
                        func: f as u64,
                        ret_type: return_type(m, f as int) as u64,
                        is_static: true,
                    },
                ),
                None => function_from(
                    m,
                    word_or_zero(m, cls + 0x10, 8) as int,
                    name,
                    depth + 1,
                ),
            },
        }
    }
}

fn find_in_table(m: &Memory, cls: u64, off: u64, name: u64) -> (r: Option<u64>)
    requires
        off <= 0x1000,
    ensures
        match r {
            Some(f) => function_in_table(m@, cls as int, off as int, name) == Some(f as nat),
            None => function_in_table(m@, cls as int, off as int, name) is None,
        },
{
    let at: u128 = cls as u128 + off as u128;
    let slots: u64 = m.u64_or_zero(at);
    let n: u32 = m.u32_or_zero(at + 8);
    if slots == 0 || n >= 20_000 || !m.is_readable(slots as u128, 8) {
        return None;
    }
    let mut i: u32 = 0;
    while i < n
        invariant
            i <= n < 20_000,
            function_in(m@, slots as int, n as nat, name, 0) == function_in(
                m@,
                slots as int,
                n as nat,
                name,
                i as nat,
            ),
            function_in_table(m@, cls as int, off as int, name) == function_in(
                m@,
                slots as int,
                n as nat,
                name,
                0,
            ),
        decreases n - i,
    {
        let slot: u128 = slots as u128 + 8 * (i as u128);
        if !m.is_readable(slot, 8) {
            return None;
        }
        let f: u64 = m.u64_or_zero(slot);
        if f != 0 && m.is_readable(f as u128, 0x20) && m.u64_or_zero(f as u128 + 0x10) == name {
            return Some(f);
        }
        i += 1;
    }
    None
}

fn return_type_of(m: &Memory, f: u64) -> (r: u64)
    ensures
        r == return_type(m@, f as int),
{
    let rp: u64 = m.u64_or_zero(f as u128 + 0x18);
    if rp == 0 {
        0
    } else {
        m.u64_or_zero(rp as u128)
    }
}

/// Finds a function by the hash of its name.
pub fn resolve_in_class(m: &Memory, cls0: u64, name: u64) -> (r: Option<ResolvedFn>)
    ensures
        r == function_from(m@, cls0 as int, name, 0),
{
    let mut cls: u64 = cls0;
    let mut depth: u32 = 0;
    while cls != 0 && depth < 64 && m.is_readable(cls as u128, 0x60)
        invariant
            depth <= 64,
            function_from(m@, cls0 as int, name, 0) == function_from(
                m@,
                cls as int,
                name,
                depth as nat,
            ),
        decreases 64 - depth,
    {
        if let Some(f) = find_in_table(m, cls, 0x48, name) {
            return Some(
                ResolvedFn { func: f, ret_type: return_type_of(m, f), is_static: false },
            );
        }
        if let Some(f) = find_in_table(m, cls, 0x58, name) {
            return Some(ResolvedFn { func: f, ret_type: return_type_of(m, f), is_static: true });
        }
        cls = m.u64_or_zero(cls as u128 + 0x10);
        depth += 1;
    }
    None
}

/// The first of the classes that has the function.
pub open spec fn function_of_any(m: Seq<RegionV>, classes: Seq<u64>, name: u64, i: int) -> Option<
    ResolvedFn,
>
    decreases classes.len() - i,
{
    if i >= classes.len() {
        None
    } else {
        match function_from(m, classes[i] as int, name, 0) {
            Some(f) => Some(f),
            None => function_of_any(m, classes, name, i + 1),
        }
    }
}

pub fn resolve_any(m: &Memory, classes: &Vec<u64>, name: u64) -> (r: Option<ResolvedFn>)
    ensures
        r == function_of_any(m@, classes@, name, 0),
{
    let mut i: usize = 0;
    while i < classes.len()
        invariant
            i <= classes@.len(),
            function_of_any(m@, classes@, name, 0) == function_of_any(
                m@,
                classes@,
                name,
                i as int,
            ),
        decreases classes@.len() - i,
    {
        let r = resolve_in_class(m, classes[i], name);
        if r.is_some() {
            return r;
        }
        i += 1;
    }
    None
}

/// The number of parameters of a function object.
pub fn param_count(m: &Memory, func: u64) -> (r: u32)
    ensures
        r == word_or_zero(m@, func + 0x30, 4),
{
    m.u32_or_zero(func as u128 + 0x30)
}

/// The return property of a function object, where the object can be read.
pub fn fn_ret_type(m: &Memory, func: u64) -> (r: u64)
    ensures
        r == (if func == 0 || !readable(m@, func as int, 0x20) {
            0
        } else {
            word_or_zero(m@, func + 0x18, 8)
        }),
{
    if func == 0 || !m.is_readable(func as u128, 0x20) {
        0
    } else {
        m.u64_or_zero(func as u128 + 0x18)
    }
}

/// Does the function return nothing? One that cannot be read is not said to.
pub fn fn_returns_void(m: &Memory, func: u64) -> (r: bool)
    ensures
        r == (func != 0 && readable(m@, func as int, 0x20) && word_or_zero(m@, func + 0x18, 8)
            == 0),
{
    func != 0 && m.is_readable(func as u128, 0x20) && m.u64_or_zero(func as u128 + 0x18) == 0
}

// ---- properties by trial ---------------------------------------------------

/// Where a class may keep its table of properties, in the order of trial.
pub open spec fn table_offsets() -> Seq<int> {
    seq![0x28, 0x30, 0x38, 0x40, 0x20, 0x18, 0x60, 0x68, 0x70]
}

/// Is there a plausible table of properties: a pointer and a count, where the
/// first entry has a name and a small offset?
pub open spec fn table_at(m: Seq<RegionV>, at: int) -> Option<(nat, nat)> {
    match word(m, at, 8) {
        None => None,
        Some(arr) => match word(m, at + 8, 4) {
            None => None,
            Some(n) => {
                let p0 = word_or_zero(m, arr as int, 8);
                if arr != 0 && 0 < n <= 20_000 && word(m, arr as int, 8) is Some && p0 != 0
                    && readable(m, p0 as int, 0x30) && word_or_zero(m, p0 as int + 0x08, 8) != 0
                    && word_or_zero(m, p0 as int + 0x20, 4) < 0x10000 {
                    Some((arr, n))
                } else {
                    None
                }
            },
        },
    }
}

/// The first plausible table from trial `k` on.
pub open spec fn table_from(m: Seq<RegionV>, cls: int, k: int) -> Option<(nat, nat)>
    decreases table_offsets().len() - k,
{
    if k >= table_offsets().len() {
        None
    } else {
        match table_at(m, cls + table_offsets()[k]) {
            Some(t) => Some(t),
            None => table_from(m, cls, k + 1),
        }
    }
}

/// The table of properties of a class.
pub open spec fn property_table(m: Seq<RegionV>, cls: int) -> Option<(nat, nat)> {
    if readable(m, cls, 0x80) {
        table_from(m, cls, 0)
    } else {
        None
    }
}

fn try_table(m: &Memory, at: u128) -> (r: Option<(u64, u32)>)
    requires
        at <= 0x1_0000_0000_0000_0000_0000,
    ensures
        match r {
            Some((arr, n)) => table_at(m@, at as int) == Some((arr as nat, n as nat)),
            None => table_at(m@, at as int) is None,
        },
{
    let arr: u64 = match m.read_u64(at) {
        None => {
            return None;
        },
        Some(v) => v,
    };
    let n: u32 = match m.read_u32(at + 8) {
        None => {
            return None;
        },
        Some(v) => v,
    };
    if arr == 0 || n == 0 || n > 20_000 {
        return None;
    }
    let p0: u64 = match m.read_u64(arr as u128) {
        None => {
            return None;
        },
        Some(v) => v,
    };
    if p0 == 0 || !m.is_readable(p0 as u128, 0x30) {
        return None;
    }
    if m.u64_or_zero(p0 as u128 + 0x08) != 0 && m.u32_or_zero(p0 as u128 + 0x20) < 0x10000 {
        Some((arr, n))
    } else {
        None
    }
}

fn offset_at(k: usize) -> (r: u64)
    requires
        k < 9,
    ensures
        r == table_offsets()[k as int],
        r <= 0x70,
{
    match k {
        0 => 0x28,
        1 => 0x30,
        2 => 0x38,
        3 => 0x40,
        4 => 0x20,
        5 => 0x18,
        6 => 0x60,
        7 => 0x68,
        _ => 0x70,
    }
}

/// Finds the table of properties of a class: its address and its length.
pub fn props_array(m: &Memory, cls: u64) -> (r: Option<(u64, u32)>)
    ensures
        match r {
            Some((arr, n)) => property_table(m@, cls as int) == Some((arr as nat, n as nat)),
            None => property_table(m@, cls as int) is None,
        },
{
    if !m.is_readable(cls as u128, 0x80) {
        return None;
    }
    let mut k: usize = 0;
    while k < 9
        invariant
            k <= 9,
            readable(m@, cls as int, 0x80),
            table_from(m@, cls as int, 0) == table_from(m@, cls as int, k as int),
        decreases 9 - k,
    {
        let t = try_table(m, cls as u128 + offset_at(k) as u128);
        if t.is_some() {
            return t;
        }
        k += 1;
    }
    None
}

/// The first property object from entry `i` on with that name.
pub open spec fn property_in(m: Seq<RegionV>, arr: int, n: nat, name: u64, i: nat) -> Option<nat>
    decreases n - i,
{
    if i >= n {
        None
    } else {
        match word(m, arr + 8 * i, 8) {
            None => None,
            Some(p) => if p != 0 && readable(m, p as int, 0x30) && word_or_zero(m, p as int + 0x08, 8)
                == name {
                Some(p)
            } else {
                property_in(m, arr, n, name, i + 1)
            },
        }
    }
}

/// The property with that name in a class or in one that it derives from.
pub open spec fn property_from(m: Seq<RegionV>, cls: int, name: u64, depth: nat) -> Option<nat>
    decreases max_depth() - depth,
{
    if cls == 0 || depth >= max_depth() {
        None
    } else {
        let here = match property_table(m, cls) {
            Some((arr, n)) => property_in(m, arr as int, n, name, 0),
            None => None,
        };
        match here {
            Some(p) => Some(p),
            None => if readable(m, cls, 0x18) {
                property_from(m, word_or_zero(m, cls + 0x10, 8) as int, name, depth + 1)
            } else {
                None
            },
        }
    }
}

/// The property of a class by name. Where there is none, a leading `m_` is
/// dropped and the search repeated.
pub open spec fn property_of_class(m: Seq<RegionV>, cls: int, prop: Seq<char>) -> Option<nat> {
    match property_from(m, cls, cname_of(prop), 0) {
        Some(p) => Some(p),
        None => match after_prefix(prop, "m_"@) {
            Some(rest) => property_from(m, cls, cname_of(rest), 0),
            None => None,
        },
    }
}

fn find_in_props(m: &Memory, arr: u64, n: u32, name: u64) -> (r: Option<u64>)
    ensures
        match r {
            Some(p) => property_in(m@, arr as int, n as nat, name, 0) == Some(p as nat),
            None => property_in(m@, arr as int, n as nat, name, 0) is None,
        },
{
    let mut i: u32 = 0;
    while i < n
        invariant
            i <= n,
            property_in(m@, arr as int, n as nat, name, 0) == property_in(
                m@,
                arr as int,
                n as nat,
                name,
                i as nat,
            ),
        decreases n - i,
    {
        let p: u64 = match m.read_u64(arr as u128 + 8 * (i as u128)) {
            None => {
                return None;
            },
            Some(p) => p,
        };
        if p != 0 && m.is_readable(p as u128, 0x30) && m.u64_or_zero(p as u128 + 0x08) == name {
            return Some(p);
        }
        i += 1;
    }
    None
}

fn find_prop_exact(m: &Memory, cls0: u64, name: u64) -> (r: Option<u64>)
    ensures
        match r {
            Some(p) => property_from(m@, cls0 as int, name, 0) == Some(p as nat),
            None => property_from(m@, cls0 as int, name, 0) is None,
        },
{
    let mut cls: u64 = cls0;
    let mut depth: u32 = 0;
    while cls != 0 && depth < 64
        invariant
            depth <= 64,
            property_from(m@, cls0 as int, name, 0) == property_from(
                m@,
                cls as int,
                name,
                depth as nat,
            ),
        decreases 64 - depth,
    {
        if let Some((arr, n)) = props_array(m, cls) {
            if let Some(p) = find_in_props(m, arr, n, name) {
                return Some(p);
            }
        }
        if !m.is_readable(cls as u128, 0x18) {
            return None;
        }
        cls = m.u64_or_zero(cls as u128 + 0x10);
        depth += 1;
    }
    None
}

/// Finds a property of a class by name, with or without the prefix `m_`.
pub fn find_property_in_class(m: &Memory, cls: u64, prop: &str) -> (r: Option<u64>)
    ensures
        match r {
            Some(p) => property_of_class(m@, cls as int, prop@) == Some(p as nat),
            None => property_of_class(m@, cls as int, prop@) is None,
        },
{
    if let Some(p) = find_prop_exact(m, cls, cname(prop)) {
        return Some(p);
    }
    let v = chars_of(prop);
    if let Some(rest) = strip_prefix(v.as_slice(), "m_") {
        let s = string_of(rest);
        return find_prop_exact(m, cls, cname(s.as_str()));
    }
    None
}

/// A property that is found under its own name is the one that is used, whatever
/// the name without the prefix would yield.
pub proof fn exact_name_wins(m: Seq<RegionV>, cls: int, prop: Seq<char>)
    requires
        property_from(m, cls, cname_of(prop), 0) is Some,
    ensures
        property_of_class(m, cls, prop) == property_from(m, cls, cname_of(prop), 0),
{
}

// ---- fields ----------------------------------------------------------------

/// A field: the offset of its value, its type, and whether the value lies in
/// the object's value holder.
#[derive(Clone, Copy, PartialEq, Eq, Structural)]
pub struct Field {
    pub offset: u32,
    pub ty: u64,
    pub in_holder: bool,
}

/// Is the flag of values in the value holder set?
pub open spec fn holder_flag(flags: nat) -> bool {
    (flags / 0x20_0000) % 2 == 1
}

pub open spec fn field_at(m: Seq<RegionV>, p: int) -> Field {
    Field {
        offset: word_or_zero(m, p + 0x20, 4) as u32,
        ty: word_or_zero(m, p, 8) as u64,
        in_holder: holder_flag(word_or_zero(m, p + 0x28, 8)),
    }
}

/// The table of properties of a class at its usual place, where its address and
/// length can be read.
pub open spec fn usual_table(m: Seq<RegionV>, cls: int) -> Option<(nat, nat)> {
    match (word(m, cls + 0x28, 8), word(m, cls + 0x34, 4)) {
        (Some(arr), Some(n)) => if arr != 0 && n < 100_000 {
            Some((arr, n))
        } else {
            None
        },
        _ => None,
    }
}

/// The field with that name in a class or in one that it derives from.
pub open spec fn field_from(m: Seq<RegionV>, cls: int, name: u64, depth: nat) -> Option<Field>
    decreases max_depth() - depth,
{
    if cls == 0 || depth >= max_depth() {
        None
    } else {
        let here = match usual_table(m, cls) {
            Some((arr, n)) => property_in(m, arr as int, n, name, 0),
            None => None,
        };
        match here {
            Some(p) => Some(field_at(m, p as int)),
            None => match word(m, cls + 0x10, 8) {
                Some(parent) => field_from(m, parent as int, name, depth + 1),
                None => None,
            },
        }
    }
}

fn read_usual_table(m: &Memory, cls: u64) -> (r: Option<(u64, u32)>)
    ensures
        match r {
            Some((arr, n)) => usual_table(m@, cls as int) == Some((arr as nat, n as nat)),
            None => usual_table(m@, cls as int) is None,
        },
{
    match m.read_u64(cls as u128 + 0x28) {
        None => None,
        Some(arr) => match m.read_u32(cls as u128 + 0x34) {
            None => None,
            Some(n) => if arr != 0 && n < 100_000 {
                Some((arr, n))
            } else {
                None
            },
        },
    }
}

/// Finds a field by the hash of its name.
pub fn resolve_prop_in_class(m: &Memory, cls0: u64, name: u64) -> (r: Option<Field>)
    ensures
        r == field_from(m@, cls0 as int, name, 0),
{
    let mut cls: u64 = cls0;
    let mut depth: u32 = 0;
    while cls != 0 && depth < 64
        invariant
            depth <= 64,
            field_from(m@, cls0 as int, name, 0) == field_from(
                m@,
                cls as int,
                name,
                depth as nat,
            ),
        decreases 64 - depth,
    {
        if let Some((arr, n)) = read_usual_table(m, cls) {
            if let Some(p) = find_in_props(m, arr, n, name) {
                let flags: u64 = m.u64_or_zero(p as u128 + 0x28);
                return Some(
                    Field {
                        offset: m.u32_or_zero(p as u128 + 0x20),
                        ty: m.u64_or_zero(p as u128),
                        in_holder: (flags / 0x20_0000) % 2 == 1,
                    },
                );
            }
        }
        cls = match m.read_u64(cls as u128 + 0x10) {
            None => {
                return None;
            },
            Some(p) => p,
        };
        depth += 1;
    }
    None
}

/// Where the value of a field lies: in the object, or in its value holder; and
/// nowhere that cannot be read.
pub open spec fn field_address(m: Seq<RegionV>, obj: int, offset: int, in_holder: bool) -> Option<
    int,
> {
    let holder = if in_holder {
        word_or_zero(m, obj + 0x38, 8) as int
    } else {
        obj
    };
    if (in_holder && holder == 0) || !readable(m, holder, offset + 8) {
        None
    } else {
        Some(holder + offset)
    }
}

pub fn field_ptr(m: &Memory, obj: u64, offset: u32, in_holder: bool) -> (r: Option<u128>)
    ensures
        match r {
            Some(a) => field_address(m@, obj as int, offset as int, in_holder) == Some(a as int),
            None => field_address(m@, obj as int, offset as int, in_holder) is None,
        },
{
    let holder: u64 = if in_holder {
        m.u64_or_zero(obj as u128 + 0x38)
    } else {
        obj
    };
    if (in_holder && holder == 0) || !m.is_readable(holder as u128, offset as u64 + 8) {
        return None;
    }
    Some(holder as u128 + offset as u128)
}

/// The size of a type, where it is known; at least that of a pointer.
pub open spec fn size_of_type(sizes: Seq<(u64, u32)>, ty: u64, i: int) -> int
    decreases sizes.len() - i,
{
    if i >= sizes.len() {
        8
    } else if sizes[i].0 == ty {
        if sizes[i].1 > 8 {
            sizes[i].1 as int
        } else {
            8
        }
    } else {
        size_of_type(sizes, ty, i + 1)
    }
}

fn type_size(sizes: &Vec<(u64, u32)>, ty: u64) -> (r: u64)
    ensures
        r == size_of_type(sizes@, ty, 0),
        8 <= r <= u32::MAX,
{
    let mut i: usize = 0;
    while i < sizes.len()
        invariant
            i <= sizes@.len(),
            size_of_type(sizes@, ty, 0) == size_of_type(sizes@, ty, i as int),
        decreases sizes@.len() - i,
    {
        if sizes[i].0 == ty {
            return if sizes[i].1 > 8 {
                sizes[i].1 as u64
            } else {
                8
            };
        }
        i += 1;
    }
    8
}

pub open spec fn greater(a: int, b: int) -> int {
    if a > b {
        a
    } else {
        b
    }
}

/// Where the last value in the value holder ends, among the entries from `i` on
/// and `end` before them.
pub open spec fn holder_end(
    m: Seq<RegionV>,
    arr: int,
    n: nat,
    sizes: Seq<(u64, u32)>,
    i: nat,
    end: int,
) -> int
    decreases n - i,
{
    if i >= n {
        end
    } else {
        match word(m, arr + 8 * i, 8) {
            None => end,
            Some(p) => {
                let f = field_at(m, p as int);
                if p != 0 && readable(m, p as int, 0x30) && f.in_holder {
                    holder_end(
                        m,
                        arr,
                        n,
                        sizes,
                        i + 1,
                        greater(end, f.offset as int + size_of_type(sizes, f.ty, 0)),
                    )
                } else {
                    holder_end(m, arr, n, sizes, i + 1, end)
                }
            },
        }
    }
}

/// The size of the value holder that a class and those it derives from need.
pub open spec fn holder_size_from(
    m: Seq<RegionV>,
    cls: int,
    sizes: Seq<(u64, u32)>,
    depth: nat,
    end: int,
) -> int
    decreases max_depth() - depth,
{
    if cls == 0 || depth >= max_depth() {
        end
    } else {
        let next = match usual_table(m, cls) {
            Some((arr, n)) => holder_end(m, arr as int, n, sizes, 0, end),
            None => end,
        };
        match word(m, cls + 0x10, 8) {
            Some(parent) => holder_size_from(m, parent as int, sizes, depth + 1, next),
            None => next,
        }
    }
}

fn table_holder_end(m: &Memory, arr: u64, n: u32, sizes: &Vec<(u64, u32)>, start: u64) -> (r: u64)
    requires
        start <= 0x2_0000_0000,
    ensures
        r == holder_end(m@, arr as int, n as nat, sizes@, 0, start as int),
        r <= 0x2_0000_0000,
{
    let mut end: u64 = start;
    let mut i: u32 = 0;
    while i < n
        invariant
            i <= n,
            end <= 0x2_0000_0000,
            holder_end(m@, arr as int, n as nat, sizes@, 0, start as int) == holder_end(
                m@,
                arr as int,
                n as nat,
                sizes@,
                i as nat,
                end as int,
            ),
        decreases n - i,
    {
        let p: u64 = match m.read_u64(arr as u128 + 8 * (i as u128)) {
            None => {
                return end;
            },
            Some(p) => p,
        };
        if p != 0 && m.is_readable(p as u128, 0x30) {
            let flags: u64 = m.u64_or_zero(p as u128 + 0x28);
            if (flags / 0x20_0000) % 2 == 1 {
                let off: u64 = m.u32_or_zero(p as u128 + 0x20) as u64;
                let e: u64 = off + type_size(sizes, m.u64_or_zero(p as u128));
                if e > end {
                    end = e;
                }
            }
        }
        i += 1;
    }
    end
}

/// The size of the value holder that an object of the class needs.
pub fn value_holder_size(m: &Memory, cls0: u64, sizes: &Vec<(u64, u32)>) -> (r: u64)
    ensures
        r == holder_size_from(m@, cls0 as int, sizes@, 0, 0),
{
    let mut cls: u64 = cls0;
    let mut depth: u32 = 0;
    let mut end: u64 = 0;
    while cls != 0 && depth < 64
        invariant
            depth <= 64,
            end <= 0x2_0000_0000,
            holder_size_from(m@, cls0 as int, sizes@, 0, 0) == holder_size_from(
                m@,
                cls as int,
                sizes@,
                depth as nat,
                end as int,
            ),
        decreases 64 - depth,
    {
        if let Some((arr, n)) = read_usual_table(m, cls) {
            end = table_holder_end(m, arr, n, sizes, end);
        }
        cls = match m.read_u64(cls as u128 + 0x10) {
            None => {
                return end;
            },
            Some(p) => p,
        };
        depth += 1;
    }
    end
}

// ---- hierarchy and enums ---------------------------------------------------

/// Is a class, or one that it derives from, the one with that name?
pub open spec fn derives_from(m: Seq<RegionV>, cls: int, name: u64, depth: nat) -> bool
    decreases max_depth() - depth,
{
    if cls == 0 || depth >= max_depth() || !readable(m, cls, 0x20) {
        false
    } else {
        word_or_zero(m, cls + 0x18, 8) == name || derives_from(
            m,
            word_or_zero(m, cls + 0x10, 8) as int,
            name,
            depth + 1,
        )
    }
}

pub fn derives_from_iscriptable(m: &Memory, cls0: u64) -> (r: bool)
    ensures
        r == derives_from(m@, cls0 as int, cname_of("IScriptable"@), 0),
{
    let want: u64 = cname("IScriptable");
    let mut cls: u64 = cls0;
    let mut depth: u32 = 0;
    while cls != 0 && depth < 64 && m.is_readable(cls as u128, 0x20)
        invariant
            depth <= 64,
            want == cname_of("IScriptable"@),
            derives_from(m@, cls0 as int, want, 0) == derives_from(
                m@,
                cls as int,
                want,
                depth as nat,
            ),
        decreases 64 - depth,
    {
        if m.u64_or_zero(cls as u128 + 0x18) == want {
            return true;
        }
        cls = m.u64_or_zero(cls as u128 + 0x10);
        depth += 1;
    }
    false
}

/// The value of the first member from `i` on with that name.
pub open spec fn enum_value_in(m: Seq<RegionV>, names: int, values: int, n: nat, name: u64, i: nat)
    -> Option<nat>
    decreases n - i,
{
    if i >= n {
        None
    } else if word(m, names + 8 * i, 8) == Some(name as nat) {
        word(m, values + 8 * i, 8)
    } else {
        enum_value_in(m, names, values, n, name, i + 1)
    }
}

/// The value of a member of an enum.
pub open spec fn enum_value(m: Seq<RegionV>, en: int, name: u64) -> Option<nat> {
    let names = word_or_zero(m, en + 0x28, 8);
    let n = word_or_zero(m, en + 0x30, 4);
    let values = word_or_zero(m, en + 0x38, 8);
    if en == 0 || names == 0 || values == 0 || n > 100_000 {
        None
    } else {
        enum_value_in(m, names as int, values as int, n, name, 0)
    }
}

pub fn resolve_enum_value(m: &Memory, en: u64, member: &str) -> (r: Option<u64>)
    ensures
        match r {
            Some(v) => enum_value(m@, en as int, cname_of(member@)) == Some(v as nat),
            None => enum_value(m@, en as int, cname_of(member@)) is None,
        },
{
    if en == 0 {
        return None;
    }
    let names: u64 = m.u64_or_zero(en as u128 + 0x28);
    let n: u32 = m.u32_or_zero(en as u128 + 0x30);
    let values: u64 = m.u64_or_zero(en as u128 + 0x38);
    if names == 0 || values == 0 || n > 100_000 {
        return None;
    }
    let want: u64 = cname(member);
    let mut i: u32 = 0;
    while i < n
        invariant
            i <= n,
            want == cname_of(member@),
            enum_value(m@, en as int, want) == enum_value_in(
                m@,
                names as int,
                values as int,
                n as nat,
                want,
                i as nat,
            ),
        decreases n - i,
    {
        match m.read_u64(names as u128 + 8 * (i as u128)) {
            Some(h) => {
                if h == want {
                    return m.read_u64(values as u128 + 8 * (i as u128));
                }
            },
            None => {},
        }
        i += 1;
    }
    None
}

// ---- objects ---------------------------------------------------------------

/// How an object of a class is allocated: the size that its type reports, and a
/// power of two of at least eight for the alignment.
#[derive(Clone, Copy, PartialEq, Eq, Structural)]
pub struct AllocPlan {
    pub size: u32,
    pub align: u32,
}

/// The least power of two that is at least `a` and eight.
pub open spec fn aligned_up(a: int, p: int) -> int
    decreases
            (if p < a {
                a - p
            } else {
                0
            }),
{
    if p >= a || p <= 0 {
        p
    } else {
        aligned_up(a, 2 * p)
    }
}

/// The plan for an object: none where the getters are no pointers or the size
/// is implausible. The alignment is eight where its getter is no pointer.
pub open spec fn alloc_plan(
    get_size: u64,
    construct: u64,
    size: u32,
    get_align: u64,
    align: u32,
) -> Option<AllocPlan> {
    if !is_sane(get_size as int) || !is_sane(construct as int) || size == 0 || size > 1_000_000 {
        None
    } else if is_sane(get_align as int) {
        Some(AllocPlan { size, align: (aligned_up(align as int, 8) % 0x1_0000_0000) as u32 })
    } else {
        Some(AllocPlan { size, align: 8 })
    }
}

/// Plans the allocation of an object. The allocator takes the alignment in 32
/// bits, so one above 2 to the 31 is rounded up to nothing.
pub fn new_object(get_size: u64, construct: u64, size: u32, get_align: u64, align: u32) -> (r: Option<
    AllocPlan,
>)
    ensures
        r == alloc_plan(get_size, construct, size, get_align, align),
        r is Some && align <= 0x8000_0000 ==> (r->0).align >= 8 && (r->0).align >= (if is_sane(get_align as int) {
            align
        } else {
            8
        }),
{
    if !sane(get_size) || !sane(construct) || size == 0 || size > 1_000_000 {
        return None;
    }
    if !sane(get_align) {
        return Some(AllocPlan { size, align: 8 });
    }
    let mut p: u64 = 8;
    while p < align as u64
        invariant
            8 <= p <= 0x1_0000_0000,
            align <= 0x8000_0000 ==> p <= 0x8000_0000,
            p == 8 || p == 16 || p == 32 || p == 64 || p == 128 || p == 256 || p == 512 || p
                == 1024 || p == 2048 || p == 4096 || p == 8192 || p == 16384 || p == 32768 || p
                == 65536 || p == 131072 || p == 262144 || p == 524288 || p == 1048576 || p
                == 2097152 || p == 4194304 || p == 8388608 || p == 16777216 || p == 33554432 || p
                == 67108864 || p == 134217728 || p == 268435456 || p == 536870912 || p
                == 1073741824 || p == 2147483648 || p == 4294967296,
            aligned_up(align as int, 8) == aligned_up(align as int, p as int),
        decreases 0x1_0000_0000 - p,
    {
        p = p * 2;
    }
    Some(AllocPlan { size, align: (p % 0x1_0000_0000) as u32 })
}

/// What an object derived from the script base still needs after construction:
/// the address of its class at offset 0x30, and a value holder of so many bytes
/// where its class needs one and the constructor made none.
pub fn scriptable_setup(m: &Memory, cls: u64, sizes: &Vec<(u64, u32)>, holder: u64) -> (r: (
    bool,
    u64,
))
    ensures
        r.0 == derives_from(m@, cls as int, cname_of("IScriptable"@), 0),
        r.1 == (if r.0 && holder == 0 {
            holder_size_from(m@, cls as int, sizes@, 0, 0)
        } else {
            0
        }),
{
    let scriptable: bool = derives_from_iscriptable(m, cls);
    if scriptable && holder == 0 {
        (true, value_holder_size(m, cls, sizes))
    } else {
        (scriptable, 0)
    }
}

/// Is the getter of an object's class code of the program? A stale handle's is
/// not.
pub open spec fn in_module(addr: int) -> bool {
    0x1_0000_0000 <= addr < 0x1_0A00_0000
}

/// Where the class of an object can be asked for: the address of its getter.
pub fn class_getter(m: &Memory, obj: u64, image: Image) -> (r: Option<u64>)
    ensures
        r == (if obj == 0 || !readable(m@, obj as int, 8) {
            None::<u64>
        } else {
            let vt = word_or_zero(m@, obj as int, 8);
            let g = word_or_zero(m@, vt as int + 8, 8);
            if readable(m@, vt as int, 0x10) && in_module(image.file_address(g as u64) as int) {
                Some(g as u64)
            } else {
                None
            }
        }),
{
    if obj == 0 || !m.is_readable(obj as u128, 8) {
        return None;
    }
    let vt: u64 = m.u64_or_zero(obj as u128);
    if !m.is_readable(vt as u128, 0x10) {
        return None;
    }
    let g: u64 = m.u64_or_zero(vt as u128 + 8);
    let at: u64 = image.un_rebase(g);
    if at >= 0x1_0000_0000 && at < 0x1_0A00_0000 {
        Some(g)
    } else {
        None
    }
}

} // verus!
