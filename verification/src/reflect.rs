//! Looking into the engine's types: getters of a type, values of properties,
//! and the reports that show how classes and properties are laid out.
use vstd::prelude::*;

use crate::calls::{place_number, placed, placed_reads_back, zero_image};
use crate::cursor::{le_bytes, le_round_trip, le_value, Cursor};
use crate::flats::{hex_literal, push_hex_literal, zero_padded};
use crate::memory::{is_sane, readable, sane, word, word_or_zero, Memory, RegionV};
use crate::rtti::{cname, cname_of, find_property_in_class, property_of_class, property_table,
    props_array};
use crate::targets::Image;
use crate::text::{dec, push_dec, push_lit, string_of, strings_view};

verus! {

// ---- types -----------------------------------------------------------------

/// The class behind a handle's type.
pub open spec fn inner_type_of(m: Seq<RegionV>, ty: u64) -> nat {
    if ty == 0 || !readable(m, ty as int, 0x18) {
        0
    } else {
        word_or_zero(m, ty as int + 0x10, 8)
    }
}

pub fn inner_type(m: &Memory, ty: u64) -> (r: u64)
    ensures
        r == inner_type_of(m@, ty),
{
    if ty == 0 || !m.is_readable(ty as u128, 0x18) {
        return 0;
    }
    m.u64_or_zero(ty as u128 + 0x10)
}

/// The name that a class or a handle's type holds.
pub open spec fn stored_name(m: Seq<RegionV>, ty: u64) -> nat {
    if ty == 0 || !readable(m, ty as int, 0x20) {
        0
    } else {
        word_or_zero(m, ty as int + 0x18, 8)
    }
}

pub fn type_name_hash(m: &Memory, ty: u64) -> (r: u64)
    ensures
        r == stored_name(m@, ty),
{
    if ty == 0 || !m.is_readable(ty as u128, 0x20) {
        return 0;
    }
    m.u64_or_zero(ty as u128 + 0x18)
}

/// The getter of a type's name.
pub open spec fn name_getter(m: Seq<RegionV>, ty: u64) -> Option<nat> {
    let vt = word_or_zero(m, ty as int, 8);
    let g = word_or_zero(m, vt as int + 0x10, 8);
    if ty != 0 && readable(m, ty as int, 0x18) && vt != 0 && readable(m, vt as int, 0x18)
        && is_sane(g as int) {
        Some(g)
    } else {
        None
    }
}

/// Where the name of a type can be asked for; a type without a getter has the
/// name zero.
pub fn type_name_getname(m: &Memory, ty: u64) -> (r: Option<u64>)
    ensures
        match r {
            Some(g) => name_getter(m@, ty) == Some(g as nat),
            None => name_getter(m@, ty) is None,
        },
{
    if ty == 0 || !m.is_readable(ty as u128, 0x18) {
        return None;
    }
    let vt: u64 = m.u64_or_zero(ty as u128);
    if vt == 0 || !m.is_readable(vt as u128, 0x18) {
        return None;
    }
    let g: u64 = m.u64_or_zero(vt as u128 + 0x10);
    if sane(g) {
        Some(g)
    } else {
        None
    }
}

/// The getter of a type's size.
pub open spec fn size_getter(m: Seq<RegionV>, ty: u64) -> Option<nat> {
    match word(m, ty as int, 8) {
        None => None,
        Some(vt) => match word(m, vt as int + 0x18, 8) {
            None => None,
            Some(g) => if ty != 0 && is_sane(g as int) {
                Some(g)
            } else {
                None
            },
        },
    }
}

/// Where the size of a type can be asked for; a type without a getter has the
/// size zero.
pub fn type_size(m: &Memory, ty: u64) -> (r: Option<u64>)
    ensures
        match r {
            Some(g) => size_getter(m@, ty) == Some(g as nat),
            None => size_getter(m@, ty) is None,
        },
{
    if ty == 0 {
        return None;
    }
    match m.read_u64(ty as u128) {
        None => None,
        Some(vt) => match m.read_u64(vt as u128 + 0x18) {
            None => None,
            Some(g) => if sane(g) {
                Some(g)
            } else {
                None
            },
        },
    }
}

/// The type of the parameter with index `i`.
pub open spec fn param_type_of(m: Seq<RegionV>, entries: u64, i: int) -> nat {
    let prop = word_or_zero(m, entries + 8 * i, 8);
    let ty = word_or_zero(m, prop as int, 8);
    if entries != 0 && is_sane(prop as int) && is_sane(ty as int) && readable(
        m,
        ty as int,
        0x20,
    ) {
        ty
    } else {
        0
    }
}

/// The type of a parameter of a function, from its list of parameters; zero
/// where it cannot be told.
pub fn param_type_cname(m: &Memory, entries: u64, i: u32) -> (r: u64)
    ensures
        r == param_type_of(m@, entries, i as int),
{
    if entries == 0 {
        return 0;
    }
    let prop: u64 = m.u64_or_zero(entries as u128 + 8 * (i as u128));
    if !sane(prop) {
        return 0;
    }
    let ty: u64 = m.u64_or_zero(prop as u128);
    if !sane(ty) || !m.is_readable(ty as u128, 0x20) {
        return 0;
    }
    ty
}

/// The type of a parameter of a function.
pub fn fn_param_type(m: &Memory, func: u64, i: u32) -> (r: u64)
    ensures
        r == (if func == 0 {
            0
        } else {
            param_type_of(m@, word_or_zero(m@, func as int + 0x28, 8) as u64, i as int)
        }),
{
    if func == 0 {
        return 0;
    }
    param_type_cname(m, m.u64_or_zero(func as u128 + 0x28), i)
}

// ---- the registry ----------------------------------------------------------

/// The registry of the engine's types: its address, its functions, and the two
/// that find classes and enums by name.
#[derive(Clone, Copy, PartialEq, Eq, Structural, Debug)]
pub struct Registry {
    pub reg: u64,
    pub vtbl: u64,
    pub get_class: u64,
    pub get_enum: u64,
}

/// The registry at an address, where it is complete.
pub open spec fn registry_at(m: Seq<RegionV>, reg: u64) -> Option<Registry> {
    let vtbl = word_or_zero(m, reg as int, 8) as u64;
    let get_class = word_or_zero(m, vtbl + 0x10, 8) as u64;
    let get_enum = word_or_zero(m, vtbl + 0x18, 8) as u64;
    if reg == 0 || vtbl == 0 || get_class == 0 || get_enum == 0 {
        None
    } else {
        Some(Registry { reg, vtbl, get_class, get_enum })
    }
}

impl Registry {
    /// The registry that the engine handed out.
    pub fn obtain(m: &Memory, reg: u64) -> (r: Option<Registry>)
        ensures
            r == registry_at(m@, reg),
    {
        if reg == 0 {
            return None;
        }
        let vtbl: u64 = m.u64_or_zero(reg as u128);
        if vtbl == 0 {
            return None;
        }
        let get_class: u64 = m.u64_or_zero(vtbl as u128 + 0x10);
        let get_enum: u64 = m.u64_or_zero(vtbl as u128 + 0x18);
        if get_class == 0 || get_enum == 0 {
            return None;
        }
        Some(Registry { reg, vtbl, get_class, get_enum })
    }

    /// The address of the registry.
    pub fn raw(&self) -> (r: u64)
        ensures
            r == self.reg,
    {
        self.reg
    }

    /// The function at an offset of the registry's functions; zero where it
    /// cannot be read.
    pub fn vtbl_slot(&self, m: &Memory, off: u32) -> (r: u64)
        ensures
            r == (if self.vtbl == 0 || !readable(m@, self.vtbl as int, off + 8) {
                0
            } else {
                word_or_zero(m@, self.vtbl + off, 8)
            }),
    {
        if self.vtbl == 0 || !m.is_readable(self.vtbl as u128, off as u64 + 8) {
            return 0;
        }
        m.u64_or_zero(self.vtbl as u128 + off as u128)
    }
}

/// A call of the engine that finds something by the hash of its name: the
/// function, the object it is called on, and the hash.
#[derive(Clone, Copy, PartialEq, Eq, Structural, Debug)]
pub struct NameCall {
    pub func: u64,
    pub this: u64,
    pub name: u64,
}

impl Registry {
    /// The call that finds a class.
    pub fn class_by_name(&self, name: &str) -> (r: NameCall)
        ensures
            r == (NameCall { func: self.get_class, this: self.reg, name: cname_of(name@) }),
    {
        NameCall { func: self.get_class, this: self.reg, name: cname(name) }
    }

    /// The call that finds an enum.
    pub fn enum_by_name(&self, name: &str) -> (r: NameCall)
        ensures
            r == (NameCall { func: self.get_enum, this: self.reg, name: cname_of(name@) }),
    {
        NameCall { func: self.get_enum, this: self.reg, name: cname(name) }
    }

    /// The function at an offset of the registry's functions, where it is a
    /// pointer.
    pub open spec fn function_at(&self, m: Seq<RegionV>, off: int) -> Option<u64> {
        let slot = if self.vtbl == 0 || !readable(m, self.vtbl as int, off + 8) {
            0
        } else {
            word_or_zero(m, self.vtbl + off, 8)
        };
        if is_sane(slot as int) {
            Some(slot as u64)
        } else {
            None
        }
    }

    fn sane_slot(&self, m: &Memory, off: u32) -> (r: Option<u64>)
        ensures
            r == self.function_at(m@, off as int),
    {
        let slot: u64 = self.vtbl_slot(m, off);
        if sane(slot) {
            Some(slot)
        } else {
            None
        }
    }

    /// The call that finds a global function.
    pub fn get_function(&self, m: &Memory, name: &str) -> (r: Option<NameCall>)
        ensures
            r == (match self.function_at(m@, 0x30) {
                Some(func) => Some(NameCall { func, this: self.reg, name: cname_of(name@) }),
                None => None,
            }),
    {
        match self.sane_slot(m, 0x30) {
            Some(func) => Some(NameCall { func, this: self.reg, name: cname(name) }),
            None => None,
        }
    }

    /// The call that finds a type.
    pub fn get_type(&self, m: &Memory, name: &str) -> (r: Option<NameCall>)
        ensures
            r == (match self.function_at(m@, 0) {
                Some(func) => Some(NameCall { func, this: self.reg, name: cname_of(name@) }),
                None => None,
            }),
    {
        match self.sane_slot(m, 0) {
            Some(func) => Some(NameCall { func, this: self.reg, name: cname(name) }),
            None => None,
        }
    }

    /// The function that registers functions.
    pub fn call_register_function(&self, m: &Memory) -> (r: Option<u64>)
        ensures
            r == self.function_at(m@, 0xa0),
    {
        self.sane_slot(m, 0xa0)
    }
}

/// The call by which the validator of scripts finds a class: the function at
/// 0x108 of the validator's functions, where all of that can be read.
pub open spec fn validator_call(m: Seq<RegionV>, validator: u64, name: u64) -> Option<NameCall> {
    let vt = word_or_zero(m, validator as int, 8);
    let func = word_or_zero(m, vt as int + 0x108, 8);
    if validator == 0 || !readable(m, validator as int, 8) || vt == 0 || !readable(
        m,
        vt as int + 0x108,
        8,
    ) || !is_sane(func as int) {
        None
    } else {
        Some(NameCall { func: func as u64, this: validator, name })
    }
}

pub fn resolve_class_via_validator_getclass(m: &Memory, validator: u64, name: &str) -> (r: Option<
    NameCall,
>)
    ensures
        r == validator_call(m@, validator, cname_of(name@)),
{
    if validator == 0 || !m.is_readable(validator as u128, 8) {
        return None;
    }
    let vt: u64 = m.u64_or_zero(validator as u128);
    if vt == 0 || !m.is_readable(vt as u128 + 0x108, 8) {
        return None;
    }
    let func: u64 = m.u64_or_zero(vt as u128 + 0x108);
    if !sane(func) {
        return None;
    }
    Some(NameCall { func, this: validator, name: cname(name) })
}

/// The function that makes item ids: what was seen in use, where its context and
/// its address are known, else the one that was found by name, without a context.
#[derive(Clone, Copy, PartialEq, Eq, Structural, Debug)]
pub struct IdMaker {
    pub func: u64,
    pub ctx: u64,
    pub ret: u64,
}

pub fn from_tdbid(seen: IdMaker, game_item: Option<(u64, u64)>, item: Option<(u64, u64)>) -> (r:
    Option<IdMaker>)
    ensures
        r == (if seen.ctx != 0 && seen.func != 0 {
            Some(seen)
        } else {
            match game_item {
                Some((f, t)) => Some(IdMaker { func: f, ctx: 0, ret: t }),
                None => match item {
                    Some((f, t)) => Some(IdMaker { func: f, ctx: 0, ret: t }),
                    None => None,
                },
            }
        }),
{
    if seen.ctx != 0 && seen.func != 0 {
        return Some(seen);
    }
    match game_item {
        Some((f, t)) => Some(IdMaker { func: f, ctx: 0, ret: t }),
        None => match item {
            Some((f, t)) => Some(IdMaker { func: f, ctx: 0, ret: t }),
            None => None,
        },
    }
}

// ---- values of properties --------------------------------------------------

/// Where the value of a property lies in its object.
pub fn prop_value_offset(m: &Memory, prop: u64) -> (r: u32)
    ensures
        r == word_or_zero(m@, prop as int + 0x20, 4),
{
    m.u32_or_zero(prop as u128 + 0x20)
}

/// The number of four bytes at an offset of an object.
pub open spec fn value32(obj: Seq<u8>, off: int) -> nat {
    le_value(obj.subrange(off, off + 4))
}

pub fn prop_get_u32(obj: &Vec<u8>, off: u32) -> (r: u32)
    requires
        off + 4 <= obj@.len(),
    ensures
        r == value32(obj@, off as int),
{
    let mut c = Cursor { data: obj.as_slice(), pos: off as usize };
    match c.u32() {
        Ok(v) => v,
        Err(_) => 0,
    }
}

/// Sets the number of four bytes at an offset of an object. A float is set by its
/// bit pattern.
pub fn prop_set_u32(obj: &mut Vec<u8>, off: u32, v: u32)
    requires
        off + 4 <= old(obj)@.len(),
    ensures
        final(obj)@ == placed(old(obj)@, off as int, le_bytes(v as nat, 4)),
        final(obj)@.len() == old(obj)@.len(),
{
    place_number(obj, off as usize, v as u64, 4);
}

pub fn prop_get_bool(obj: &Vec<u8>, off: u32) -> (r: bool)
    requires
        off < obj@.len(),
    ensures
        r == (obj@[off as int] != 0),
{
    obj[off as usize] != 0
}

pub fn prop_set_bool(obj: &mut Vec<u8>, off: u32, v: bool)
    requires
        off < old(obj)@.len(),
    ensures
        final(obj)@ == old(obj)@.update(
            off as int,
            if v {
                1u8
            } else {
                0u8
            },
        ),
{
    obj[off as usize] = if v {
        1
    } else {
        0
    };
}

/// Where a member of an object lies, by the name of the member; none where the
/// object's class has no such member.
pub open spec fn member_at(m: Seq<RegionV>, obj: u64, cls: u64, name: Seq<char>) -> Option<int> {
    if obj == 0 {
        None
    } else {
        match property_of_class(m, cls as int, name) {
            Some(p) => Some(obj + word_or_zero(m, p as int + 0x20, 4)),
            None => None,
        }
    }
}

/// Finds a member of an object by its name.
pub fn find_member(m: &Memory, obj: u64, cls: u64, name: &str) -> (r: Option<u128>)
    ensures
        match r {
            Some(a) => member_at(m@, obj, cls, name@) == Some(a as int),
            None => member_at(m@, obj, cls, name@) is None,
        },
{
    if obj == 0 {
        return None;
    }
    match find_property_in_class(m, cls, name) {
        Some(p) => Some(obj as u128 + prop_value_offset(m, p) as u128),
        None => None,
    }
}

/// A value that was set is read back, and the bytes around it stay.
pub proof fn set_value_reads_back(obj: Seq<u8>, off: int, v: u32, i: int)
    requires
        0 <= off,
        off + 4 <= obj.len(),
        0 <= i < obj.len(),
    ensures
        value32(placed(obj, off, le_bytes(v as nat, 4)), off) == v,
        !(off <= i < off + 4) ==> placed(obj, off, le_bytes(v as nat, 4))[i] == obj[i],
{
    reveal_with_fuel(crate::cursor::pow256, 5);
    le_round_trip(v as nat, 4);
    crate::cursor::lemma_le_bytes_len(v as nat, 4);
    placed_reads_back(obj, off, le_bytes(v as nat, 4), i);
}

// ---- the layout of properties ----------------------------------------------

/// A property as it lies in memory.
#[derive(Clone, Copy, PartialEq, Eq, Structural)]
pub struct ProbeRow {
    pub index: u32,
    pub prop: u64,
    pub name: u64,
    pub offset: u32,
    pub ty: u64,
}

/// The nearest class up the chain with a table of properties: its address, its
/// table and the length of the table.
pub open spec fn probed_class(m: Seq<RegionV>, cls: u64, depth: nat) -> Option<(u64, u64, nat)>
    decreases 8 - depth,
{
    if cls == 0 || depth >= 8 {
        None
    } else {
        match property_table(m, cls as int) {
            Some((arr, n)) => Some((cls, arr as u64, n)),
            None => if readable(m, cls as int, 0x18) {
                probed_class(m, word_or_zero(m, cls as int + 0x10, 8) as u64, depth + 1)
            } else {
                None
            },
        }
    }
}

pub open spec fn row_at(m: Seq<RegionV>, pp: nat, i: nat) -> ProbeRow {
    ProbeRow {
        index: i as u32,
        prop: pp as u64,
        name: word_or_zero(m, pp as int + 0x08, 8) as u64,
        offset: word_or_zero(m, pp as int + 0x20, 4) as u32,
        ty: word_or_zero(m, pp as int, 8) as u64,
    }
}

/// The properties of a table from entry `i` on, up to `n`; the first entry that
/// cannot be read ends them, and those that lead nowhere are left out.
pub open spec fn rows_from(m: Seq<RegionV>, arr: int, n: nat, i: nat) -> Seq<ProbeRow>
    decreases n - i,
{
    if i >= n {
        Seq::empty()
    } else {
        match word(m, arr + 8 * i, 8) {
            None => Seq::empty(),
            Some(pp) => if pp == 0 || !readable(m, pp as int, 0x30) {
                rows_from(m, arr, n, i + 1)
            } else {
                seq![row_at(m, pp, i)] + rows_from(m, arr, n, i + 1)
            },
        }
    }
}

fn read_rows(m: &Memory, arr: u64, n: u32) -> (r: Vec<ProbeRow>)
    ensures
        r@ == rows_from(m@, arr as int, n as nat, 0),
{
    let mut out: Vec<ProbeRow> = Vec::new();
    let mut i: u32 = 0;
    let ghost all = rows_from(m@, arr as int, n as nat, 0);
    proof {
        assert(out@ + all =~= all);
    }
    while i < n
        invariant
            i <= n,
            all == rows_from(m@, arr as int, n as nat, 0),
            out@ + rows_from(m@, arr as int, n as nat, i as nat) == all,
        decreases n - i,
    {
        let pp: u64 = match m.read_u64(arr as u128 + 8 * (i as u128)) {
            None => {
                proof {
                    assert(out@ + Seq::empty() =~= out@);
                }
                return out;
            },
            Some(p) => p,
        };
        if pp != 0 && m.is_readable(pp as u128, 0x30) {
            let row = ProbeRow {
                index: i,
                prop: pp,
                name: m.u64_or_zero(pp as u128 + 0x08),
                offset: m.u32_or_zero(pp as u128 + 0x20),
                ty: m.u64_or_zero(pp as u128),
            };
            let ghost before = out@;
            out.push(row);
            proof {
                assert(row == row_at(m@, pp as nat, i as nat));
                let rest = rows_from(m@, arr as int, n as nat, (i + 1) as nat);
                assert(out@ + rest =~= before + (seq![row] + rest));
            }
        }
        i += 1;
    }
    proof {
        assert(out@ + Seq::empty() =~= out@);
    }
    out
}

/// A word of a class that may be a table: its offset, the pointer, the count, and
/// the name and offset in its first entry.
#[derive(Clone, Copy, PartialEq, Eq, Structural)]
pub struct RawRow {
    pub off: u64,
    pub ptr: u64,
    pub count: u32,
    pub name: u64,
    pub offset: u32,
}

pub open spec fn raw_row_at(m: Seq<RegionV>, cls: int, off: nat) -> Option<RawRow> {
    match word(m, cls + off, 8) {
        None => None,
        Some(p) => match word(m, cls + off + 8, 4) {
            None => None,
            Some(c) => if p == 0 || c == 0 || c > 20_000 || !readable(m, p as int, 8) {
                None
            } else {
                let e0 = word_or_zero(m, p as int, 8) as int;
                let known = readable(m, e0, 0x30);
                Some(
                    RawRow {
                        off: off as u64,
                        ptr: p as u64,
                        count: c as u32,
                        name: if known {
                            word_or_zero(m, e0 + 0x08, 8) as u64
                        } else {
                            0
                        },
                        offset: if known {
                            word_or_zero(m, e0 + 0x20, 4) as u32
                        } else {
                            0
                        },
                    },
                )
            },
        },
    }
}

/// The words from 0x10 to 0x88 that may be tables, the first `k` of them.
pub open spec fn raw_rows(m: Seq<RegionV>, cls: int, k: nat) -> Seq<RawRow>
    decreases k,
{
    if k == 0 {
        Seq::empty()
    } else {
        let before = raw_rows(m, cls, (k - 1) as nat);
        match raw_row_at(m, cls, (0x10 + 8 * (k - 1)) as nat) {
            Some(r) => before.push(r),
            None => before,
        }
    }
}

fn read_raw_row(m: &Memory, cls: u64, off: u64) -> (r: Option<RawRow>)
    requires
        off <= 0x88,
    ensures
        r == raw_row_at(m@, cls as int, off as nat),
{
    let p: u64 = match m.read_u64(cls as u128 + off as u128) {
        None => {
            return None;
        },
        Some(v) => v,
    };
    let c: u32 = match m.read_u32(cls as u128 + off as u128 + 8) {
        None => {
            return None;
        },
        Some(v) => v,
    };
    if p == 0 || c == 0 || c > 20_000 || !m.is_readable(p as u128, 8) {
        return None;
    }
    let e0: u64 = m.u64_or_zero(p as u128);
    let known: bool = m.is_readable(e0 as u128, 0x30);
    let name: u64 = if known {
        m.u64_or_zero(e0 as u128 + 0x08)
    } else {
        0
    };
    let offset: u32 = if known {
        m.u32_or_zero(e0 as u128 + 0x20)
    } else {
        0
    };
    Some(RawRow { off, ptr: p, count: c, name, offset })
}

fn read_raw_rows(m: &Memory, cls: u64) -> (r: Vec<RawRow>)
    ensures
        r@ == raw_rows(m@, cls as int, 16),
{
    let mut out: Vec<RawRow> = Vec::new();
    let mut k: u64 = 0;
    while k < 16
        invariant
            k <= 16,
            out@ == raw_rows(m@, cls as int, k as nat),
        decreases 16 - k,
    {
        match read_raw_row(m, cls, 0x10 + 8 * k) {
            Some(row) => {
                out.push(row);
            },
            None => {},
        }
        k += 1;
    }
    out
}

/// What a look at the properties of a class and of an object found.
pub enum Probe {
    /// The class is no pointer.
    NoClass,
    /// No property was found: the class with the table and its length, where
    /// there is a table, and the words of the class that may be tables.
    Raw { table: Option<(u64, u32)>, words: Vec<RawRow> },
    /// The class with the table, its number of properties, the first of them,
    /// and the value of the first one in the object where it can be read.
    Found { cls: u64, count: u32, rows: Vec<ProbeRow>, value: Option<u32> },
}

/// The number of properties that a report shows.
pub open spec fn shown(n: nat, limit: nat) -> nat {
    if n < limit {
        n
    } else {
        limit
    }
}

/// The properties of the nearest class with a table, up to twelve.
pub open spec fn probed_rows(m: Seq<RegionV>, cls: u64) -> Seq<ProbeRow> {
    match probed_class(m, cls, 0) {
        Some((_, arr, n)) => rows_from(m, arr as int, shown(n, 12), 0),
        None => Seq::empty(),
    }
}

/// The four bytes of a property in an object, where they can be read.
pub open spec fn live_value(m: Seq<RegionV>, obj: u64, offset: u32) -> Option<u32> {
    if obj == 0 {
        None
    } else {
        match word(m, obj + offset, 4) {
            Some(v) => Some(v as u32),
            None => None,
        }
    }
}

/// Looks at the properties of a class, and at the first of them in an object.
pub fn reflection_probe_cls(m: &Memory, cls0: u64, obj: u64) -> (r: Probe)
    ensures
        match r {
            Probe::NoClass => !is_sane(cls0 as int),
            Probe::Raw { table, words } => {
                &&& is_sane(cls0 as int)
                &&& probed_rows(m@, cls0).len() == 0
                &&& match table {
                    Some((cls, n)) => probed_class(m@, cls0, 0) is Some && cls == (probed_class(
                        m@,
                        cls0,
                        0,
                    )->0).0 && n == (probed_class(m@, cls0, 0)->0).2,
                    None => probed_class(m@, cls0, 0) is None,
                }
                &&& words@ == raw_rows(m@, cls0 as int, 16)
            },
            Probe::Found { cls, count, rows, value } => {
                &&& is_sane(cls0 as int)
                &&& rows@.len() > 0
                &&& rows@ == probed_rows(m@, cls0)
                &&& probed_class(m@, cls0, 0) is Some
                &&& cls == (probed_class(m@, cls0, 0)->0).0
                &&& count == (probed_class(m@, cls0, 0)->0).2
                &&& value == live_value(m@, obj, rows@[0].offset)
            },
        },
{
    if !sane(cls0) {
        return Probe::NoClass;
    }
    let mut cls: u64 = cls0;
    let mut depth: u32 = 0;
    let mut found: Option<(u64, u32)> = None;
    let mut going: bool = true;
    while going && cls != 0 && depth < 8
        invariant_except_break
            found is None,
        invariant
            depth <= 8,
            going ==> probed_class(m@, cls0, 0) == probed_class(m@, cls, depth as nat),
            !going ==> probed_class(m@, cls0, 0) is None,
        ensures
            match found {
                Some((arr, n)) => probed_class(m@, cls0, 0) == Some((cls, arr, n as nat)),
                None => probed_class(m@, cls0, 0) is None,
            },
        decreases 9 - depth,
    {
        let t = props_array(m, cls);
        if t.is_some() {
            found = t;
            break;
        }
        if !m.is_readable(cls as u128, 0x18) {
            going = false;
        } else {
            cls = m.u64_or_zero(cls as u128 + 0x10);
        }
        depth += 1;
    }
    let mut rows: Vec<ProbeRow> = Vec::new();
    let mut count: u32 = 0;
    match found {
        Some((arr, n)) => {
            let limit: u32 = if n < 12 {
                n
            } else {
                12
            };
            rows = read_rows(m, arr, limit);
            count = n;
        },
        None => {},
    }
    proof {
        assert(rows@ =~= probed_rows(m@, cls0));
    }
    if rows.len() == 0 {
        let table: Option<(u64, u32)> = match found {
            Some(_) => Some((cls, count)),
            None => None,
        };
        return Probe::Raw { table, words: read_raw_rows(m, cls0) };
    }
    let offset: u32 = rows[0].offset;
    let value: Option<u32> = if obj == 0 {
        None
    } else {
        m.read_u32(obj as u128 + offset as u128)
    };
    Probe::Found { cls, count, rows, value }
}

/// A number in at least two digits.
pub open spec fn two_digits(i: nat) -> Seq<char> {
    zero_padded(dec(i), 2)
}

fn push_two_digits(out: &mut Vec<char>, i: u32)
    ensures
        final(out)@ == old(out)@ + two_digits(i as nat),
{
    let ghost before = out@;
    proof {
        reveal_with_fuel(zero_padded, 3);
        reveal_with_fuel(dec, 3);
    }
    if i < 10 {
        out.push('0');
        push_dec(out, i as u128);
        proof {
            assert(out@ =~= before + (seq!['0'] + dec(i as nat)));
        }
    } else {
        push_dec(out, i as u128);
        proof {
            lemma_two_digits(i as nat);
        }
    }
}

proof fn lemma_two_digits(i: nat)
    requires
        i >= 10,
    ensures
        dec(i).len() >= 2,
{
    reveal_with_fuel(dec, 3);
    assert(dec(i / 10).len() >= 1);
}

pub open spec fn row_text(row: ProbeRow, name: Seq<char>) -> Seq<char> {
    "    ["@ + two_digits(row.index as nat) + "] '"@ + name + "' vo="@ + hex_literal(
        row.offset as nat,
        0,
    ) + " ty="@ + hex_literal(row.ty as nat, 0) + "\n"@
}

/// The line of a property in the report, with the name that its hash stands for.
pub fn probe_row_line(row: ProbeRow, name: &str) -> (r: String)
    ensures
        r@ == row_text(row, name@),
{
    let mut out: Vec<char> = Vec::new();
    push_lit(&mut out, "    [");
    push_two_digits(&mut out, row.index);
    push_lit(&mut out, "] '");
    push_lit(&mut out, name);
    push_lit(&mut out, "' vo=");
    push_hex_literal(&mut out, row.offset as u64, 0);
    push_lit(&mut out, " ty=");
    push_hex_literal(&mut out, row.ty, 0);
    push_lit(&mut out, "\n");
    proof {
        assert(out@ =~= "    ["@ + two_digits(row.index as nat) + "] '"@ + name@ + "' vo="@
            + hex_literal(row.offset as nat, 0) + " ty="@ + hex_literal(row.ty as nat, 0) + "\n"@);
    }
    string_of(out.as_slice())
}

pub open spec fn raw_text(row: RawRow, name: Seq<char>) -> Seq<char> {
    "    +"@ + hex_literal(row.off as nat, 2) + ": ptr="@ + hex_literal(row.ptr as nat, 0)
        + " count="@ + dec(row.count as nat) + " e0.name='"@ + name + "' e0.vo="@ + hex_literal(
        row.offset as nat,
        0,
    ) + "\n"@
}

/// The line of a word that may be a table, with the name that its first entry's
/// hash stands for.
pub fn raw_row_line(row: RawRow, name: &str) -> (r: String)
    ensures
        r@ == raw_text(row, name@),
{
    let mut out: Vec<char> = Vec::new();
    push_lit(&mut out, "    +");
    push_hex_literal(&mut out, row.off, 2);
    push_lit(&mut out, ": ptr=");
    push_hex_literal(&mut out, row.ptr, 0);
    push_lit(&mut out, " count=");
    push_dec(&mut out, row.count as u128);
    push_lit(&mut out, " e0.name='");
    push_lit(&mut out, name);
    push_lit(&mut out, "' e0.vo=");
    push_hex_literal(&mut out, row.offset as u64, 0);
    push_lit(&mut out, "\n");
    proof {
        assert(out@ =~= "    +"@ + hex_literal(row.off as nat, 2) + ": ptr="@ + hex_literal(
            row.ptr as nat,
            0,
        ) + " count="@ + dec(row.count as nat) + " e0.name='"@ + name@ + "' e0.vo="@
            + hex_literal(row.offset as nat, 0) + "\n"@);
    }
    string_of(out.as_slice())
}

/// The first `n` lines of properties, with the names that their hashes stand for.
pub open spec fn row_lines(rows: Seq<ProbeRow>, names: Seq<Seq<char>>, n: nat) -> Seq<char>
    decreases n,
{
    if n == 0 {
        Seq::empty()
    } else {
        row_lines(rows, names, (n - 1) as nat) + row_text(rows[n - 1], names[n - 1])
    }
}

pub open spec fn raw_lines(words: Seq<RawRow>, names: Seq<Seq<char>>, n: nat) -> Seq<char>
    decreases n,
{
    if n == 0 {
        Seq::empty()
    } else {
        raw_lines(words, names, (n - 1) as nat) + raw_text(words[n - 1], names[n - 1])
    }
}

fn push_rows(out: &mut Vec<char>, rows: &Vec<ProbeRow>, names: &Vec<String>)
    requires
        names@.len() >= rows@.len(),
    ensures
        final(out)@ == old(out)@ + row_lines(rows@, strings_view(names@), rows@.len()),
{
    let ghost start = out@;
    let ghost all = strings_view(names@);
    let mut i: usize = 0;
    proof {
        assert(out@ =~= start + row_lines(rows@, all, 0));
    }
    while i < rows.len()
        invariant
            i <= rows@.len() <= names@.len(),
            all == strings_view(names@),
            out@ == start + row_lines(rows@, all, i as nat),
        decreases rows@.len() - i,
    {
        let line = probe_row_line(rows[i], names[i].as_str());
        push_lit(out, line.as_str());
        i += 1;
        proof {
            assert(all[i - 1] == names@[i - 1]@);
            assert(out@ =~= start + row_lines(rows@, all, i as nat));
        }
    }
}

fn push_raws(out: &mut Vec<char>, words: &Vec<RawRow>, names: &Vec<String>)
    requires
        names@.len() >= words@.len(),
    ensures
        final(out)@ == old(out)@ + raw_lines(words@, strings_view(names@), words@.len()),
{
    let ghost start = out@;
    let ghost all = strings_view(names@);
    let mut i: usize = 0;
    proof {
        assert(out@ =~= start + raw_lines(words@, all, 0));
    }
    while i < words.len()
        invariant
            i <= words@.len() <= names@.len(),
            all == strings_view(names@),
            out@ == start + raw_lines(words@, all, i as nat),
        decreases words@.len() - i,
    {
        let line = raw_row_line(words[i], names[i].as_str());
        push_lit(out, line.as_str());
        i += 1;
        proof {
            assert(all[i - 1] == names@[i - 1]@);
            assert(out@ =~= start + raw_lines(words@, all, i as nat));
        }
    }
}

/// Sets a value at an offset of an empty object and reads it back, once as a
/// number and once as the bits of 1.5. What was set is what is read.
pub fn round_trip(off: u32) -> (r: (u32, u32))
    requires
        off + 0x10 <= usize::MAX,
    ensures
        r == (0xDEAD_BEEFu32, 0x3FC0_0000u32),
{
    let mut obj = zero_image(off as usize + 0x10);
    let ghost first = obj@;
    prop_set_u32(&mut obj, off, 0xDEAD_BEEF);
    proof {
        set_value_reads_back(first, off as int, 0xDEAD_BEEF, 0);
    }
    let number: u32 = prop_get_u32(&obj, off);
    let ghost second = obj@;
    prop_set_u32(&mut obj, off, 0x3FC0_0000);
    proof {
        set_value_reads_back(second, off as int, 0x3FC0_0000, 0);
    }
    let bits: u32 = prop_get_u32(&obj, off);
    (number, bits)
}

/// The number of names that a report on the probe needs.
pub open spec fn names_needed(p: Probe) -> nat {
    match p {
        Probe::NoClass => 0,
        Probe::Raw { words, .. } => words@.len(),
        Probe::Found { rows, .. } => rows@.len(),
    }
}

/// The line on the class with the table.
pub open spec fn table_text(cls: u64, count: u32) -> Seq<char> {
    "  props @ cls="@ + hex_literal(cls as nat, 0) + " count="@ + dec(count as nat) + "\n"@
}

/// The report on a probe: the class and the object, the table, and either the
/// words that may be tables, or the properties with the value in the object and
/// the trial on an empty one, for which memory may be missing.
pub open spec fn probe_text(
    label: Seq<char>,
    cls0: u64,
    obj: u64,
    p: Probe,
    names: Seq<Seq<char>>,
    memory: bool,
) -> Seq<char> {
    let head = "[refl] '"@ + label + "': cls="@ + hex_literal(cls0 as nat, 0) + " obj="@
        + hex_literal(obj as nat, 0) + "\n"@;
    match p {
        Probe::NoClass => "[refl] '"@ + label + "': cls inválido"@,
        Probe::Raw { table, words } => head + (match table {
            Some((cls, n)) => table_text(cls, n),
            None => Seq::empty(),
        })
            + "  props NÃO localizada — scan cru cls+0x10..0x88 (ptr/count/1a-entrada):\n"@
            + raw_lines(words@, names, words@.len()),
        Probe::Found { cls, count, rows, value } => {
            let off = hex_literal(rows@[0].offset as nat, 0);
            head + table_text(cls, count) + row_lines(rows@, names, rows@.len()) + (match value {
                Some(v) => "  GET(obj vivo vo="@ + off + ") = "@ + hex_literal(v as nat, 0)
                    + " (read-only — prova get em objeto real)\n"@,
                None => Seq::empty(),
            }) + (if memory {
                "  round-trip(fake vo="@ + off
                    + "): u32 0xDEADBEEF->0xdeadbeef OK=true | f32 1.5->1.5 OK=true\n"@
            } else {
                Seq::empty()
            })
        },
    }
}

fn push_table(out: &mut Vec<char>, cls: u64, count: u32)
    ensures
        final(out)@ == old(out)@ + table_text(cls, count),
{
    let ghost start = out@;
    push_lit(out, "  props @ cls=");
    push_hex_literal(out, cls, 0);
    push_lit(out, " count=");
    push_dec(out, count as u128);
    push_lit(out, "\n");
    proof {
        assert(out@ =~= start + table_text(cls, count));
    }
}

fn push_trial(out: &mut Vec<char>, off: u32)
    requires
        off + 0x10 <= usize::MAX,
    ensures
        final(out)@ == old(out)@ + ("  round-trip(fake vo="@ + hex_literal(off as nat, 0)
            + "): u32 0xDEADBEEF->0xdeadbeef OK=true | f32 1.5->1.5 OK=true\n"@),
{
    let ghost start = out@;
    let (number, bits) = round_trip(off);
    push_lit(out, "  round-trip(fake vo=");
    push_hex_literal(out, off as u64, 0);
    if number == 0xDEAD_BEEF && bits == 0x3FC0_0000 {
        push_lit(out, "): u32 0xDEADBEEF->0xdeadbeef OK=true | f32 1.5->1.5 OK=true\n");
    }
    proof {
        assert(out@ =~= start + ("  round-trip(fake vo="@ + hex_literal(off as nat, 0)
            + "): u32 0xDEADBEEF->0xdeadbeef OK=true | f32 1.5->1.5 OK=true\n"@));
    }
}

fn push_live(out: &mut Vec<char>, off: u32, v: u32)
    ensures
        final(out)@ == old(out)@ + ("  GET(obj vivo vo="@ + hex_literal(off as nat, 0) + ") = "@
            + hex_literal(v as nat, 0) + " (read-only — prova get em objeto real)\n"@),
{
    let ghost start = out@;
    push_lit(out, "  GET(obj vivo vo=");
    push_hex_literal(out, off as u64, 0);
    push_lit(out, ") = ");
    push_hex_literal(out, v as u64, 0);
    push_lit(out, " (read-only — prova get em objeto real)\n");
    proof {
        assert(out@ =~= start + ("  GET(obj vivo vo="@ + hex_literal(off as nat, 0) + ") = "@
            + hex_literal(v as nat, 0) + " (read-only — prova get em objeto real)\n"@));
    }
}

/// The report on a probe of a class and an object, with the names that the hashes
/// of its rows stand for. `memory` says whether there is memory for the trial.
pub fn probe_report(
    label: &str,
    cls0: u64,
    obj: u64,
    p: &Probe,
    names: &Vec<String>,
    memory: bool,
) -> (r: String)
    requires
        names@.len() >= names_needed(*p),
        match *p {
            Probe::Found { rows, .. } => rows@.len() > 0 && rows@[0].offset + 0x10 <= usize::MAX,
            _ => true,
        },
    ensures
        r@ == probe_text(label@, cls0, obj, *p, strings_view(names@), memory),
{
    let mut out: Vec<char> = Vec::new();
    push_lit(&mut out, "[refl] '");
    push_lit(&mut out, label);
    let ghost all = strings_view(names@);
    match p {
        Probe::NoClass => {
            push_lit(&mut out, "': cls inválido");
            proof {
                assert(out@ =~= probe_text(label@, cls0, obj, *p, all, memory));
            }
            return string_of(out.as_slice());
        },
        _ => {},
    }
    push_lit(&mut out, "': cls=");
    push_hex_literal(&mut out, cls0, 0);
    push_lit(&mut out, " obj=");
    push_hex_literal(&mut out, obj, 0);
    push_lit(&mut out, "\n");
    let ghost head = "[refl] '"@ + label@ + "': cls="@ + hex_literal(cls0 as nat, 0) + " obj="@
        + hex_literal(obj as nat, 0) + "\n"@;
    proof {
        assert(out@ =~= head);
    }
    match p {
        Probe::Raw { table, words } => {
            if let Some((cls, n)) = table {
                push_table(&mut out, *cls, *n);
            }
            let ghost t = match *table {
                Some((cls, n)) => table_text(cls, n),
                None => Seq::empty(),
            };
            proof {
                assert(out@ =~= head + t);
            }
            push_lit(
                &mut out,
                "  props NÃO localizada — scan cru cls+0x10..0x88 (ptr/count/1a-entrada):\n",
            );
            push_raws(&mut out, words, names);
        },
        Probe::Found { cls, count, rows, value } => {
            push_table(&mut out, *cls, *count);
            push_rows(&mut out, rows, names);
            let off: u32 = rows[0].offset;
            let ghost before = out@;
            if let Some(v) = value {
                push_live(&mut out, off, *v);
            }
            let ghost l = match *value {
                Some(v) => "  GET(obj vivo vo="@ + hex_literal(off as nat, 0) + ") = "@
                    + hex_literal(v as nat, 0) + " (read-only — prova get em objeto real)\n"@,
                None => Seq::empty(),
            };
            proof {
                assert(out@ =~= before + l);
            }
            if memory {
                push_trial(&mut out, off);
            }
            proof {
                assert(out@ =~= probe_text(label@, cls0, obj, *p, all, memory));
            }
        },
        Probe::NoClass => {},
    }
    string_of(out.as_slice())
}

// ---- dumps -----------------------------------------------------------------

/// The lines of the first `n` functions of a class's table of functions.
pub open spec fn function_lines(m: Seq<RegionV>, vtbl: int, image: Image, n: nat) -> Seq<char>
    decreases n,
{
    if n == 0 {
        Seq::empty()
    } else {
        function_lines(m, vtbl, image, (n - 1) as nat) + ("  vtbl+"@ + hex_literal(
            (8 * (n - 1)) as nat,
            2,
        ) + " = static "@ + hex_literal(
            image.file_address(word_or_zero(m, vtbl + 8 * (n - 1), 8) as u64) as nat,
            0,
        ) + "\n"@)
    }
}

fn push_function_lines(out: &mut Vec<char>, m: &Memory, vtbl: u64, image: Image, n: u64)
    requires
        n <= 0x1000,
    ensures
        final(out)@ == old(out)@ + function_lines(m@, vtbl as int, image, n as nat),
{
    let ghost start = out@;
    let mut i: u64 = 0;
    proof {
        assert(out@ =~= start + function_lines(m@, vtbl as int, image, 0));
    }
    while i < n
        invariant
            i <= n <= 0x1000,
            out@ == start + function_lines(m@, vtbl as int, image, i as nat),
        decreases n - i,
    {
        let ghost before = out@;
        push_lit(out, "  vtbl+");
        push_hex_literal(out, 8 * i, 2);
        push_lit(out, " = static ");
        let f: u64 = m.u64_or_zero(vtbl as u128 + 8 * (i as u128));
        push_hex_literal(out, image.un_rebase(f), 0);
        push_lit(out, "\n");
        i += 1;
        proof {
            let line = "  vtbl+"@ + hex_literal((8 * (i - 1)) as nat, 2) + " = static "@
                + hex_literal(image.file_address(f) as nat, 0) + "\n"@;
            assert(out@ =~= before + line);
            assert(out@ =~= start + function_lines(m@, vtbl as int, image, i as nat));
        }
    }
}

/// The getters of size and alignment that a dump asks, where they are pointers.
pub open spec fn dump_getters(m: Seq<RegionV>, cls: u64) -> (Option<u64>, Option<u64>) {
    let vtbl = word_or_zero(m, cls as int, 8) as int;
    let s = word_or_zero(m, vtbl + 0x10, 8);
    let a = word_or_zero(m, vtbl + 0x18, 8);
    (
        if is_sane(s as int) {
            Some(s as u64)
        } else {
            None
        },
        if is_sane(a as int) {
            Some(a as u64)
        } else {
            None
        },
    )
}

/// Where the size and the alignment of a class are asked for in a dump.
pub fn class_getters(m: &Memory, cls: u64) -> (r: (Option<u64>, Option<u64>))
    ensures
        r == dump_getters(m@, cls),
{
    let vtbl: u64 = m.u64_or_zero(cls as u128);
    let s: u64 = m.u64_or_zero(vtbl as u128 + 0x10);
    let a: u64 = m.u64_or_zero(vtbl as u128 + 0x18);
    let size: Option<u64> = if sane(s) {
        Some(s)
    } else {
        None
    };
    let align: Option<u64> = if sane(a) {
        Some(a)
    } else {
        None
    };
    (size, align)
}

pub open spec fn getter_line(label: Seq<char>, v: Option<u32>) -> Seq<char> {
    match v {
        Some(x) => label + dec(x as nat) + "\n"@,
        None => Seq::empty(),
    }
}

/// The text of the dump of a class.
pub open spec fn class_dump(
    m: Seq<RegionV>,
    name: Seq<char>,
    cls: u64,
    image: Image,
    size: Option<u32>,
    align: Option<u32>,
) -> Seq<char> {
    let vtbl = word_or_zero(m, cls as int, 8) as u64;
    if cls == 0 {
        "[rttidump] classe '"@ + name + "' NAO encontrada no registry"@
    } else if vtbl == 0 {
        "[rttidump] '"@ + name + "': cls="@ + hex_literal(cls as nat, 0) + " mas vtbl=NULL"@
    } else {
        "[rttidump] '"@ + name + "': cls="@ + hex_literal(cls as nat, 0) + " (static "@
            + hex_literal(image.file_address(cls) as nat, 0) + ") vtbl static "@ + hex_literal(
            image.file_address(vtbl) as nat,
            0,
        ) + "\n"@ + function_lines(m, vtbl as int, image, 24) + getter_line(
            "  -> GetSize@0x10(cls) = "@,
            size,
        ) + getter_line("  -> GetAlignment@0x18(cls) = "@, align)
    }
}

fn push_getter_line(out: &mut Vec<char>, label: &str, v: Option<u32>)
    ensures
        final(out)@ == old(out)@ + getter_line(label@, v),
{
    let ghost before = out@;
    match v {
        Some(x) => {
            push_lit(out, label);
            push_dec(out, x as u128);
            push_lit(out, "\n");
        },
        None => {},
    }
    proof {
        assert(out@ =~= before + getter_line(label@, v));
    }
}

/// The dump of a class: its addresses, its functions, and what its getters of
/// size and alignment returned where they were asked.
pub fn dump_class(
    m: &Memory,
    name: &str,
    cls: u64,
    image: Image,
    size: Option<u32>,
    align: Option<u32>,
) -> (r: String)
    ensures
        r@ == class_dump(m@, name@, cls, image, size, align),
{
    let mut out: Vec<char> = Vec::new();
    let ghost goal = class_dump(m@, name@, cls, image, size, align);
    if cls == 0 {
        push_lit(&mut out, "[rttidump] classe '");
        push_lit(&mut out, name);
        push_lit(&mut out, "' NAO encontrada no registry");
        proof {
            assert(out@ =~= goal);
        }
        return string_of(out.as_slice());
    }
    let vtbl: u64 = m.u64_or_zero(cls as u128);
    push_lit(&mut out, "[rttidump] '");
    push_lit(&mut out, name);
    push_lit(&mut out, "': cls=");
    push_hex_literal(&mut out, cls, 0);
    if vtbl == 0 {
        push_lit(&mut out, " mas vtbl=NULL");
        proof {
            assert(out@ =~= goal);
        }
        return string_of(out.as_slice());
    }
    push_lit(&mut out, " (static ");
    push_hex_literal(&mut out, image.un_rebase(cls), 0);
    push_lit(&mut out, ") vtbl static ");
    push_hex_literal(&mut out, image.un_rebase(vtbl), 0);
    push_lit(&mut out, "\n");
    let ghost head = out@;
    push_function_lines(&mut out, m, vtbl, image, 24);
    push_getter_line(&mut out, "  -> GetSize@0x10(cls) = ", size);
    push_getter_line(&mut out, "  -> GetAlignment@0x18(cls) = ", align);
    proof {
        assert(head =~= "[rttidump] '"@ + name@ + "': cls="@ + hex_literal(cls as nat, 0)
            + " (static "@ + hex_literal(image.file_address(cls) as nat, 0) + ") vtbl static "@
            + hex_literal(image.file_address(vtbl) as nat, 0) + "\n"@);
        assert(out@ =~= goal);
    }
    string_of(out.as_slice())
}

/// The names that a dump of properties looks for.
pub open spec fn known_names() -> Seq<Seq<char>> {
    seq![
        "label"@,
        "eventName"@,
        "action"@,
        "value"@,
        "menuListController"@,
        "data"@,
        "isEmpty"@,
        "id"@,
        "name"@,
        "optionType"@,
        "icon"@,
        "description"@,
        "selectable"@,
    ]
}

/// The last of the first `t` pairs of a known name and a word that match, where
/// the words of one name come before those of the next.
pub open spec fn last_hit(words: Seq<u64>, t: nat) -> Option<(int, int)>
    decreases t,
{
    if t == 0 {
        None
    } else {
        let k = (t - 1) as int / 6;
        let j = (t - 1) as int % 6;
        if words[j] == cname_of(known_names()[k]) {
            Some((k, j))
        } else {
            last_hit(words, (t - 1) as nat)
        }
    }
}

/// A property in a dump: its index, its six words, and the known name that one
/// of them is.
pub struct PropRow {
    pub index: u32,
    pub words: Vec<u64>,
    pub hit: Option<(usize, usize)>,
}

pub struct PropRowV {
    pub index: int,
    pub words: Seq<u64>,
    pub hit: Option<(int, int)>,
}

pub open spec fn hit_view(h: Option<(usize, usize)>) -> Option<(int, int)> {
    match h {
        Some((k, j)) => Some((k as int, j as int)),
        None => None,
    }
}

impl View for PropRow {
    type V = PropRowV;

    open spec fn view(&self) -> PropRowV {
        PropRowV { index: self.index as int, words: self.words@, hit: hit_view(self.hit) }
    }
}

pub open spec fn prop_rows_view(v: Seq<PropRow>) -> Seq<PropRowV> {
    v.map_values(|r: PropRow| r@)
}

pub open spec fn words_at(m: Seq<RegionV>, p: int) -> Seq<u64> {
    Seq::new(6, |j: int| word_or_zero(m, p + 8 * j, 8) as u64)
}

pub open spec fn prop_row_at(m: Seq<RegionV>, p: int, i: nat) -> PropRowV {
    PropRowV { index: i as int, words: words_at(m, p), hit: last_hit(words_at(m, p), 78) }
}

/// The properties of a dump from entry `i` on.
pub open spec fn prop_rows_from(m: Seq<RegionV>, arr: int, n: nat, i: nat) -> Seq<PropRowV>
    decreases n - i,
{
    if i >= n {
        Seq::empty()
    } else {
        match word(m, arr + 8 * i, 8) {
            None => Seq::empty(),
            Some(pp) => if pp == 0 || !readable(m, pp as int, 0x30) {
                prop_rows_from(m, arr, n, i + 1)
            } else {
                seq![prop_row_at(m, pp as int, i)] + prop_rows_from(m, arr, n, i + 1)
            },
        }
    }
}

fn known_name(k: usize) -> (r: &'static str)
    requires
        k < 13,
    ensures
        r@ == known_names()[k as int],
{
    match k {
        0 => "label",
        1 => "eventName",
        2 => "action",
        3 => "value",
        4 => "menuListController",
        5 => "data",
        6 => "isEmpty",
        7 => "id",
        8 => "name",
        9 => "optionType",
        10 => "icon",
        11 => "description",
        _ => "selectable",
    }
}

fn find_hit(words: &Vec<u64>) -> (r: Option<(usize, usize)>)
    requires
        words@.len() == 6,
    ensures
        hit_view(r) == last_hit(words@, 78),
{
    let mut hit: Option<(usize, usize)> = None;
    let mut k: usize = 0;
    while k < 13
        invariant
            k <= 13,
            words@.len() == 6,
            hit_view(hit) == last_hit(words@, (6 * k) as nat),
        decreases 13 - k,
    {
        let h: u64 = cname(known_name(k));
        let mut j: usize = 0;
        while j < 6
            invariant
                j <= 6,
                k < 13,
                words@.len() == 6,
                h == cname_of(known_names()[k as int]),
                hit_view(hit) == last_hit(words@, (6 * k + j) as nat),
            decreases 6 - j,
        {
            if words[j] == h {
                hit = Some((k, j));
            }
            j += 1;
            proof {
                let t = (6 * k + j) as nat;
                assert((t - 1) as int / 6 == k && (t - 1) as int % 6 == j - 1) by {
                    assert((t - 1) as int == 6 * (k as int) + (j - 1));
                }
            }
        }
        k += 1;
    }
    hit
}

fn read_prop_rows(m: &Memory, arr: u64, n: u32) -> (r: Vec<PropRow>)
    ensures
        prop_rows_view(r@) == prop_rows_from(m@, arr as int, n as nat, 0),
{
    let mut out: Vec<PropRow> = Vec::new();
    let mut i: u32 = 0;
    let ghost all = prop_rows_from(m@, arr as int, n as nat, 0);
    proof {
        assert(prop_rows_view(out@) + all =~= all);
    }
    while i < n
        invariant
            i <= n,
            all == prop_rows_from(m@, arr as int, n as nat, 0),
            prop_rows_view(out@) + prop_rows_from(m@, arr as int, n as nat, i as nat) == all,
        decreases n - i,
    {
        let pp: u64 = match m.read_u64(arr as u128 + 8 * (i as u128)) {
            None => {
                proof {
                    assert(prop_rows_view(out@) + Seq::empty() =~= prop_rows_view(out@));
                }
                return out;
            },
            Some(p) => p,
        };
        if pp != 0 && m.is_readable(pp as u128, 0x30) {
            let mut words: Vec<u64> = Vec::new();
            let mut j: usize = 0;
            while j < 6
                invariant
                    j <= 6,
                    words@ == words_at(m@, pp as int).take(j as int),
                decreases 6 - j,
            {
                words.push(m.u64_or_zero(pp as u128 + 8 * (j as u128)));
                j += 1;
                proof {
                    assert(words@ =~= words_at(m@, pp as int).take(j as int));
                }
            }
            proof {
                assert(words@ =~= words_at(m@, pp as int));
            }
            let hit = find_hit(&words);
            let row = PropRow { index: i, words, hit };
            let ghost before = out@;
            out.push(row);
            proof {
                let rest = prop_rows_from(m@, arr as int, n as nat, (i + 1) as nat);
                assert(row@ == prop_row_at(m@, pp as int, i as nat));
                assert(prop_rows_view(out@) =~= prop_rows_view(before).push(row@));
                assert(prop_rows_view(out@) + rest =~= prop_rows_view(before) + (seq![row@]
                    + rest));
            }
        }
        i += 1;
    }
    proof {
        assert(prop_rows_view(out@) + Seq::empty() =~= prop_rows_view(out@));
    }
    out
}

/// A table of properties in a dump: its offset in the class, its number of
/// entries, and those that are shown.
pub struct PropTable {
    pub off: u64,
    pub count: u32,
    pub rows: Vec<PropRow>,
}

pub struct PropTableV {
    pub off: int,
    pub count: int,
    pub rows: Seq<PropRowV>,
}

impl View for PropTable {
    type V = PropTableV;

    open spec fn view(&self) -> PropTableV {
        PropTableV {
            off: self.off as int,
            count: self.count as int,
            rows: prop_rows_view(self.rows@),
        }
    }
}

pub open spec fn prop_tables_view(v: Seq<PropTable>) -> Seq<PropTableV> {
    v.map_values(|r: PropTable| r@)
}

/// Does any of the properties hold a known name?
pub open spec fn any_hit(rows: Seq<PropRowV>) -> bool {
    exists|i: int| 0 <= i < rows.len() && (#[trigger] rows[i]).hit is Some
}

/// The table at an offset of a class, where it is one: it has at most 5000
/// entries, and one of the first 48 holds a known name.
pub open spec fn dumped_table(m: Seq<RegionV>, cls: int, off: nat) -> Option<PropTableV> {
    match word(m, cls + off, 8) {
        None => None,
        Some(arr) => match word(m, cls + off + 8, 4) {
            None => None,
            Some(n) => {
                let rows = prop_rows_from(m, arr as int, shown(n, 48), 0);
                if arr == 0 || n == 0 || n > 5000 || !any_hit(rows) {
                    None
                } else {
                    Some(PropTableV { off: off as int, count: n as int, rows })
                }
            },
        },
    }
}

/// The tables among the first `k` words of a class from 0x18 on.
pub open spec fn dumped_tables(m: Seq<RegionV>, cls: int, k: nat) -> Seq<PropTableV>
    decreases k,
{
    if k == 0 {
        Seq::empty()
    } else {
        let before = dumped_tables(m, cls, (k - 1) as nat);
        match dumped_table(m, cls, (0x18 + 8 * (k - 1)) as nat) {
            Some(t) => before.push(t),
            None => before,
        }
    }
}

fn table_hit(rows: &Vec<PropRow>) -> (r: bool)
    ensures
        r == any_hit(prop_rows_view(rows@)),
{
    let mut i: usize = 0;
    while i < rows.len()
        invariant
            i <= rows@.len(),
            forall|k: int| 0 <= k < i ==> (#[trigger] prop_rows_view(rows@)[k]).hit is None,
        decreases rows@.len() - i,
    {
        if rows[i].hit.is_some() {
            proof {
                assert(prop_rows_view(rows@)[i as int].hit is Some);
            }
            return true;
        }
        proof {
            assert(prop_rows_view(rows@)[i as int].hit is None);
        }
        i += 1;
    }
    false
}

pub open spec fn table_view(t: Option<PropTable>) -> Option<PropTableV> {
    match t {
        Some(x) => Some(x@),
        None => None,
    }
}

fn read_table(m: &Memory, cls: u64, off: u64) -> (r: Option<PropTable>)
    requires
        off <= 0x70,
    ensures
        table_view(r) == dumped_table(m@, cls as int, off as nat),
{
    let arr: u64 = match m.read_u64(cls as u128 + off as u128) {
        None => {
            return None;
        },
        Some(v) => v,
    };
    let n: u32 = match m.read_u32(cls as u128 + off as u128 + 8) {
        None => {
            return None;
        },
        Some(v) => v,
    };
    if arr == 0 || n == 0 || n > 5000 {
        return None;
    }
    let limit: u32 = if n < 48 {
        n
    } else {
        48
    };
    let rows = read_prop_rows(m, arr, limit);
    if table_hit(&rows) {
        Some(PropTable { off, count: n, rows })
    } else {
        None
    }
}

/// Finds the tables of properties of a class by the names in them.
pub fn dump_props(m: &Memory, cls: u64) -> (r: Vec<PropTable>)
    ensures
        prop_tables_view(r@) == dumped_tables(m@, cls as int, 12),
{
    let mut out: Vec<PropTable> = Vec::new();
    let mut k: u64 = 0;
    proof {
        assert(prop_tables_view(out@) =~= Seq::empty());
    }
    while k < 12
        invariant
            k <= 12,
            prop_tables_view(out@) == dumped_tables(m@, cls as int, k as nat),
        decreases 12 - k,
    {
        let t = read_table(m, cls, 0x18 + 8 * k);
        match t {
            Some(x) => {
                let ghost before = out@;
                out.push(x);
                proof {
                    assert(prop_tables_view(out@) =~= prop_tables_view(before).push(x@));
                }
            },
            None => {},
        }
        k += 1;
    }
    out
}

/// The text behind a property that holds a known name.
pub open spec fn hit_text(hit: Option<(int, int)>) -> Seq<char> {
    match hit {
        Some((k, j)) => " <== q["@ + dec(j as nat) + "]==cname(\""@ + known_names()[k] + "\")"@,
        None => Seq::empty(),
    }
}

/// The first `n` words of a property in its line.
pub open spec fn words_text(words: Seq<u64>, n: nat) -> Seq<char>
    decreases n,
{
    if n == 0 {
        Seq::empty()
    } else {
        words_text(words, (n - 1) as nat) + " q"@ + dec((n - 1) as nat) + "="@ + hex_literal(
            words[n - 1] as nat,
            0,
        )
    }
}

/// The line of a property in a dump.
pub open spec fn prop_row_text(row: PropRowV) -> Seq<char> {
    "  ["@ + two_digits(row.index as nat) + "]"@ + words_text(row.words, 6) + hit_text(row.hit)
        + "\n"@
}

pub fn prop_row_line(row: &PropRow) -> (r: String)
    requires
        row.words@.len() == 6,
        row.hit is Some ==> (row.hit->0).0 < 13 && (row.hit->0).1 < 6,
    ensures
        r@ == prop_row_text(row@),
{
    let mut out: Vec<char> = Vec::new();
    push_lit(&mut out, "  [");
    push_two_digits(&mut out, row.index);
    push_lit(&mut out, "]");
    let ghost head = out@;
    let mut j: usize = 0;
    proof {
        assert(out@ =~= head + words_text(row.words@, 0));
    }
    while j < 6
        invariant
            j <= 6,
            row.words@.len() == 6,
            out@ == head + words_text(row.words@, j as nat),
        decreases 6 - j,
    {
        push_lit(&mut out, " q");
        push_dec(&mut out, j as u128);
        push_lit(&mut out, "=");
        push_hex_literal(&mut out, row.words[j], 0);
        j += 1;
        proof {
            assert(out@ =~= head + words_text(row.words@, j as nat));
        }
    }
    let ghost middle = out@;
    match row.hit {
        Some((k, j)) => {
            push_lit(&mut out, " <== q[");
            push_dec(&mut out, j as u128);
            push_lit(&mut out, "]==cname(\"");
            push_lit(&mut out, known_name(k));
            push_lit(&mut out, "\")");
        },
        None => {},
    }
    proof {
        assert(out@ =~= middle + hit_text(row@.hit));
    }
    push_lit(&mut out, "\n");
    proof {
        assert(head =~= "  ["@ + two_digits(row@.index as nat) + "]"@);
        assert(out@ =~= prop_row_text(row@));
    }
    string_of(out.as_slice())
}

} // verus!
