//! Functions and classes that are made by hand and handed to the engine: their
//! images, the engine's arrays of pointers, and the table from a function's
//! address to what answers it.
use vstd::prelude::*;

use crate::calls::{place_number, placed, zero_image, zeros};
use crate::cursor::{le_bytes, le_round_trip, le_value, lemma_le_bytes_len};
use crate::memory::{is_sane, readable, sane, word_or_zero, Memory, RegionV};
use crate::rtti::{cname, cname_of};

verus! {

// ---- functions -------------------------------------------------------------

/// The image of a native function: the function table of another native, its
/// full and its short name, and its flags. Nothing else is set: what lies behind
/// the flags is an index that belongs to the engine.
pub open spec fn function_image(vtable: nat, full: u64, short: u64, is_static: bool) -> Seq<u8> {
    placed(
        placed(
            placed(
                placed(zeros(0xC0), 0, le_bytes(vtable, 8)),
                0x08,
                le_bytes(full as nat, 8),
            ),
            0x10,
            le_bytes(short as nat, 8),
        ),
        0xA8,
        le_bytes(
            if is_static {
                5
            } else {
                1
            },
            4,
        ),
    )
}

/// The image of a native function after the model of another one; none where
/// the model is no pointer or has no function table.
pub fn build_native_func(m: &Memory, proto: u64, full: &str, short: &str, is_static: bool) -> (r:
    Option<Vec<u8>>)
    ensures
        r is Some <==> is_sane(proto as int) && word_or_zero(m@, proto as int, 8) != 0,
        r is Some ==> (r->0)@ == function_image(
            word_or_zero(m@, proto as int, 8),
            cname_of(full@),
            cname_of(short@),
            is_static,
        ),
{
    if !sane(proto) {
        return None;
    }
    let vtable: u64 = m.u64_or_zero(proto as u128);
    if vtable == 0 {
        return None;
    }
    let mut image = zero_image(0xC0);
    place_number(&mut image, 0, vtable, 8);
    place_number(&mut image, 0x08, cname(full), 8);
    place_number(&mut image, 0x10, cname(short), 8);
    let flags: u64 = if is_static {
        5
    } else {
        1
    };
    place_number(&mut image, 0xA8, flags, 4);
    Some(image)
}

/// The array of a class that a method goes into, where the class is a pointer.
pub fn method_array(cls: u64, is_static: bool) -> (r: Option<u64>)
    ensures
        r == (if !is_sane(cls as int) {
            None::<u64>
        } else if is_static {
            Some((cls + 0x58) as u64)
        } else {
            Some((cls + 0x48) as u64)
        }),
{
    if !sane(cls) {
        None
    } else if is_static {
        Some(cls + 0x58)
    } else {
        Some(cls + 0x48)
    }
}

// ---- routes ----------------------------------------------------------------

/// Which handler answers which function, in the order of registration.
pub struct Routes {
    pub list: Vec<(u64, u64)>,
}

impl View for Routes {
    type V = Seq<(u64, u64)>;

    open spec fn view(&self) -> Seq<(u64, u64)> {
        self.list@
    }
}

/// The handler of the first route for the function from `i` on.
pub open spec fn route_from(list: Seq<(u64, u64)>, func: u64, i: int) -> Option<u64>
    decreases list.len() - i,
{
    if i >= list.len() {
        None
    } else if list[i].0 == func {
        Some(list[i].1)
    } else {
        route_from(list, func, i + 1)
    }
}

/// The handler of a function. No function lies at zero.
pub open spec fn route_of(list: Seq<(u64, u64)>, func: u64) -> Option<u64> {
    if func == 0 {
        None
    } else {
        route_from(list, func, 0)
    }
}

impl Routes {
    pub fn new() -> (r: Routes)
        ensures
            r@ == Seq::<(u64, u64)>::empty(),
    {
        Routes { list: Vec::new() }
    }

    pub fn add_route(&mut self, func: u64, handler: u64)
        ensures
            final(self)@ == old(self)@.push((func, handler)),
    {
        self.list.push((func, handler));
    }

    pub fn route_native(&self, func: u64) -> (r: Option<u64>)
        ensures
            r == route_of(self@, func),
    {
        if func == 0 {
            return None;
        }
        let mut i: usize = 0;
        while i < self.list.len()
            invariant
                i <= self.list@.len(),
                func != 0,
                route_from(self@, func, 0) == route_from(self@, func, i as int),
            decreases self.list@.len() - i,
        {
            if self.list[i].0 == func {
                return Some(self.list[i].1);
            }
            i += 1;
        }
        None
    }
}

/// A registered function is answered by its handler, and what was registered
/// before is answered as before.
pub proof fn registered_functions_are_routed(list: Seq<(u64, u64)>, func: u64, handler: u64, other: u64)
    requires
        func != 0,
    ensures
        route_of(list.push((func, handler)), func) == (match route_of(list, func) {
            Some(h) => Some(h),
            None => Some(handler),
        }),
        other != func ==> route_of(list.push((func, handler)), other) == route_of(list, other),
{
    lemma_route_push(list, (func, handler), func, 0);
    lemma_route_push(list, (func, handler), other, 0);
}

proof fn lemma_route_push(list: Seq<(u64, u64)>, e: (u64, u64), func: u64, i: int)
    requires
        0 <= i <= list.len(),
    ensures
        route_from(list.push(e), func, i) == (match route_from(list, func, i) {
            Some(h) => Some(h),
            None => if e.0 == func {
                Some(e.1)
            } else {
                None
            },
        }),
    decreases list.len() - i,
{
    let l2 = list.push(e);
    if i < list.len() {
        lemma_route_push(list, e, func, i + 1);
        assert(l2[i] == list[i]);
    } else {
        assert(route_from(l2, func, i + 1) is None);
    }
}

// ---- arrays of pointers ----------------------------------------------------

/// An array of pointers in the engine: the address of its buffer, its capacity,
/// its size, and what the buffer holds.
pub struct DynArray {
    pub buffer: u64,
    pub cap: u32,
    pub size: u32,
    pub slots: Vec<u64>,
}

impl View for DynArray {
    type V = Seq<u64>;

    open spec fn view(&self) -> Seq<u64> {
        self.slots@.take(self.size as int)
    }
}

impl DynArray {
    /// The size is within the capacity, the buffer has a slot for all of it, and
    /// nothing is held without a buffer.
    pub open spec fn wf(&self) -> bool {
        &&& self.size <= self.cap
        &&& self.slots@.len() == self.cap
        &&& self.buffer == 0 ==> self.size == 0
    }

    pub open spec fn has_room(&self) -> bool {
        self.buffer != 0 && self.size < self.cap
    }
}

/// The capacity of the buffer that takes over from a full one.
pub open spec fn grown(cap: int, size: int) -> int {
    let doubled = if 2 * cap > u32::MAX {
        u32::MAX as int
    } else {
        2 * cap
    };
    if doubled >= size + 4 && doubled >= 4 {
        doubled
    } else {
        size + 4
    }
}

/// The capacity of the buffer that has to be made before the next push, where
/// there is no room.
pub fn grow_to(arr: &DynArray) -> (r: Option<u32>)
    requires
        arr.wf(),
        arr.size <= u32::MAX - 4,
    ensures
        r == (if arr.has_room() {
            None::<u32>
        } else {
            Some(grown(arr.cap as int, arr.size as int) as u32)
        }),
{
    if arr.buffer != 0 && arr.size < arr.cap {
        return None;
    }
    let doubled: u32 = if arr.cap > u32::MAX / 2 {
        u32::MAX
    } else {
        arr.cap * 2
    };
    let least: u32 = arr.size + 4;
    Some(
        if doubled >= least {
            doubled
        } else {
            least
        },
    )
}

/// Appends a pointer: in place where there is room, else in the new buffer, which
/// takes over what the old one held. Returns the slot; none, with the array
/// unchanged, where a new buffer was needed and there is none.
pub fn dynarray_push_ptr(arr: &mut DynArray, val: u64, new_buffer: u64) -> (r: Option<u32>)
    requires
        old(arr).wf(),
        old(arr).size <= u32::MAX - 4,
    ensures
        final(arr).wf(),
        r is None <==> !old(arr).has_room() && new_buffer == 0,
        r is None ==> *final(arr) == *old(arr),
        r is Some ==> {
            &&& r->0 == old(arr).size
            &&& final(arr)@ == old(arr)@.push(val)
            &&& final(arr).size == old(arr).size + 1
            &&& final(arr).buffer == (if old(arr).has_room() {
                old(arr).buffer
            } else {
                new_buffer
            })
            &&& final(arr).cap == (if old(arr).has_room() {
                old(arr).cap as int
            } else {
                grown(old(arr).cap as int, old(arr).size as int)
            })
        },
{
    let ghost before = *arr;
    let size: u32 = arr.size;
    match grow_to(arr) {
        None => {
            arr.slots[size as usize] = val;
            arr.size = size + 1;
            proof {
                assert(arr@ =~= before@.push(val));
            }
            Some(size)
        },
        Some(cap) => {
            if new_buffer == 0 {
                return None;
            }
            let mut slots: Vec<u64> = Vec::new();
            let mut i: u32 = 0;
            while i < cap
                invariant
                    i <= cap,
                    size < cap,
                    size <= before.slots@.len(),
                    *arr == before,
                    slots@.len() == i,
                    forall|k: int| 0 <= k < i && k < size ==> slots@[k] == before.slots@[k],
                    i > size ==> slots@[size as int] == val,
                decreases cap - i,
            {
                if i < size {
                    slots.push(arr.slots[i as usize]);
                } else if i == size {
                    slots.push(val);
                } else {
                    slots.push(0);
                }
                i += 1;
            }
            arr.slots = slots;
            arr.buffer = new_buffer;
            arr.cap = cap;
            arr.size = size + 1;
            proof {
                assert(arr@ =~= before@.push(val));
            }
            Some(size)
        },
    }
}

/// Adds a method to a class: the function that was made for it goes behind those
/// that the class has. Nothing is added without a class, a function, or room for
/// it.
pub fn register_method(cls: u64, func: u64, arr: &mut DynArray, new_buffer: u64) -> (r: bool)
    requires
        old(arr).wf(),
        old(arr).size <= u32::MAX - 4,
    ensures
        final(arr).wf(),
        r == (is_sane(cls as int) && func != 0 && (old(arr).has_room() || new_buffer != 0)),
        r ==> final(arr)@ == old(arr)@.push(func),
        !r ==> *final(arr) == *old(arr),
{
    if !sane(cls) || func == 0 {
        return false;
    }
    match dynarray_push_ptr(arr, func, new_buffer) {
        Some(_) => true,
        None => false,
    }
}

// ---- classes ---------------------------------------------------------------

/// The number of bytes of a class.
pub const CCLASS_SIZE: usize = 0x2D0;

/// Is the part of a slot before its allocator empty: every word zero or all ones?
pub open spec fn slot_empty(m: Seq<RegionV>, at: int) -> bool {
    forall|i: int|
        0 <= i < 10 ==> {
            let w = #[trigger] word_or_zero(m, at + 4 * i, 4);
            w == 0 || w == 0xFFFF_FFFF
        }
}

/// The function table of the allocator in a slot of the donor, where the slot can
/// be read, is empty, and holds a pointer there.
pub open spec fn donor_allocator(m: Seq<RegionV>, at: int) -> Option<nat> {
    let v = word_or_zero(m, at + 0x28, 8);
    if readable(m, at, 0x30) && slot_empty(m, at) && is_sane(v as int) {
        Some(v)
    } else {
        None
    }
}

/// The offset of an embedded table of a class.
pub open spec fn table_slot(k: int) -> int {
    0x78 + 0x30 * k
}

/// An image with the allocators of the first `k` embedded tables taken from the
/// donor.
pub open spec fn with_allocators(m: Seq<RegionV>, src: int, image: Seq<u8>, k: nat) -> Seq<u8>
    decreases k,
{
    if k == 0 {
        image
    } else {
        let before = with_allocators(m, src, image, (k - 1) as nat);
        match donor_allocator(m, src + table_slot(k - 1)) {
            Some(v) => placed(before, table_slot(k - 1) + 0x28, le_bytes(v, 8)),
            None => before,
        }
    }
}

fn read_allocator(m: &Memory, at: u128) -> (r: Option<u64>)
    requires
        at <= 0x1_0000_0000_0000_0000_0000,
    ensures
        match r {
            Some(v) => donor_allocator(m@, at as int) == Some(v as nat),
            None => donor_allocator(m@, at as int) is None,
        },
{
    if !m.is_readable(at, 0x30) {
        return None;
    }
    let mut i: u128 = 0;
    while i < 10
        invariant
            i <= 10,
            at <= 0x1_0000_0000_0000_0000_0000,
            forall|k: int|
                0 <= k < i ==> {
                    let w = #[trigger] word_or_zero(m@, at + 4 * k, 4);
                    w == 0 || w == 0xFFFF_FFFF
                },
        decreases 10 - i,
    {
        let w: u32 = m.u32_or_zero(at + 4 * i);
        if w != 0 && w != 0xFFFF_FFFF {
            proof {
                assert(word_or_zero(m@, at + 4 * (i as int), 4) == w);
                assert(!slot_empty(m@, at as int));
            }
            return None;
        }
        i += 1;
    }
    let v: u64 = m.u64_or_zero(at + 0x28);
    if sane(v) {
        Some(v)
    } else {
        None
    }
}

/// Takes the allocators of a class's embedded tables from the donor, slot by
/// slot, where the donor's slot is empty. Nothing else of the image changes.
pub fn fix_embedded_allocator_vtables(m: &Memory, image: &mut Vec<u8>, src: u64)
    requires
        old(image)@.len() == CCLASS_SIZE,
    ensures
        final(image)@ == with_allocators(m@, src as int, old(image)@, 12),
        final(image)@.len() == CCLASS_SIZE,
{
    let ghost start = image@;
    let mut k: usize = 0;
    while k < 12
        invariant
            k <= 12,
            image@.len() == CCLASS_SIZE,
            image@ == with_allocators(m@, src as int, start, k as nat),
        decreases 12 - k,
    {
        let off: usize = 0x78 + 0x30 * k;
        match read_allocator(m, src as u128 + off as u128) {
            Some(v) => {
                place_number(image, off + 0x28, v, 8);
            },
            None => {},
        }
        k += 1;
    }
}

/// The classes of the engine whose functions a class without members takes, the
/// best first.
pub open spec fn source_names() -> Seq<Seq<char>> {
    seq![
        "gameuiInGameMenuGameController"@,
        "ScriptableSystem"@,
        "GameObject"@,
        "IScriptable"@,
        "PlayerPuppet"@,
        "gameObject"@,
    ]
}

pub fn sources() -> (r: Vec<&'static str>)
    ensures
        r@.map_values(|s: &'static str| s@) == source_names(),
{
    let r: Vec<&'static str> = vec![
        "gameuiInGameMenuGameController",
        "ScriptableSystem",
        "GameObject",
        "IScriptable",
        "PlayerPuppet",
        "gameObject",
    ];
    proof {
        assert(r@.map_values(|s: &'static str| s@) =~= source_names());
    }
    r
}

/// Why a class is not made.
#[derive(Clone, Copy, PartialEq, Eq, Structural, Debug)]
pub enum ForgeError {
    /// A class of that name exists; it is not overwritten.
    Exists,
    /// There is no class to take the functions from.
    NoSource,
    /// The class to take the functions from has none, or an implausible size.
    BadSource,
    /// The parent is no pointer.
    NoParent,
    /// The type of the property is no pointer.
    NoType,
}

/// The first of the classes that is a pointer.
pub open spec fn first_sane(list: Seq<u64>, i: int) -> Option<u64>
    decreases list.len() - i,
{
    if i >= list.len() {
        None
    } else if is_sane(list[i] as int) {
        Some(list[i])
    } else {
        first_sane(list, i + 1)
    }
}

/// The image of an abstract class without members: the functions of another, a
/// name, the size of the script base, and the script base as the parent where it
/// is a pointer.
pub open spec fn min_image(m: Seq<RegionV>, src: u64, name: u64, parent: u64) -> Seq<u8> {
    let base = placed(
        placed(
            placed(
                placed(
                    placed(
                        zeros(CCLASS_SIZE as nat),
                        0,
                        le_bytes(word_or_zero(m, src as int, 8), 8),
                    ),
                    0x18,
                    le_bytes(name as nat, 8),
                ),
                0x68,
                le_bytes(0x40, 4),
            ),
            0x70,
            le_bytes(3, 4),
        ),
        0x74,
        le_bytes(8, 4),
    );
    with_allocators(
        m,
        src as int,
        if is_sane(parent as int) {
            placed(base, 0x10, le_bytes(parent as nat, 8))
        } else {
            base
        },
        12,
    )
}

/// The image of an abstract class. `existing` is what the name leads to now,
/// `sources` is where the engine finds the classes of `sources()`, in order, and
/// `parent` is the script base.
pub fn register_type_min(m: &Memory, name: &str, existing: u64, sources: &Vec<u64>, parent: u64)
    -> (r: Result<Vec<u8>, ForgeError>)
    ensures
        match r {
            Err(ForgeError::Exists) => is_sane(existing as int),
            Err(ForgeError::NoSource) => !is_sane(existing as int) && first_sane(
                sources@,
                0,
            ) is None,
            Err(ForgeError::BadSource) => !is_sane(existing as int) && first_sane(
                sources@,
                0,
            ) is Some && word_or_zero(m@, first_sane(sources@, 0)->0 as int, 8) == 0,
            Err(_) => false,
            Ok(image) => {
                &&& !is_sane(existing as int)
                &&& first_sane(sources@, 0) is Some
                &&& word_or_zero(m@, first_sane(sources@, 0)->0 as int, 8) != 0
                &&& image@ == min_image(m@, first_sane(sources@, 0)->0, cname_of(name@), parent)
                &&& image@.len() == CCLASS_SIZE
            },
        },
{
    if sane(existing) {
        return Err(ForgeError::Exists);
    }
    let mut i: usize = 0;
    while i < sources.len() && !sane(sources[i])
        invariant
            i <= sources@.len(),
            first_sane(sources@, 0) == first_sane(sources@, i as int),
        decreases sources@.len() - i,
    {
        i += 1;
    }
    if i >= sources.len() {
        return Err(ForgeError::NoSource);
    }
    let src: u64 = sources[i];
    let vtable: u64 = m.u64_or_zero(src as u128);
    if vtable == 0 {
        return Err(ForgeError::BadSource);
    }
    let mut image = zero_image(CCLASS_SIZE);
    place_number(&mut image, 0, vtable, 8);
    place_number(&mut image, 0x18, cname(name), 8);
    place_number(&mut image, 0x68, 0x40, 4);
    place_number(&mut image, 0x70, 3, 4);
    place_number(&mut image, 0x74, 8, 4);
    if sane(parent) {
        place_number(&mut image, 0x10, parent, 8);
    }
    fix_embedded_allocator_vtables(m, &mut image, src);
    Ok(image)
}

/// What a class that can be instantiated takes from its donor.
#[derive(Clone, Copy, PartialEq, Eq, Structural)]
pub struct Donor {
    pub vtable: u64,
    pub size: u32,
    pub align: u32,
}

pub open spec fn donor_readable(m: Seq<RegionV>, src: u64) -> bool {
    is_sane(src as int) && readable(m, src as int, 0x78)
}

/// What a donor gives: its functions, its size, and its alignment, or eight where
/// that is implausible. A donor without functions, or without a plausible size,
/// gives nothing.
pub open spec fn donor_of(m: Seq<RegionV>, src: u64) -> Option<Donor> {
    let vtable = word_or_zero(m, src as int, 8) as u64;
    let size = word_or_zero(m, src as int + 0x68, 4) as u32;
    let align = word_or_zero(m, src as int + 0x74, 4) as u32;
    if vtable == 0 || size == 0 || size > 0x10000 {
        None
    } else {
        Some(
            Donor {
                vtable,
                size,
                align: if align == 0 || align > 64 {
                    8
                } else {
                    align
                },
            },
        )
    }
}

fn read_donor(m: &Memory, src: u64) -> (r: Option<Donor>)
    ensures
        r == donor_of(m@, src),
{
    let vtable: u64 = m.u64_or_zero(src as u128);
    let size: u32 = m.u32_or_zero(src as u128 + 0x68);
    let align: u32 = m.u32_or_zero(src as u128 + 0x74);
    if vtable == 0 || size == 0 || size > 0x10000 {
        return None;
    }
    Some(
        Donor {
            vtable,
            size,
            align: if align == 0 || align > 64 {
                8
            } else {
                align
            },
        },
    )
}

/// The image of a class that can be instantiated: the donor's functions and
/// alignment, a name, and a size.
pub open spec fn instance_image(d: Donor, name: u64, size: int) -> Seq<u8> {
    placed(
        placed(
            placed(
                placed(
                    placed(
                        placed(zeros(CCLASS_SIZE as nat), 0, le_bytes(d.vtable as nat, 8)),
                        0x18,
                        le_bytes(name as nat, 8),
                    ),
                    0x68,
                    le_bytes(size as nat, 4),
                ),
                0x6C,
                le_bytes(size as nat, 4),
            ),
            0x70,
            le_bytes(2, 4),
        ),
        0x74,
        le_bytes(d.align as nat, 4),
    )
}

fn build_instance(d: Donor, name: &str, size: u32) -> (r: Vec<u8>)
    ensures
        r@ == instance_image(d, cname_of(name@), size as int),
        r@.len() == CCLASS_SIZE,
{
    let mut image = zero_image(CCLASS_SIZE);
    place_number(&mut image, 0, d.vtable, 8);
    place_number(&mut image, 0x18, cname(name), 8);
    place_number(&mut image, 0x68, size as u64, 4);
    place_number(&mut image, 0x6C, size as u64, 4);
    place_number(&mut image, 0x70, 2, 4);
    place_number(&mut image, 0x74, d.align as u64, 4);
    image
}

/// The image of a second name for a class, which can be instantiated as the class
/// itself can.
pub fn register_type_alias(m: &Memory, name: &str, existing: u64, src: u64) -> (r: Result<
    Vec<u8>,
    ForgeError,
>)
    ensures
        match r {
            Err(ForgeError::Exists) => is_sane(existing as int),
            Err(ForgeError::NoSource) => !is_sane(existing as int) && !donor_readable(m@, src),
            Err(ForgeError::BadSource) => !is_sane(existing as int) && donor_readable(m@, src)
                && donor_of(m@, src) is None,
            Err(_) => false,
            Ok(image) => {
                &&& !is_sane(existing as int)
                &&& donor_readable(m@, src)
                &&& donor_of(m@, src) is Some
                &&& image@ == instance_image(
                    donor_of(m@, src)->0,
                    cname_of(name@),
                    (donor_of(m@, src)->0).size as int,
                )
            },
        },
{
    if sane(existing) {
        return Err(ForgeError::Exists);
    }
    if !sane(src) || !m.is_readable(src as u128, 0x78) {
        return Err(ForgeError::NoSource);
    }
    match read_donor(m, src) {
        None => Err(ForgeError::BadSource),
        Some(d) => Ok(build_instance(d, name, d.size)),
    }
}

/// The image of a class that can be instantiated, with a parent of its own and
/// the allocators of the donor's embedded tables.
pub fn register_type_instantiable_with_parent(
    m: &Memory,
    name: &str,
    existing: u64,
    donor: u64,
    parent: u64,
) -> (r: Result<Vec<u8>, ForgeError>)
    ensures
        match r {
            Err(ForgeError::Exists) => is_sane(existing as int),
            Err(ForgeError::NoSource) => !is_sane(existing as int) && !donor_readable(m@, donor),
            Err(ForgeError::NoParent) => !is_sane(existing as int) && donor_readable(m@, donor)
                && !is_sane(parent as int),
            Err(ForgeError::BadSource) => !is_sane(existing as int) && donor_readable(m@, donor)
                && is_sane(parent as int) && donor_of(m@, donor) is None,
            Err(_) => false,
            Ok(image) => {
                &&& !is_sane(existing as int)
                &&& donor_readable(m@, donor)
                &&& is_sane(parent as int)
                &&& donor_of(m@, donor) is Some
                &&& image@ == with_allocators(
                    m@,
                    donor as int,
                    placed(
                        instance_image(
                            donor_of(m@, donor)->0,
                            cname_of(name@),
                            (donor_of(m@, donor)->0).size as int,
                        ),
                        0x10,
                        le_bytes(parent as nat, 8),
                    ),
                    12,
                )
            },
        },
{
    if sane(existing) {
        return Err(ForgeError::Exists);
    }
    if !sane(donor) || !m.is_readable(donor as u128, 0x78) {
        return Err(ForgeError::NoSource);
    }
    if !sane(parent) {
        return Err(ForgeError::NoParent);
    }
    match read_donor(m, donor) {
        None => Err(ForgeError::BadSource),
        Some(d) => {
            let mut image = build_instance(d, name, d.size);
            place_number(&mut image, 0x10, parent, 8);
            fix_embedded_allocator_vtables(m, &mut image, donor);
            Ok(image)
        },
    }
}

/// The image of a property: its type, its name, the class it belongs to, and
/// where its value lies.
pub open spec fn property_image(ftype: u64, name: u64, class: u64, off: int) -> Seq<u8> {
    placed(
        placed(
            placed(
                placed(zeros(0x30), 0, le_bytes(ftype as nat, 8)),
                0x08,
                le_bytes(name as nat, 8),
            ),
            0x18,
            le_bytes(class as nat, 8),
        ),
        0x20,
        le_bytes(off as nat, 4),
    )
}

/// The image of a class with room for one property of its own behind the donor's
/// members, and where the value of the property lies.
pub open spec fn class_with_prop(m: Seq<RegionV>, name: u64, existing: u64, src: u64, ftype: u64) -> Result<
    (Seq<u8>, u32),
    ForgeError,
> {
    if is_sane(existing as int) {
        Err(ForgeError::Exists)
    } else if !donor_readable(m, src) {
        Err(ForgeError::NoSource)
    } else {
        match donor_of(m, src) {
            None => Err(ForgeError::BadSource),
            Some(d) => if !is_sane(ftype as int) {
                Err(ForgeError::NoType)
            } else {
                Ok((instance_image(d, name, d.size + 8), d.size))
            },
        }
    }
}

fn build_class_with_prop(m: &Memory, name: &str, existing: u64, src: u64, ftype: u64) -> (r: Result<
    (Vec<u8>, u32),
    ForgeError,
>)
    ensures
        match r {
            Ok((image, off)) => class_with_prop(m@, cname_of(name@), existing, src, ftype) == Ok::<
                (Seq<u8>, u32),
                ForgeError,
            >((image@, off)) && image@.len() == CCLASS_SIZE,
            Err(e) => class_with_prop(m@, cname_of(name@), existing, src, ftype) == Err::<
                (Seq<u8>, u32),
                ForgeError,
            >(e),
        },
{
    if sane(existing) {
        return Err(ForgeError::Exists);
    }
    if !sane(src) || !m.is_readable(src as u128, 0x78) {
        return Err(ForgeError::NoSource);
    }
    match read_donor(m, src) {
        None => Err(ForgeError::BadSource),
        Some(d) => {
            if !sane(ftype) {
                return Err(ForgeError::NoType);
            }
            Ok((build_instance(d, name, d.size + 8), d.size))
        },
    }
}

/// The image of a property of a class that lies at `class`.
pub fn build_property(ftype: u64, name: &str, class: u64, off: u32) -> (r: Vec<u8>)
    ensures
        r@ == property_image(ftype, cname_of(name@), class, off as int),
{
    let mut image = zero_image(0x30);
    place_number(&mut image, 0, ftype, 8);
    place_number(&mut image, 0x08, cname(name), 8);
    place_number(&mut image, 0x18, class, 8);
    place_number(&mut image, 0x20, off as u64, 4);
    image
}

/// What is known of a class that is made with a property: the class of that name,
/// the donor, the type of the property, the memory that was handed out for the
/// class, the property and the array of properties (zero where there was none),
/// the engine's function that registers types, and the class that the name leads
/// to afterwards.
#[derive(Clone, Copy)]
pub struct PropClass {
    pub existing: u64,
    pub src: u64,
    pub ftype: u64,
    pub class: Option<u64>,
    pub property: Option<u64>,
    pub buffer: Option<u64>,
    pub slot: Option<u64>,
    pub back: Option<u64>,
}

/// What is to be done next for such a class. To register it is to write the
/// images of the class and the property and the array of properties where they
/// belong, and then to call the function.
pub enum PropClassStep {
    Refused(ForgeError),
    MakeClass,
    MakeProperty,
    MakeBuffer { slots: u32 },
    FindRegister,
    Register { func: u64, class: Vec<u8>, property: Vec<u8>, array: Vec<u64> },
    Done(Option<u64>),
}

pub enum PropClassStepV {
    Refused(ForgeError),
    MakeClass,
    MakeProperty,
    MakeBuffer { slots: u32 },
    FindRegister,
    Register { func: u64, class: Seq<u8>, property: Seq<u8>, array: Seq<u64> },
    Done(Option<u64>),
}

impl View for PropClassStep {
    type V = PropClassStepV;

    open spec fn view(&self) -> PropClassStepV {
        match self {
            PropClassStep::Refused(e) => PropClassStepV::Refused(*e),
            PropClassStep::MakeClass => PropClassStepV::MakeClass,
            PropClassStep::MakeProperty => PropClassStepV::MakeProperty,
            PropClassStep::MakeBuffer { slots } => PropClassStepV::MakeBuffer { slots: *slots },
            PropClassStep::FindRegister => PropClassStepV::FindRegister,
            PropClassStep::Register { func, class, property, array } => PropClassStepV::Register {
                func: *func,
                class: class@,
                property: property@,
                array: array@,
            },
            PropClassStep::Done(c) => PropClassStepV::Done(*c),
        }
    }
}

/// The image of a class with its array of properties set.
pub open spec fn with_properties(image: Seq<u8>, buffer: u64, cap: u32, size: u32) -> Seq<u8> {
    placed(
        placed(
            placed(image, 0x28, le_bytes(buffer as nat, 8)),
            0x30,
            le_bytes(cap as nat, 4),
        ),
        0x34,
        le_bytes(size as nat, 4),
    )
}

/// The next step of making a class with a property. Where memory for the class or
/// for the property is missing, or the function cannot be reached, nothing is
/// registered; without memory for the array the class is registered without the
/// property.
pub open spec fn prop_class_step(m: Seq<RegionV>, name: u64, prop: u64, st: PropClass) -> PropClassStepV {
    match class_with_prop(m, name, st.existing, st.src, st.ftype) {
        Err(e) => PropClassStepV::Refused(e),
        Ok((image, off)) => match st.class {
            None => PropClassStepV::MakeClass,
            Some(class) => if class == 0 {
                PropClassStepV::Done(None)
            } else {
                match st.property {
                    None => PropClassStepV::MakeProperty,
                    Some(property) => if property == 0 {
                        PropClassStepV::Done(None)
                    } else {
                        match st.buffer {
                            None => PropClassStepV::MakeBuffer { slots: 4 },
                            Some(buffer) => match st.slot {
                                None => PropClassStepV::FindRegister,
                                Some(func) => if !is_sane(func as int) {
                                    PropClassStepV::Done(None)
                                } else {
                                    match st.back {
                                        None => PropClassStepV::Register {
                                            func,
                                            class: if buffer == 0 {
                                                with_properties(image, 0, 0, 0)
                                            } else {
                                                with_properties(image, buffer, 4, 1)
                                            },
                                            property: property_image(
                                                st.ftype,
                                                prop,
                                                class,
                                                off as int,
                                            ),
                                            array: if buffer == 0 {
                                                Seq::empty()
                                            } else {
                                                seq![property]
                                            },
                                        },
                                        Some(back) => PropClassStepV::Done(
                                            if is_sane(back as int) {
                                                Some(class)
                                            } else {
                                                None::<u64>
                                            },
                                        ),
                                    }
                                },
                            },
                        }
                    },
                }
            },
        },
    }
}

/// The array of properties with the one property, and what it holds.
fn property_array(image: &mut Vec<u8>, property: u64, buffer: u64) -> (r: Vec<u64>)
    requires
        old(image)@.len() == CCLASS_SIZE,
    ensures
        r@ == (if buffer == 0 {
            Seq::empty()
        } else {
            seq![property]
        }),
        final(image)@ == (if buffer == 0 {
            with_properties(old(image)@, 0, 0, 0)
        } else {
            with_properties(old(image)@, buffer, 4, 1)
        }),
{
    let mut arr = DynArray { buffer: 0, cap: 0, size: 0, slots: Vec::new() };
    let ghost before = arr@;
    let pushed = dynarray_push_ptr(&mut arr, property, buffer);
    proof {
        assert(before =~= Seq::empty());
    }
    place_number(image, 0x28, arr.buffer, 8);
    place_number(image, 0x30, arr.cap as u64, 4);
    place_number(image, 0x34, arr.size as u64, 4);
    let mut held: Vec<u64> = Vec::new();
    match pushed {
        Some(_) => {
            proof {
                assert(arr@[0] == arr.slots@[0]);
            }
            held.push(arr.slots[0]);
            proof {
                assert(held@ =~= seq![property]);
            }
        },
        None => {
            proof {
                assert(held@ =~= Seq::empty());
            }
        },
    }
    held
}

/// Decides the next step of making a class with a property of its own behind the
/// donor's members.
pub fn register_type_with_prop(m: &Memory, name: &str, prop: &str, st: PropClass) -> (r:
    PropClassStep)
    ensures
        r@ == prop_class_step(m@, cname_of(name@), cname_of(prop@), st),
{
    let (image, off) = match build_class_with_prop(m, name, st.existing, st.src, st.ftype) {
        Err(e) => {
            return PropClassStep::Refused(e);
        },
        Ok(v) => v,
    };
    let class: u64 = match st.class {
        None => {
            return PropClassStep::MakeClass;
        },
        Some(c) => c,
    };
    if class == 0 {
        return PropClassStep::Done(None);
    }
    let property: u64 = match st.property {
        None => {
            return PropClassStep::MakeProperty;
        },
        Some(p) => p,
    };
    if property == 0 {
        return PropClassStep::Done(None);
    }
    let buffer: u64 = match st.buffer {
        None => {
            return PropClassStep::MakeBuffer { slots: 4 };
        },
        Some(b) => b,
    };
    let func: u64 = match st.slot {
        None => {
            return PropClassStep::FindRegister;
        },
        Some(f) => f,
    };
    if !sane(func) {
        return PropClassStep::Done(None);
    }
    match st.back {
        None => {
            let mut made = image;
            let array = property_array(&mut made, property, buffer);
            PropClassStep::Register {
                func,
                class: made,
                property: build_property(st.ftype, prop, class, off),
                array,
            }
        },
        Some(back) => PropClassStep::Done(registered(class, back)),
    }
}

/// What a registration hands back: the class that was made, where its name leads
/// to a class now.
pub fn registered(made: u64, back: u64) -> (r: Option<u64>)
    ensures
        r == (if is_sane(back as int) {
            Some(made)
        } else {
            None::<u64>
        }),
{
    if sane(back) {
        Some(made)
    } else {
        None
    }
}

/// The number of `n` bytes at an offset of an image.
pub open spec fn field(image: Seq<u8>, off: int, n: nat) -> nat {
    le_value(image.subrange(off, off + n))
}

/// The property of a class lies behind the members of the donor and inside the
/// class: no member is overlapped, and no value lies outside.
pub proof fn property_lies_behind_the_members(d: Donor, name: u64)
    requires
        0 < d.size <= 0x10000,
    ensures
        field(instance_image(d, name, d.size + 8), 0x68, 4) == d.size + 8,
        d.size + 4 <= field(instance_image(d, name, d.size + 8), 0x68, 4),
{
    let size = (d.size + 8) as nat;
    lemma_le_bytes_len(d.vtable as nat, 8);
    lemma_le_bytes_len(name as nat, 8);
    lemma_le_bytes_len(size, 4);
    lemma_le_bytes_len(2, 4);
    lemma_le_bytes_len(d.align as nat, 4);
    reveal_with_fuel(crate::cursor::pow256, 5);
    le_round_trip(size, 4);
    let i0 = placed(zeros(CCLASS_SIZE as nat), 0, le_bytes(d.vtable as nat, 8));
    let i1 = placed(i0, 0x18, le_bytes(name as nat, 8));
    let i2 = placed(i1, 0x68, le_bytes(size, 4));
    let i3 = placed(i2, 0x6C, le_bytes(size, 4));
    let i4 = placed(i3, 0x70, le_bytes(2, 4));
    let i5 = placed(i4, 0x74, le_bytes(d.align as nat, 4));
    assert(i5.subrange(0x68, 0x6C) =~= le_bytes(size, 4));
}

/// What is registered is whole: the class has the property in its array, and the
/// property belongs to the class and lies behind the donor's members.
pub proof fn property_belongs_to_its_class(m: Seq<RegionV>, name: u64, prop: u64, st: PropClass)
    requires
        prop_class_step(m, name, prop, st) is Register,
        st.buffer->0 != 0,
    ensures
        ({
            let step = prop_class_step(m, name, prop, st);
            let d = donor_of(m, st.src)->0;
            &&& step->array == seq![st.property->0]
            &&& field(step->Register_class, 0x28, 8) == st.buffer->0
            &&& field(step->Register_class, 0x30, 4) == 4
            &&& field(step->Register_class, 0x34, 4) == 1
            &&& field(step->Register_property, 0, 8) == st.ftype
            &&& field(step->Register_property, 0x08, 8) == prop
            &&& field(step->Register_property, 0x18, 8) == st.class->0
            &&& field(step->Register_property, 0x20, 4) == d.size
        }),
{
    let d = donor_of(m, st.src)->0;
    let class = st.class->0;
    let buffer = st.buffer->0;
    let image = instance_image(d, name, d.size + 8);
    lemma_instance_len(d, name, d.size + 8);
    lemma_le_bytes_len(buffer as nat, 8);
    lemma_le_bytes_len(4, 4);
    lemma_le_bytes_len(1, 4);
    lemma_le_bytes_len(st.ftype as nat, 8);
    lemma_le_bytes_len(prop as nat, 8);
    lemma_le_bytes_len(class as nat, 8);
    lemma_le_bytes_len(d.size as nat, 4);
    reveal_with_fuel(crate::cursor::pow256, 9);
    le_round_trip(buffer as nat, 8);
    le_round_trip(4, 4);
    le_round_trip(1, 4);
    le_round_trip(st.ftype as nat, 8);
    le_round_trip(prop as nat, 8);
    le_round_trip(class as nat, 8);
    le_round_trip(d.size as nat, 4);
    let made = with_properties(image, buffer, 4, 1);
    assert(made.subrange(0x28, 0x30) =~= le_bytes(buffer as nat, 8));
    assert(made.subrange(0x30, 0x34) =~= le_bytes(4, 4));
    assert(made.subrange(0x34, 0x38) =~= le_bytes(1, 4));
    let p = property_image(st.ftype, prop, class, d.size as int);
    assert(p.subrange(0, 8) =~= le_bytes(st.ftype as nat, 8));
    assert(p.subrange(8, 16) =~= le_bytes(prop as nat, 8));
    assert(p.subrange(0x18, 0x20) =~= le_bytes(class as nat, 8));
    assert(p.subrange(0x20, 0x24) =~= le_bytes(d.size as nat, 4));
}

proof fn lemma_instance_len(d: Donor, name: u64, size: int)
    requires
        size >= 0,
    ensures
        instance_image(d, name, size).len() == CCLASS_SIZE,
{
    lemma_le_bytes_len(d.vtable as nat, 8);
    lemma_le_bytes_len(name as nat, 8);
    lemma_le_bytes_len(size as nat, 4);
    lemma_le_bytes_len(2, 4);
    lemma_le_bytes_len(d.align as nat, 4);
}

/// The image of a native leaves the engine's index alone.
pub proof fn natives_have_no_index(vtable: nat, full: u64, short: u64, is_static: bool)
    ensures
        field(function_image(vtable, full, short, is_static), 0xB0, 8) == 0,
{
    let flags: nat = if is_static {
        5
    } else {
        1
    };
    lemma_le_bytes_len(vtable, 8);
    lemma_le_bytes_len(full as nat, 8);
    lemma_le_bytes_len(short as nat, 8);
    lemma_le_bytes_len(flags, 4);
    let i0 = placed(zeros(0xC0), 0, le_bytes(vtable, 8));
    let i1 = placed(i0, 0x08, le_bytes(full as nat, 8));
    let i2 = placed(i1, 0x10, le_bytes(short as nat, 8));
    let i3 = placed(i2, 0xA8, le_bytes(flags, 4));
    let z = i3.subrange(0xB0, 0xB8);
    assert(z =~= zeros(8));
    lemma_zeros_value(8);
}

proof fn lemma_zeros_value(n: nat)
    ensures
        le_value(zeros(n)) == 0,
    decreases n,
{
    if n > 0 {
        lemma_zeros_value((n - 1) as nat);
        assert(zeros(n).skip(1) =~= zeros((n - 1) as nat));
    }
}

} // verus!
