//! What a search through the engine's classes finds: what is listed in a class, and
//! what is inherited from those that it derives from.
use vstd::prelude::*;

use crate::cursor::{le_bytes, le_round_trip, le_value, lemma_le_bytes_len, pow256};
use crate::memory::{holds, readable, region_index, word, word_or_zero, RegionV};
use crate::rtti::{
    cname_of, derives_from, enum_value, enum_value_in, field_address, field_at, field_from,
    function_from, function_in, function_in_table, function_of_any, greater, holder_end,
    holder_size_from, property_from, property_in, property_of_class, property_table, size_of_type,
    usual_table,
};

verus! {

// ---- memory ----------------------------------------------------------------

/// A number that lies in a region, low byte first, is read as that number, and
/// what lies outside every region cannot be read.
pub proof fn numbers_in_memory_are_read(
    base: int,
    before: Seq<u8>,
    v: nat,
    n: nat,
    after: Seq<u8>,
    addr: int,
)
    requires
        v < pow256(n),
    ensures
        ({
            let m = seq![RegionV { base, bytes: before + le_bytes(v, n) + after }];
            let end = base + before.len() + n + after.len();
            &&& word(m, base + before.len(), n) == Some(v)
            &&& word_or_zero(m, base + before.len(), n) == v
            &&& readable(m, base, end - base)
            &&& addr < base || addr + n > end ==> !readable(m, addr, n as int) && word(m, addr, n)
                is None && word_or_zero(m, addr, n) == 0
        }),
{
    let bytes = before + le_bytes(v, n) + after;
    let m = seq![RegionV { base, bytes }];
    le_round_trip(v, n);
    lemma_le_bytes_len(v, n);
    reveal_with_fuel(region_index, 3);
    let at = before.len() as int;
    assert(holds(m[0], base + at, n as int));
    assert(bytes.subrange(at, at + n) =~= le_bytes(v, n));
}

/// The first region that holds a whole range answers for it; the others are only
/// asked where it does not.
pub proof fn the_first_region_answers(r: RegionV, rest: Seq<RegionV>, addr: int, n: nat)
    ensures
        holds(r, addr, n as int) ==> word(seq![r] + rest, addr, n) == Some(
            le_value(r.bytes.subrange(addr - r.base, addr - r.base + n)),
        ),
        !holds(r, addr, n as int) ==> word(seq![r] + rest, addr, n) == word(rest, addr, n),
        readable(seq![r] + rest, addr, n as int) == (holds(r, addr, n as int) || readable(
            rest,
            addr,
            n as int,
        )),
{
    let m = seq![r] + rest;
    assert(m[0] == r);
    lemma_regions(r, rest, addr, n as int, 0);
    crate::memory::lemma_region_index(rest, addr, n as int, 0);
    let k = region_index(rest, addr, n as int, 0);
    if k < rest.len() {
        assert(m[k + 1] == rest[k]);
    }
}

proof fn lemma_regions(r: RegionV, rest: Seq<RegionV>, addr: int, len: int, i: int)
    requires
        0 <= i <= rest.len(),
    ensures
        region_index(seq![r] + rest, addr, len, i + 1) == region_index(rest, addr, len, i) + 1,
    decreases rest.len() - i,
{
    let m = seq![r] + rest;
    if i < rest.len() {
        assert(m[i + 1] == rest[i]);
        lemma_regions(r, rest, addr, len, i + 1);
    }
}

// ---- properties ------------------------------------------------------------

/// Is the object at `p` a property with that name?
pub open spec fn is_property(m: Seq<RegionV>, p: nat, name: u64) -> bool {
    p != 0 && readable(m, p as int, 0x30) && word(m, p as int + 0x08, 8) == Some(name as nat)
}

/// Is the name the one of no entry of the table?
pub open spec fn not_listed(m: Seq<RegionV>, arr: int, n: nat, name: u64) -> bool {
    forall|i: int|
        0 <= i < n ==> match #[trigger] word(m, arr as int + 8 * i, 8) {
            Some(p) => !is_property(m, p, name),
            None => true,
        }
}

proof fn lemma_word_of_readable(m: Seq<RegionV>, a: int, len: int, off: int, n: nat)
    requires
        readable(m, a, len),
        0 <= off,
        off + n <= len,
    ensures
        word(m, a + off, n) is Some,
{
    crate::memory::lemma_region_index(m, a, len, 0);
    let k = region_index(m, a, len, 0);
    lemma_inner(m, a, len, a + off, n as int, 0, k);
}

proof fn lemma_inner(m: Seq<RegionV>, a: int, len: int, b: int, n: int, i: int, k: int)
    requires
        0 <= i <= k < m.len(),
        holds(m[k], a, len),
        a <= b,
        0 <= n,
        b + n <= a + len,
    ensures
        0 <= i <= region_index(m, b, n, i) <= k,
    decreases k - i,
{
    if i < k && !holds(m[i], b, n) {
        lemma_inner(m, a, len, b, n, i + 1, k);
    }
}

proof fn lemma_property_in(m: Seq<RegionV>, arr: int, n: nat, name: u64, i: nat)
    ensures
        match property_in(m, arr, n, name, i) {
            Some(p) => is_property(m, p, name) && exists|k: int|
                i <= k < n && #[trigger] word(m, arr as int + 8 * k, 8) == Some(p),
            None => true,
        },
        not_listed(m, arr, n, name) ==> property_in(m, arr, n, name, i) is None,
    decreases n - i,
{
    if i < n {
        lemma_property_in(m, arr, n, name, i + 1);
        match word(m, arr as int + 8 * i, 8) {
            None => {},
            Some(p) => {
                if p != 0 && readable(m, p as int, 0x30) {
                    lemma_word_of_readable(m, p as int, 0x30, 0x08, 8);
                    if word_or_zero(m, p as int + 0x08, 8) == name {
                        assert(word(m, arr as int + 8 * i, 8) == Some(p));
                    }
                }
            },
        }
        match property_in(m, arr, n, name, i + 1) {
            Some(p) => {
                let k = choose|k: int|
                    i + 1 <= k < n && #[trigger] word(m, arr as int + 8 * k, 8) == Some(p);
                assert(word(m, arr as int + 8 * k, 8) == Some(p));
            },
            None => {},
        }
    }
}

proof fn lemma_first_listed(m: Seq<RegionV>, arr: int, n: nat, name: u64, i: nat, k: nat)
    requires
        i <= k < n,
        word(m, arr as int + 8 * k, 8) is Some,
        is_property(m, word(m, arr as int + 8 * k, 8)->0, name),
        forall|j: int|
            i <= j < k ==> match #[trigger] word(m, arr as int + 8 * j, 8) {
                Some(p) => !is_property(m, p, name),
                None => false,
            },
    ensures
        property_in(m, arr, n, name, i) == word(m, arr as int + 8 * k, 8),
    decreases k - i,
{
    if i < k {
        assert(word(m, arr as int + 8 * i, 8) is Some);
        let p = word(m, arr as int + 8 * i, 8)->0;
        if p != 0 && readable(m, p as int, 0x30) {
            lemma_word_of_readable(m, p as int, 0x30, 0x08, 8);
        }
        lemma_first_listed(m, arr, n, name, i + 1, k);
    }
}

/// A property that a class lists is found in it: the first entry with that name,
/// where the entries before it can be read.
pub proof fn listed_properties_are_found(m: Seq<RegionV>, cls: int, arr: nat, n: nat, name: u64, k: nat)
    requires
        cls != 0,
        property_table(m, cls) == Some((arr, n)),
        k < n,
        word(m, arr as int + 8 * k, 8) is Some,
        is_property(m, word(m, arr as int + 8 * k, 8)->0, name),
        forall|j: int|
            0 <= j < k ==> match #[trigger] word(m, arr as int + 8 * j, 8) {
                Some(p) => !is_property(m, p, name),
                None => false,
            },
    ensures
        property_from(m, cls, name, 0) == word(m, arr as int + 8 * k, 8),
{
    lemma_first_listed(m, arr as int, n, name, 0, k);
}

/// What a class does not list itself it inherits, whether or not it lists anything:
/// the search goes on in the class that it derives from, at 0x10.
pub proof fn properties_are_inherited(m: Seq<RegionV>, cls: int, name: u64, depth: nat)
    requires
        cls != 0,
        depth < 64,
        readable(m, cls, 0x18),
        match property_table(m, cls) {
            Some((arr, n)) => not_listed(m, arr as int, n, name),
            None => true,
        },
    ensures
        property_from(m, cls, name, depth) == property_from(
            m,
            word_or_zero(m, cls + 0x10, 8) as int,
            name,
            depth + 1,
        ),
{
    match property_table(m, cls) {
        Some((arr, n)) => {
            lemma_property_in(m, arr as int, n, name, 0);
        },
        None => {},
    }
}

/// Every property that a parent class has is found in a class that derives from it
/// and does not list the name itself, by its name and through the search by text.
pub proof fn children_have_what_their_parents_have(m: Seq<RegionV>, child: int, prop: Seq<char>)
    requires
        child != 0,
        readable(m, child, 0x18),
        match property_table(m, child) {
            Some((arr, n)) => not_listed(m, arr as int, n, cname_of(prop)),
            None => true,
        },
        property_from(m, word_or_zero(m, child + 0x10, 8) as int, cname_of(prop), 1) is Some,
    ensures
        property_of_class(m, child, prop) == property_from(
            m,
            word_or_zero(m, child + 0x10, 8) as int,
            cname_of(prop),
            0,
        ),
{
    let parent = word_or_zero(m, child + 0x10, 8) as int;
    properties_are_inherited(m, child, cname_of(prop), 0);
    lemma_shallower(m, parent, cname_of(prop), 0);
}

/// What is found with less depth left is found with more.
proof fn lemma_shallower(m: Seq<RegionV>, cls: int, name: u64, depth: nat)
    ensures
        property_from(m, cls, name, depth + 1) is Some ==> property_from(m, cls, name, depth)
            == property_from(m, cls, name, depth + 1),
    decreases 64 - depth,
{
    if cls != 0 && depth + 1 < 64 {
        lemma_shallower(m, word_or_zero(m, cls + 0x10, 8) as int, name, depth + 1);
    }
}

/// Whatever is found is a property with that name, which one of the classes of the
/// chain lists.
pub proof fn found_properties_have_the_name(m: Seq<RegionV>, cls: int, name: u64, depth: nat)
    requires
        property_from(m, cls, name, depth) is Some,
    ensures
        is_property(m, property_from(m, cls, name, depth)->0, name),
        exists|k: nat| #[trigger] lists(m, ancestor(m, cls, k), property_from(m, cls, name, depth)->0),
    decreases 64 - depth,
{
    let found = property_from(m, cls, name, depth)->0;
    let here = match property_table(m, cls) {
        Some((arr, n)) => property_in(m, arr as int, n, name, 0),
        None => None,
    };
    match property_table(m, cls) {
        Some((arr, n)) => {
            lemma_property_in(m, arr as int, n, name, 0);
        },
        None => {},
    }
    if here is Some {
        assert(lists(m, ancestor(m, cls, 0), found));
    } else {
        let parent = word_or_zero(m, cls + 0x10, 8) as int;
        found_properties_have_the_name(m, parent, name, depth + 1);
        let k = choose|k: nat| #[trigger] lists(m, ancestor(m, parent, k), found);
        lemma_ancestor(m, cls, k);
        assert(lists(m, ancestor(m, cls, k + 1), found));
    }
}

/// The class so many steps up the chain.
pub open spec fn ancestor(m: Seq<RegionV>, cls: int, k: nat) -> int
    decreases k,
{
    if k == 0 {
        cls
    } else {
        word_or_zero(m, ancestor(m, cls, (k - 1) as nat) + 0x10, 8) as int
    }
}

proof fn lemma_ancestor(m: Seq<RegionV>, cls: int, k: nat)
    ensures
        ancestor(m, cls, k + 1) == ancestor(m, word_or_zero(m, cls + 0x10, 8) as int, k),
    decreases k,
{
    reveal_with_fuel(ancestor, 3);
    if k > 0 {
        lemma_ancestor(m, cls, (k - 1) as nat);
    }
}

/// Is the property in the table of the class?
pub open spec fn lists(m: Seq<RegionV>, cls: int, p: nat) -> bool {
    match property_table(m, cls) {
        Some((arr, n)) => exists|k: int| 0 <= k < n && #[trigger] word(m, arr as int + 8 * k, 8) == Some(p),
        None => false,
    }
}

/// A name with the prefix `m_` also finds the property without it, where there is
/// none with it; another name finds only itself.
pub proof fn member_prefixes_are_dropped(m: Seq<RegionV>, cls: int, rest: Seq<char>, other: Seq<char>)
    requires
        !crate::text::has_prefix(other, "m_"@),
    ensures
        property_from(m, cls, cname_of("m_"@ + rest), 0) is None ==> property_of_class(
            m,
            cls,
            "m_"@ + rest,
        ) == property_from(m, cls, cname_of(rest), 0),
        property_of_class(m, cls, other) == property_from(m, cls, cname_of(other), 0),
{
    let p = "m_"@ + rest;
    assert(p.take("m_"@.len() as int) =~= "m_"@);
    assert(p.skip("m_"@.len() as int) =~= rest);
}

/// A class whose table of properties stands at its usual place, 0x28, with its
/// count behind it, has that table.
pub proof fn usual_places_are_tried_first(m: Seq<RegionV>, cls: int, arr: nat, n: nat, p0: nat)
    requires
        readable(m, cls, 0x80),
        word(m, cls + 0x28, 8) == Some(arr),
        word(m, cls + 0x30, 4) == Some(n),
        arr != 0,
        0 < n <= 20_000,
        word(m, arr as int, 8) == Some(p0),
        p0 != 0,
        readable(m, p0 as int, 0x30),
        word_or_zero(m, p0 as int + 0x08, 8) != 0,
        word_or_zero(m, p0 as int + 0x20, 4) < 0x10000,
    ensures
        property_table(m, cls) == Some((arr, n)),
{
    assert(crate::rtti::table_offsets()[0] == 0x28);
}

// ---- functions -------------------------------------------------------------

/// Is the object at `f` a function with that name?
pub open spec fn is_function(m: Seq<RegionV>, f: nat, name: u64) -> bool {
    f != 0 && readable(m, f as int, 0x20) && word(m, f as int + 0x10, 8) == Some(name as nat)
}

/// Is the name the one of no function in the table at that offset of the class?
pub open spec fn no_function(m: Seq<RegionV>, cls: int, off: int, name: u64) -> bool {
    let slots = word_or_zero(m, cls + off, 8);
    forall|i: int|
        0 <= i < word_or_zero(m, cls + off + 8, 4) ==> !is_function(
            m,
            #[trigger] word_or_zero(m, slots + 8 * i, 8),
            name,
        )
}

/// Can the slot be read, and does another function stand there, or none?
pub open spec fn other_function(m: Seq<RegionV>, slots: int, j: int, name: u64) -> bool {
    readable(m, slots + 8 * j, 8) && !is_function(m, word_or_zero(m, slots + 8 * j, 8), name)
}

proof fn lemma_function_in(m: Seq<RegionV>, slots: int, n: nat, name: u64, i: nat)
    ensures
        match function_in(m, slots, n, name, i) {
            Some(f) => is_function(m, f, name),
            None => true,
        },
        (forall|k: int|
            i <= k < n ==> !is_function(m, #[trigger] word_or_zero(m, slots + 8 * k, 8), name))
            ==> function_in(m, slots, n, name, i) is None,
    decreases n - i,
{
    if i < n {
        lemma_function_in(m, slots, n, name, i + 1);
        let f = word_or_zero(m, slots + 8 * i, 8);
        if f != 0 && readable(m, f as int, 0x20) {
            lemma_word_of_readable(m, f as int, 0x20, 0x10, 8);
        }
    }
}

proof fn lemma_first_function(m: Seq<RegionV>, slots: int, n: nat, name: u64, i: nat, k: nat)
    requires
        i <= k < n,
        is_function(m, word_or_zero(m, slots + 8 * k, 8), name),
        forall|j: int|
            i <= j < k ==> #[trigger] other_function(m, slots, j, name),
        readable(m, slots + 8 * k, 8),
    ensures
        function_in(m, slots, n, name, i) == Some(word_or_zero(m, slots + 8 * k, 8)),
    decreases k - i,
{
    if i < k {
        let f = word_or_zero(m, slots + 8 * i, 8);
        assert(other_function(m, slots, i as int, name));
        if f != 0 && readable(m, f as int, 0x20) {
            lemma_word_of_readable(m, f as int, 0x20, 0x10, 8);
        }
        lemma_first_function(m, slots, n, name, i + 1, k);
    }
}

/// A function that a class lists among its own, at 0x48, is found in it as an
/// instance function; one that it lists only among its static ones, at 0x58, as a
/// static one. Its type of result is what its result property leads to.
pub proof fn listed_functions_are_found(m: Seq<RegionV>, cls: int, off: int, name: u64, k: nat)
    requires
        cls != 0,
        readable(m, cls, 0x60),
        off == 0x48 || off == 0x58,
        off == 0x58 ==> no_function(m, cls, 0x48, name),
        ({
            let slots = word_or_zero(m, cls + off, 8) as int;
            let n = word_or_zero(m, cls + off + 8, 4);
            &&& slots != 0
            &&& n < 20_000
            &&& readable(m, slots, 8)
            &&& k < n
            &&& readable(m, slots + 8 * k, 8)
            &&& is_function(m, word_or_zero(m, slots + 8 * k, 8), name)
            &&& forall|j: int|
                0 <= j < k ==> #[trigger] other_function(m, slots, j, name)
        }),
    ensures
        ({
            let f = word_or_zero(m, word_or_zero(m, cls + off, 8) as int + 8 * k, 8);
            let r = function_from(m, cls, name, 0);
            let rp = word_or_zero(m, f as int + 0x18, 8);
            &&& r is Some
            &&& (r->0).func == f as u64
            &&& (r->0).is_static == (off == 0x58)
            &&& (r->0).ret_type == (if rp == 0 {
                0
            } else {
                word_or_zero(m, rp as int, 8) as u64
            })
        }),
{
    let slots = word_or_zero(m, cls + off, 8) as int;
    let n = word_or_zero(m, cls + off + 8, 4);
    lemma_first_function(m, slots, n, name, 0, k);
    lemma_no_function(m, cls, 0x48, name);
}

proof fn lemma_no_function(m: Seq<RegionV>, cls: int, off: int, name: u64)
    ensures
        no_function(m, cls, off, name) ==> function_in_table(m, cls, off, name) is None,
{
    lemma_function_in(
        m,
        word_or_zero(m, cls + off, 8) as int,
        word_or_zero(m, cls + off + 8, 4),
        name,
        0,
    );
}

/// What a class lists in neither of its tables it inherits from the class that it
/// derives from.
pub proof fn functions_are_inherited(m: Seq<RegionV>, cls: int, name: u64, depth: nat)
    requires
        cls != 0,
        depth < 64,
        readable(m, cls, 0x60),
        no_function(m, cls, 0x48, name),
        no_function(m, cls, 0x58, name),
    ensures
        function_from(m, cls, name, depth) == function_from(
            m,
            word_or_zero(m, cls + 0x10, 8) as int,
            name,
            depth + 1,
        ),
{
    lemma_no_function(m, cls, 0x48, name);
    lemma_no_function(m, cls, 0x58, name);
}

/// Whatever is found is a function with that name.
pub proof fn found_functions_have_the_name(m: Seq<RegionV>, cls: int, name: u64, depth: nat)
    requires
        function_from(m, cls, name, depth) is Some,
    ensures
        exists|f: nat|
            #[trigger] is_function(m, f, name) && (function_from(m, cls, name, depth)->0).func == f as u64,
    decreases 64 - depth,
{
    let a = function_in_table(m, cls, 0x48, name);
    let b = function_in_table(m, cls, 0x58, name);
    lemma_function_in(m, word_or_zero(m, cls + 0x48, 8) as int, word_or_zero(m, cls + 0x50, 4), name, 0);
    lemma_function_in(m, word_or_zero(m, cls + 0x58, 8) as int, word_or_zero(m, cls + 0x60, 4), name, 0);
    if a is Some {
        assert(is_function(m, a->0, name));
    } else if b is Some {
        assert(is_function(m, b->0, name));
    } else {
        found_functions_have_the_name(m, word_or_zero(m, cls + 0x10, 8) as int, name, depth + 1);
    }
}

/// Among several classes the first that has the function answers.
pub proof fn the_first_class_answers(m: Seq<RegionV>, classes: Seq<u64>, c: u64, name: u64)
    ensures
        function_of_any(m, Seq::empty(), name, 0) is None,
        function_of_any(m, classes.push(c), name, 0) == (match function_of_any(
            m,
            classes,
            name,
            0,
        ) {
            Some(f) => Some(f),
            None => function_from(m, c as int, name, 0),
        }),
{
    lemma_any_push(m, classes, c, name, 0);
}

proof fn lemma_any_push(m: Seq<RegionV>, classes: Seq<u64>, c: u64, name: u64, i: int)
    requires
        0 <= i <= classes.len(),
    ensures
        function_of_any(m, classes.push(c), name, i) == (match function_of_any(
            m,
            classes,
            name,
            i,
        ) {
            Some(f) => Some(f),
            None => function_from(m, c as int, name, 0),
        }),
    decreases classes.len() - i,
{
    let all = classes.push(c);
    if i < classes.len() {
        assert(all[i] == classes[i]);
        lemma_any_push(m, classes, c, name, i + 1);
    } else {
        assert(all[i] == c);
        reveal_with_fuel(function_of_any, 3);
        match function_from(m, c as int, name, 0) {
            Some(_) => {},
            None => {},
        }
    }
}

// ---- fields ----------------------------------------------------------------

/// A field that a class lists at 0x28, with its count at 0x34, is found in it: its
/// offset stands at 0x20 of the property, its type at its start, and bit 21 of the
/// flags at 0x28 says whether the value lies in the value holder.
pub proof fn listed_fields_are_found(m: Seq<RegionV>, cls: int, arr: nat, n: nat, name: u64, k: nat)
    requires
        cls != 0,
        word(m, cls + 0x28, 8) == Some(arr),
        word(m, cls + 0x34, 4) == Some(n),
        arr != 0,
        n < 100_000,
        k < n,
        word(m, arr as int + 8 * k, 8) is Some,
        is_property(m, word(m, arr as int + 8 * k, 8)->0, name),
        forall|j: int|
            0 <= j < k ==> match #[trigger] word(m, arr as int + 8 * j, 8) {
                Some(p) => !is_property(m, p, name),
                None => false,
            },
    ensures
        ({
            let p = word(m, arr as int + 8 * k, 8)->0 as int;
            let r = field_from(m, cls, name, 0);
            &&& r is Some
            &&& (r->0).offset == word_or_zero(m, p + 0x20, 4) as u32
            &&& (r->0).ty == word_or_zero(m, p, 8) as u64
            &&& (r->0).in_holder == ((word_or_zero(m, p + 0x28, 8) / 0x20_0000) % 2 == 1)
        }),
{
    lemma_first_listed(m, arr as int, n, name, 0, k);
}

/// A field that a class does not list it inherits.
pub proof fn fields_are_inherited(m: Seq<RegionV>, cls: int, name: u64, depth: nat, parent: nat)
    requires
        cls != 0,
        depth < 64,
        word(m, cls + 0x10, 8) == Some(parent),
        match (word(m, cls + 0x28, 8), word(m, cls + 0x34, 4)) {
            (Some(arr), Some(n)) => arr == 0 || n >= 100_000 || not_listed(m, arr as int, n, name),
            _ => true,
        },
    ensures
        field_from(m, cls, name, depth) == field_from(m, parent as int, name, depth + 1),
{
    match usual_table(m, cls) {
        Some((arr, n)) => {
            lemma_property_in(m, arr as int, n, name, 0);
        },
        None => {},
    }
}

/// The value of a field lies at its offset in the object, or in the value holder
/// that the object points to at 0x38.
pub proof fn fields_lie_in_the_object_or_its_holder(m: Seq<RegionV>, obj: int, offset: int, holder: nat)
    requires
        0 <= offset,
    ensures
        readable(m, obj, offset + 8) ==> field_address(m, obj, offset, false) == Some(obj + offset),
        !readable(m, obj, offset + 8) ==> field_address(m, obj, offset, false) is None,
        word(m, obj + 0x38, 8) == Some(holder) && holder != 0 && readable(
            m,
            holder as int,
            offset + 8,
        ) ==> field_address(m, obj, offset, true) == Some(holder + offset),
        word(m, obj + 0x38, 8) == Some(0nat) ==> field_address(m, obj, offset, true) is None,
{
}

/// The value holder of a class has room for every field that lies in it: its own,
/// and those of the classes that it derives from.
pub proof fn holders_have_room(m: Seq<RegionV>, cls: int, sizes: Seq<(u64, u32)>, arr: nat, n: nat, k: nat)
    requires
        cls != 0,
        word(m, cls + 0x28, 8) == Some(arr),
        word(m, cls + 0x34, 4) == Some(n),
        arr != 0,
        n < 100_000,
        k < n,
        forall|j: int| 0 <= j <= k ==> (#[trigger] word(m, arr as int + 8 * j, 8)) is Some,
        ({
            let p = word(m, arr as int + 8 * k, 8)->0 as int;
            p != 0 && readable(m, p, 0x30) && (word_or_zero(m, p + 0x28, 8) / 0x20_0000) % 2 == 1
        }),
    ensures
        ({
            let p = word(m, arr as int + 8 * k, 8)->0 as int;
            let need = word_or_zero(m, p + 0x20, 4) as u32 + size_of_type(
                sizes,
                word_or_zero(m, p, 8) as u64,
                0,
            );
            holder_size_from(m, cls, sizes, 0, 0) >= need
        }),
{
    lemma_holder_end(m, arr as int, n, sizes, 0, k, 0);
    let next = holder_end(m, arr as int, n, sizes, 0, 0);
    match word(m, cls + 0x10, 8) {
        Some(parent) => {
            lemma_holder_grows(m, parent as int, sizes, 1, next);
        },
        None => {},
    }
}

proof fn lemma_holder_end(m: Seq<RegionV>, arr: int, n: nat, sizes: Seq<(u64, u32)>, i: nat, k: nat, end: int)
    requires
        i <= k < n,
        forall|j: int| i <= j <= k ==> (#[trigger] word(m, arr as int + 8 * j, 8)) is Some,
        ({
            let p = word(m, arr as int + 8 * k, 8)->0 as int;
            p != 0 && readable(m, p, 0x30) && field_at(m, p).in_holder
        }),
    ensures
        ({
            let f = field_at(m, word(m, arr as int + 8 * k, 8)->0 as int);
            holder_end(m, arr, n, sizes, i, end) >= f.offset + size_of_type(sizes, f.ty, 0)
        }),
    decreases k - i,
{
    assert(word(m, arr as int + 8 * i, 8) is Some);
    let p = word(m, arr as int + 8 * i, 8)->0 as int;
    let f = field_at(m, p);
    if i < k {
        if p != 0 && readable(m, p, 0x30) && f.in_holder {
            lemma_holder_end(
                m,
                arr,
                n,
                sizes,
                i + 1,
                k,
                greater(end, f.offset as int + size_of_type(sizes, f.ty, 0)),
            );
        } else {
            lemma_holder_end(m, arr, n, sizes, i + 1, k, end);
        }
    } else {
        lemma_end_grows(
            m,
            arr,
            n,
            sizes,
            i + 1,
            greater(end, f.offset as int + size_of_type(sizes, f.ty, 0)),
        );
    }
}

proof fn lemma_end_grows(m: Seq<RegionV>, arr: int, n: nat, sizes: Seq<(u64, u32)>, i: nat, end: int)
    ensures
        holder_end(m, arr, n, sizes, i, end) >= end,
    decreases n - i,
{
    if i < n {
        match word(m, arr as int + 8 * i, 8) {
            None => {},
            Some(p) => {
                let f = field_at(m, p as int);
                lemma_end_grows(m, arr, n, sizes, i + 1, end);
                lemma_end_grows(
                    m,
                    arr,
                    n,
                    sizes,
                    i + 1,
                    greater(end, f.offset as int + size_of_type(sizes, f.ty, 0)),
                );
            },
        }
    }
}

proof fn lemma_holder_grows(m: Seq<RegionV>, cls: int, sizes: Seq<(u64, u32)>, depth: nat, end: int)
    ensures
        holder_size_from(m, cls, sizes, depth, end) >= end,
    decreases 64 - depth,
{
    if cls != 0 && depth < 64 {
        let next = match usual_table(m, cls) {
            Some((arr, n)) => holder_end(m, arr as int, n, sizes, 0, end),
            None => end,
        };
        match usual_table(m, cls) {
            Some((arr, n)) => {
                lemma_end_grows(m, arr as int, n, sizes, 0, end);
            },
            None => {},
        }
        match word(m, cls + 0x10, 8) {
            Some(parent) => {
                lemma_holder_grows(m, parent as int, sizes, depth + 1, next);
            },
            None => {},
        }
    }
}

// ---- kinship and enums -----------------------------------------------------

/// A class derives from itself, from its parent, and from what its parent derives
/// from; the name of a class stands at 0x18.
pub proof fn classes_derive_from_their_ancestors(m: Seq<RegionV>, cls: int, name: u64, depth: nat)
    requires
        cls != 0,
        depth < 64,
        readable(m, cls, 0x20),
    ensures
        word(m, cls + 0x18, 8) == Some(name as nat) ==> derives_from(m, cls, name, depth),
        derives_from(m, word_or_zero(m, cls + 0x10, 8) as int, name, depth + 1) ==> derives_from(
            m,
            cls,
            name,
            depth,
        ),
        word_or_zero(m, cls + 0x18, 8) != name && !derives_from(
            m,
            word_or_zero(m, cls + 0x10, 8) as int,
            name,
            depth + 1,
        ) ==> !derives_from(m, cls, name, depth),
{
}

/// The value of a member of an enum is the one at the place of its name.
pub proof fn members_have_their_values(m: Seq<RegionV>, en: int, names: nat, n: nat, values: nat, name: u64, k: nat)
    requires
        en != 0,
        word(m, en + 0x28, 8) == Some(names),
        word(m, en + 0x30, 4) == Some(n),
        word(m, en + 0x38, 8) == Some(values),
        names != 0,
        values != 0,
        n <= 100_000,
        k < n,
        word(m, names as int + 8 * k, 8) == Some(name as nat),
        forall|j: int| 0 <= j < k ==> #[trigger] word(m, names as int + 8 * j, 8) != Some(name as nat),
    ensures
        enum_value(m, en, name) == word(m, values as int + 8 * k, 8),
{
    lemma_enum(m, names as int, values as int, n, name, 0, k);
}

proof fn lemma_enum(m: Seq<RegionV>, names: int, values: int, n: nat, name: u64, i: nat, k: nat)
    requires
        i <= k < n,
        word(m, names as int + 8 * k, 8) == Some(name as nat),
        forall|j: int| i <= j < k ==> #[trigger] word(m, names as int + 8 * j, 8) != Some(name as nat),
    ensures
        enum_value_in(m, names, values, n, name, i) == word(m, values as int + 8 * k, 8),
    decreases k - i,
{
    if i < k {
        assert(word(m, names as int + 8 * i, 8) != Some(name as nat));
        lemma_enum(m, names, values, n, name, i + 1, k);
    }
}

} // verus!
