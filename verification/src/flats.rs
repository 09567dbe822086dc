//! Looking values up in the running database: the sorted table of flats, the
//! choice of the live instance, the steps that register a record, and the dump
//! that helps to find the tables in memory.
use vstd::prelude::*;

use crate::hashes::{id_of, record_type_key, tweak_db_id, type_key_of};
use crate::text::{dec, hex_digit_lower, push_chars, push_dec, push_lit, string_of};

verus! {

// ---- the table of flats ----------------------------------------------------

/// The order of the table: the hash of the name, then the low byte of its
/// length.
pub open spec fn flat_key(e: u64) -> int {
    (e as int % 0x1_0000_0000) * 256 + (e as int / 0x1_0000_0000) % 256
}

/// Where the value lies in the data buffer: the three high bytes, the most
/// significant one first.
pub open spec fn flat_offset(e: u64) -> int {
    (e as int / 0x100_0000_0000) % 256 * 65536 + (e as int / 0x1_0000_0000_0000) % 256 * 256 + (
    e as int / 0x100_0000_0000_0000) % 256
}

/// Where a search by halving between `lo` and `hi` finds the key.
pub open spec fn flat_search(entries: Seq<u64>, key: int, lo: int, hi: int) -> Option<int>
    decreases hi - lo,
{
    if lo >= hi {
        None
    } else {
        let mid = lo + (hi - lo) / 2;
        if flat_key(entries[mid]) < key {
            flat_search(entries, key, mid + 1, hi)
        } else if flat_key(entries[mid]) > key {
            flat_search(entries, key, lo, mid)
        } else {
            Some(mid)
        }
    }
}

/// The offset of a flat by its name. A table that is empty or implausibly large
/// is not searched.
pub open spec fn flat_found(entries: Seq<u64>, name: Seq<char>) -> Option<int> {
    if entries.len() > 10_000_000 {
        None
    } else {
        match flat_search(entries, flat_key(id_of(name)), 0, entries.len() as int) {
            Some(k) => Some(flat_offset(entries[k])),
            None => None,
        }
    }
}

fn key_number(e: u64) -> (r: u64)
    ensures
        r == flat_key(e),
{
    (e % 0x1_0000_0000) * 256 + (e / 0x1_0000_0000) % 256
}

/// Finds a flat by its name in the sorted table.
pub fn get_flat_value(entries: &[u64], name: &str) -> (r: Option<u32>)
    ensures
        match r {
            Some(off) => flat_found(entries@, name@) == Some(off as int),
            None => flat_found(entries@, name@) is None,
        },
{
    if entries.len() > 10_000_000 {
        return None;
    }
    let key: u64 = key_number(tweak_db_id(name));
    let mut lo: usize = 0;
    let mut hi: usize = entries.len();
    while lo < hi
        invariant
            lo <= hi <= entries@.len() <= 10_000_000,
            key == flat_key(id_of(name@)),
            flat_search(entries@, key as int, 0, entries@.len() as int) == flat_search(
                entries@,
                key as int,
                lo as int,
                hi as int,
            ),
        decreases hi - lo,
    {
        let mid: usize = lo + (hi - lo) / 2;
        let e: u64 = entries[mid];
        let k: u64 = key_number(e);
        if k < key {
            lo = mid + 1;
        } else if k > key {
            hi = mid;
        } else {
            let off: u64 = (e / 0x100_0000_0000) % 256 * 65536 + (e / 0x1_0000_0000_0000) % 256
                * 256 + (e / 0x100_0000_0000_0000) % 256;
            return Some(off as u32);
        }
    }
    None
}

/// Is the table in its order, each key once?
pub open spec fn table_sorted(entries: Seq<u64>) -> bool {
    forall|i: int, j: int|
        0 <= i < j < entries.len() ==> flat_key(#[trigger] entries[i]) < flat_key(
            #[trigger] entries[j],
        )
}

/// What is found has the key of the name; and in a sorted table a flat that is
/// there is found.
pub proof fn sorted_table_is_searched_fully(entries: Seq<u64>, name: Seq<char>, k: int)
    requires
        table_sorted(entries),
        entries.len() <= 10_000_000,
        0 <= k < entries.len(),
        flat_key(entries[k]) == flat_key(id_of(name)),
    ensures
        flat_found(entries, name) == Some(flat_offset(entries[k])),
{
    lemma_flat_search(entries, flat_key(id_of(name)), 0, entries.len() as int, k);
}

/// Nothing is found under a name that no entry has.
pub proof fn absent_flat_is_not_found(entries: Seq<u64>, name: Seq<char>)
    requires
        forall|i: int|
            0 <= i < entries.len() ==> flat_key(#[trigger] entries[i]) != flat_key(id_of(name)),
    ensures
        flat_found(entries, name) is None,
{
    lemma_absent(entries, flat_key(id_of(name)), 0, entries.len() as int);
}

proof fn lemma_absent(entries: Seq<u64>, key: int, lo: int, hi: int)
    requires
        0 <= lo <= hi <= entries.len(),
        forall|i: int| 0 <= i < entries.len() ==> flat_key(#[trigger] entries[i]) != key,
    ensures
        flat_search(entries, key, lo, hi) is None,
    decreases hi - lo,
{
    if lo < hi {
        let mid = lo + (hi - lo) / 2;
        assert(flat_key(entries[mid]) != key);
        if flat_key(entries[mid]) < key {
            lemma_absent(entries, key, mid + 1, hi);
        } else {
            lemma_absent(entries, key, lo, mid);
        }
    }
}

proof fn lemma_flat_search(entries: Seq<u64>, key: int, lo: int, hi: int, k: int)
    requires
        table_sorted(entries),
        0 <= lo <= k < hi <= entries.len(),
        flat_key(entries[k]) == key,
    ensures
        flat_search(entries, key, lo, hi) == Some(k),
    decreases hi - lo,
{
    let mid = lo + (hi - lo) / 2;
    if flat_key(entries[mid]) < key {
        if k <= mid {
            if k < mid {
                assert(flat_key(entries[k]) < flat_key(entries[mid]));
            }
        }
        lemma_flat_search(entries, key, mid + 1, hi, k);
    } else if flat_key(entries[mid]) > key {
        if k >= mid {
            if k > mid {
                assert(flat_key(entries[mid]) < flat_key(entries[k]));
            }
        }
        lemma_flat_search(entries, key, lo, mid, k);
    } else if k < mid {
        assert(flat_key(entries[k]) < flat_key(entries[mid]));
    } else if mid < k {
        assert(flat_key(entries[mid]) < flat_key(entries[k]));
    }
}

// ---- the live instance -----------------------------------------------------

/// A possible address of the live database: whether its memory can be read, and
/// the pointer to its data buffer.
#[derive(Clone, Copy)]
pub struct Candidate {
    pub addr: u64,
    pub readable: bool,
    pub buffer: u64,
}

impl Candidate {
    /// Is the database there and loaded?
    pub open spec fn loaded(self) -> bool {
        self.addr != 0 && self.readable && self.buffer != 0
    }

    pub fn is_loaded(&self) -> (r: bool)
        ensures
            r == self.loaded(),
    {
        self.addr != 0 && self.readable && self.buffer != 0
    }
}

/// Must the getter be called? Not where the global already holds a loaded
/// database.
pub fn needs_getter(global: Option<Candidate>) -> (r: bool)
    ensures
        r == !(global is Some && global->0.loaded()),
{
    match global {
        Some(c) => !c.is_loaded(),
        None => true,
    }
}

/// The live database: the one in the global where it is loaded, then the one
/// from the getter where it is, then whatever readable one the global holds
/// after the getter ran.
pub fn singleton(global: Option<Candidate>, got: Candidate, after: Option<Candidate>) -> (r: Option<
    u64,
>)
    ensures
        r == (if global is Some && global->0.loaded() {
            Some(global->0.addr)
        } else if got.loaded() {
            Some(got.addr)
        } else if after is Some && after->0.addr != 0 && after->0.readable {
            Some(after->0.addr)
        } else {
            None::<u64>
        }),
{
    if let Some(c) = global {
        if c.is_loaded() {
            return Some(c.addr);
        }
    }
    if got.is_loaded() {
        return Some(got.addr);
    }
    if let Some(c) = after {
        if c.addr != 0 && c.readable {
            return Some(c.addr);
        }
    }
    None
}

// ---- registering a record --------------------------------------------------

/// What is to be done next to register a record in the running database.
#[derive(Clone, Copy, PartialEq, Eq, Structural)]
pub enum CreateStep {
    /// The database is not there or not loaded: try again later.
    Wait,
    /// Ask whether the id is taken.
    AskBefore { id: u64 },
    /// The id is taken: nothing is done.
    Taken,
    /// Create the record.
    Create { id: u64, type_hash: u32 },
    /// Ask whether the record is there now.
    AskAfter { id: u64 },
    /// The record is there, or it is not.
    Done { created: bool },
}

/// What is known so far.
#[derive(Clone, Copy)]
pub struct CreateState {
    pub available: bool,
    pub loaded: bool,
    pub before: Option<bool>,
    pub created: bool,
    pub after: Option<bool>,
}

/// The next step of registering a record: only a database that is loaded is
/// touched, and only an id that is free is created.
pub fn create_record_rt(class_name: &str, new_name: &str, st: CreateState) -> (r: CreateStep)
    ensures
        r == (if !st.available || !st.loaded {
            CreateStep::Wait
        } else {
            match st.before {
                None => CreateStep::AskBefore { id: id_of(new_name@) },
                Some(true) => CreateStep::Taken,
                Some(false) => if !st.created {
                    CreateStep::Create {
                        id: id_of(new_name@),
                        type_hash: type_key_of(class_name@),
                    }
                } else {
                    match st.after {
                        None => CreateStep::AskAfter { id: id_of(new_name@) },
                        Some(there) => CreateStep::Done { created: there },
                    }
                },
            }
        }),
{
    if !st.available || !st.loaded {
        return CreateStep::Wait;
    }
    let id: u64 = tweak_db_id(new_name);
    match st.before {
        None => CreateStep::AskBefore { id },
        Some(taken) => if taken {
            CreateStep::Taken
        } else if !st.created {
            CreateStep::Create { id, type_hash: record_type_key(class_name) }
        } else {
            match st.after {
                None => CreateStep::AskAfter { id },
                Some(there) => CreateStep::Done { created: there },
            }
        },
    }
}

// ---- the dump --------------------------------------------------------------

pub const N_RECORDS: u32 = 176_198;

pub const N_FLATS: u32 = 2_880_555;

/// Do two counts differ by less than 256?
pub open spec fn near(x: int, t: int) -> bool {
    -256 < x - t < 256
}

/// What a word of the dump may be: a count of records, a count of flats.
pub open spec fn word_note(v: u64) -> Seq<char> {
    let lo = v as int % 0x1_0000_0000;
    let hi = v as int / 0x1_0000_0000;
    let a = if near(lo, N_RECORDS as int) || near(hi, N_RECORDS as int) {
        " <== ~N_RECORDS (records-map?)"@
    } else {
        Seq::empty()
    };
    let b = if near(lo, N_FLATS as int) || near(hi, N_FLATS as int) {
        " <== ~N_FLATS (flats?)"@
    } else {
        Seq::empty()
    };
    a + b
}

/// Hexadecimal digits without leading zeros; at least one.
pub open spec fn hex_short(n: nat) -> Seq<char>
    decreases n,
{
    if n < 16 {
        seq![hex_digit_lower(n)]
    } else {
        hex_short(n / 16).push(hex_digit_lower(n % 16))
    }
}

/// Zeros in front, up to the width.
pub open spec fn zero_padded(s: Seq<char>, width: nat) -> Seq<char>
    decreases width - s.len(),
{
    if s.len() >= width {
        s
    } else {
        zero_padded(seq!['0'] + s, width)
    }
}

/// A number as `0x...`, padded with zeros to so many digits.
pub open spec fn hex_literal(n: nat, digits: nat) -> Seq<char> {
    "0x"@ + zero_padded(hex_short(n), digits)
}

fn push_hex_short(out: &mut Vec<char>, n: u64)
    ensures
        final(out)@ == old(out)@ + hex_short(n as nat),
    decreases n,
{
    let ghost before = out@;
    if n >= 16 {
        push_hex_short(out, n / 16);
    }
    let d: u8 = (n % 16) as u8;
    if d < 10 {
        out.push((48u8 + d) as char);
    } else {
        out.push((87u8 + d) as char);
    }
    proof {
        assert(out@ =~= before + hex_short(n as nat));
    }
}

/// Appends a number as `0x...`, padded with zeros to so many digits.
pub fn push_hex_literal(out: &mut Vec<char>, n: u64, digits: usize)
    ensures
        final(out)@ == old(out)@ + hex_literal(n as nat, digits as nat),
{
    let ghost before = out@;
    push_lit(out, "0x");
    let mut short: Vec<char> = Vec::new();
    push_hex_short(&mut short, n);
    proof {
        assert(short@ =~= hex_short(n as nat));
    }
    let mut len: usize = short.len();
    let ghost mut padded = short@;
    let ghost head = out@;
    proof {
        assert(out@ =~= head + zeros(0));
        assert(zeros(0) + short@ =~= short@);
    }
    let mut k: usize = 0;
    while len < digits
        invariant
            len == short@.len() + k,
            out@ == head + zeros(k as nat),
            padded == zeros(k as nat) + short@,
            zero_padded(short@, digits as nat) == zero_padded(padded, digits as nat),
            short@ == hex_short(n as nat),
        decreases digits - len,
    {
        out.push('0');
        len += 1;
        k += 1;
        proof {
            let next = seq!['0'] + padded;
            lemma_zeros(k as nat);
            assert(out@ =~= head + zeros(k as nat));
            assert(next =~= zeros(k as nat) + short@);
            padded = next;
        }
    }
    let ghost z = zeros(k as nat);
    push_chars(out, short.as_slice());
    proof {
        assert(zero_padded(padded, digits as nat) == padded);
        assert(out@ =~= before + hex_literal(n as nat, digits as nat));
    }
}

/// A row of zeros.
spec fn zeros(k: nat) -> Seq<char> {
    Seq::new(k, |i: int| '0')
}

proof fn lemma_zeros(k: nat)
    requires
        k > 0,
    ensures
        zeros(k) == zeros((k - 1) as nat).push('0'),
        zeros(k) == seq!['0'] + zeros((k - 1) as nat),
{
    assert(zeros(k) =~= zeros((k - 1) as nat).push('0'));
    assert(zeros(k) =~= seq!['0'] + zeros((k - 1) as nat));
}

/// A line of the dump: the offset, and the word there where it can be read.
pub open spec fn dump_line_of(off: nat, word: Option<u64>) -> Seq<char> {
    match word {
        None => "[tdb]   +"@ + hex_literal(off, 3) + ": (não mapeado)"@,
        Some(v) => "[tdb]   +"@ + hex_literal(off, 3) + ": "@ + hex_literal(v as nat, 16)
            + "  (lo="@ + dec((v as int % 0x1_0000_0000) as nat) + " hi="@ + dec(
            (v as int / 0x1_0000_0000) as nat,
        ) + ")"@ + word_note(v),
    }
}

fn is_near(x: u64, t: u32) -> (r: bool)
    requires
        x <= u32::MAX,
    ensures
        r == near(x as int, t as int),
{
    let t: u64 = t as u64;
    if x >= t {
        x - t < 256
    } else {
        t - x < 256
    }
}

/// A line of the dump of the live database.
pub fn dump_line(off: u64, word: Option<u64>) -> (r: String)
    ensures
        r@ == dump_line_of(off as nat, word),
{
    let mut out: Vec<char> = Vec::new();
    push_lit(&mut out, "[tdb]   +");
    push_hex_literal(&mut out, off, 3);
    match word {
        None => {
            push_lit(&mut out, ": (não mapeado)");
            proof {
                assert(out@ =~= dump_line_of(off as nat, word));
            }
        },
        Some(v) => {
            let lo: u64 = v % 0x1_0000_0000;
            let hi: u64 = v / 0x1_0000_0000;
            push_lit(&mut out, ": ");
            push_hex_literal(&mut out, v, 16);
            push_lit(&mut out, "  (lo=");
            push_dec(&mut out, lo as u128);
            push_lit(&mut out, " hi=");
            push_dec(&mut out, hi as u128);
            push_lit(&mut out, ")");
            let ghost before = out@;
            if is_near(lo, N_RECORDS) || is_near(hi, N_RECORDS) {
                push_lit(&mut out, " <== ~N_RECORDS (records-map?)");
            }
            if is_near(lo, N_FLATS) || is_near(hi, N_FLATS) {
                push_lit(&mut out, " <== ~N_FLATS (flats?)");
            }
            proof {
                assert(out@ =~= before + word_note(v));
                assert(out@ =~= dump_line_of(off as nat, word));
            }
        },
    }
    string_of(out.as_slice())
}

} // verus!
