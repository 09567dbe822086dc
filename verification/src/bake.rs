//! Flats from a precomputed file, found by id.
//!
//! The file is `BWTDB01\0`, a count, and that many records of an id, a value and
//! a tag, ordered by id. Tags: 1 float, 2 integer, 3 boolean, 4 name, 5 id.
use vstd::prelude::*;

use crate::cursor::{le_value, Cursor};

verus! {

/// The bytes of a file that was found valid.
pub struct BakedFlats {
    data: Vec<u8>,
}

pub open spec fn has_magic(data: Seq<u8>) -> bool {
    data.len() >= 16 && data[0] == 0x42 && data[1] == 0x57 && data[2] == 0x54 && data[3] == 0x44
        && data[4] == 0x42 && data[5] == 0x30 && data[6] == 0x31 && data[7] == 0
}

/// How many records the file announces.
pub open spec fn record_count(data: Seq<u8>) -> nat {
    le_value(data.subrange(8, 16))
}

/// Is it a whole file of that kind?
pub open spec fn is_baked(data: Seq<u8>) -> bool {
    has_magic(data) && 16 + 17 * record_count(data) <= data.len()
}

pub open spec fn record_id(data: Seq<u8>, k: int) -> nat {
    le_value(data.subrange(16 + 17 * k, 24 + 17 * k))
}

pub open spec fn record_value(data: Seq<u8>, k: int) -> nat {
    le_value(data.subrange(24 + 17 * k, 32 + 17 * k))
}

pub open spec fn record_tag(data: Seq<u8>, k: int) -> u8 {
    data[32 + 17 * k]
}

/// Where a search by halving between `lo` and `hi` finds the id.
pub open spec fn halving(data: Seq<u8>, id: nat, lo: int, hi: int) -> Option<int>
    decreases hi - lo,
{
    if lo >= hi {
        None
    } else {
        let mid = (lo + hi) / 2;
        if record_id(data, mid) < id {
            halving(data, id, mid + 1, hi)
        } else if record_id(data, mid) > id {
            halving(data, id, lo, mid)
        } else {
            Some(mid)
        }
    }
}

impl View for BakedFlats {
    type V = Seq<u8>;

    closed spec fn view(&self) -> Seq<u8> {
        self.data@
    }
}

impl BakedFlats {
    #[verifier::type_invariant]
    spec fn inv(self) -> bool {
        is_baked(self.data@)
    }

    /// Accepts the bytes of a file where they are whole.
    pub fn load(data: Vec<u8>) -> (r: Option<BakedFlats>)
        ensures
            match r {
                Some(db) => is_baked(data@) && db@ == data@,
                None => !is_baked(data@),
            },
    {
        if data.len() < 16 {
            return None;
        }
        if data[0] != 0x42 || data[1] != 0x57 || data[2] != 0x54 || data[3] != 0x44 || data[4]
            != 0x42 || data[5] != 0x30 || data[6] != 0x31 || data[7] != 0 {
            return None;
        }
        let count: u64 = number_at(&data, 8);
        if data.len() as u128 >= 16 + 17 * (count as u128) {
            Some(BakedFlats { data })
        } else {
            None
        }
    }
}

/// Eight bytes as a number.
fn number_at(data: &Vec<u8>, pos: usize) -> (r: u64)
    requires
        pos + 8 <= data@.len(),
    ensures
        r == le_value(data@.subrange(pos as int, pos + 8)),
{
    let mut c = Cursor { data: data.as_slice(), pos };
    match c.u64() {
        Ok(v) => v,
        Err(_) => 0,
    }
}

/// Was a file of flats accepted?
pub fn is_loaded(db: &Option<BakedFlats>) -> (r: bool)
    ensures
        r == db.is_some(),
{
    db.is_some()
}

/// The tag and value of a flat by its id.
pub fn lookup(db: &Option<BakedFlats>, id: u64) -> (r: Option<(u8, u64)>)
    ensures
        match db {
            None => r is None,
            Some(d) => match halving(d@, id as nat, 0, record_count(d@) as int) {
                Some(k) => r == Some((record_tag(d@, k), record_value(d@, k) as u64)),
                None => r is None,
            },
        },
{
    let d = match db {
        None => {
            return None;
        },
        Some(d) => d,
    };
    proof {
        use_type_invariant(d);
    }
    let count: u64 = number_at(&d.data, 8);
    let mut lo: usize = 0;
    let mut hi: usize = count as usize;
    while lo < hi
        invariant
            is_baked(d@),
            d@ == d.data@,
            lo <= hi <= record_count(d@),
            hi <= d.data.len(),
            Some(*d) == *db,
            halving(d@, id as nat, 0, record_count(d@) as int) == halving(
                d@,
                id as nat,
                lo as int,
                hi as int,
            ),
        decreases hi - lo,
    {
        let mid: usize = lo + (hi - lo) / 2;
        let off: usize = 16 + mid * 17;
        let rid: u64 = number_at(&d.data, off);
        if rid < id {
            lo = mid + 1;
        } else if rid > id {
            hi = mid;
        } else {
            let val: u64 = number_at(&d.data, off + 8);
            return Some((d.data[off + 16], val));
        }
    }
    None
}

// ---- laws ------------------------------------------------------------------

/// Are the records in the order of their ids?
pub open spec fn in_order(data: Seq<u8>) -> bool {
    forall|i: int, j: int|
        0 <= i < j < record_count(data) ==> #[trigger] record_id(data, i) < #[trigger] record_id(
            data,
            j,
        )
}

/// What is found is a record with that id; and in an ordered file an id that is
/// there is found.
pub proof fn lookup_finds_what_is_there(data: Seq<u8>, id: nat, k: int)
    requires
        is_baked(data),
    ensures
        match halving(data, id, 0, record_count(data) as int) {
            Some(m) => 0 <= m < record_count(data) && record_id(data, m) == id,
            None => true,
        },
        in_order(data) && 0 <= k < record_count(data) && record_id(data, k) == id ==> halving(
            data,
            id,
            0,
            record_count(data) as int,
        ) == Some(k),
{
    lemma_halving(data, id, 0, record_count(data) as int, k);
}

proof fn lemma_halving(data: Seq<u8>, id: nat, lo: int, hi: int, k: int)
    requires
        0 <= lo <= hi <= record_count(data),
    ensures
        match halving(data, id, lo, hi) {
            Some(m) => lo <= m < hi && record_id(data, m) == id,
            None => true,
        },
        in_order(data) && lo <= k < hi && record_id(data, k) == id ==> halving(data, id, lo, hi)
            == Some(k),
    decreases hi - lo,
{
    if lo < hi {
        let mid = (lo + hi) / 2;
        if record_id(data, mid) < id {
            lemma_halving(data, id, mid + 1, hi, k);
            if in_order(data) && lo <= k < mid {
                assert(record_id(data, k) < record_id(data, mid));
            }
        } else if record_id(data, mid) > id {
            lemma_halving(data, id, lo, mid, k);
            if in_order(data) && mid < k < hi {
                assert(record_id(data, mid) < record_id(data, k));
            }
        } else {
            if in_order(data) && lo <= k < hi && record_id(data, k) == id && k != mid {
                if k < mid {
                    assert(record_id(data, k) < record_id(data, mid));
                } else {
                    assert(record_id(data, mid) < record_id(data, k));
                }
            }
        }
    }
}

} // verus!
