//! A picture of a process's memory: the regions that can be read. Everything
//! that walks the engine's structures does so over such a picture.
use vstd::prelude::*;

use crate::cursor::{le_value, Cursor};

verus! {

/// A stretch of memory that can be read.
pub struct Region {
    pub base: u64,
    pub bytes: Vec<u8>,
}

pub struct RegionV {
    pub base: int,
    pub bytes: Seq<u8>,
}

/// The stretches of memory that can be read; the first that holds a whole range
/// answers for it.
pub struct Memory {
    pub regions: Vec<Region>,
}

pub open spec fn regions_view(v: Seq<Region>) -> Seq<RegionV> {
    v.map_values(|r: Region| RegionV { base: r.base as int, bytes: r.bytes@ })
}

impl View for Memory {
    type V = Seq<RegionV>;

    open spec fn view(&self) -> Seq<RegionV> {
        regions_view(self.regions@)
    }
}

pub open spec fn holds(r: RegionV, addr: int, len: int) -> bool {
    r.base <= addr && addr + len <= r.base + r.bytes.len()
}

/// The first region from `i` on that holds the range, or their number.
pub open spec fn region_index(m: Seq<RegionV>, addr: int, len: int, i: int) -> int
    decreases m.len() - i,
{
    if i >= m.len() {
        m.len() as int
    } else if holds(m[i], addr, len) {
        i
    } else {
        region_index(m, addr, len, i + 1)
    }
}

/// Can the range be read?
pub open spec fn readable(m: Seq<RegionV>, addr: int, len: int) -> bool {
    region_index(m, addr, len, 0) < m.len()
}

/// The number of so many bytes at an address.
pub open spec fn word(m: Seq<RegionV>, addr: int, len: nat) -> Option<nat> {
    let k = region_index(m, addr, len as int, 0);
    if 0 <= k < m.len() {
        let at = addr - m[k].base;
        Some(le_value(m[k].bytes.subrange(at, at + len)))
    } else {
        None
    }
}

/// The number at an address, or zero where it cannot be read.
pub open spec fn word_or_zero(m: Seq<RegionV>, addr: int, len: nat) -> nat {
    match word(m, addr, len) {
        Some(v) => v,
        None => 0,
    }
}

/// A number that can be a pointer into the process.
pub open spec fn is_sane(a: int) -> bool {
    0x1_0000 < a < 0x8000_0000_0000
}

pub fn sane(a: u64) -> (r: bool)
    ensures
        r == is_sane(a as int),
{
    a > 0x1_0000 && a < 0x8000_0000_0000
}

pub proof fn lemma_region_index(m: Seq<RegionV>, addr: int, len: int, i: int)
    requires
        0 <= i <= m.len(),
    ensures
        i <= region_index(m, addr, len, i) <= m.len(),
        region_index(m, addr, len, i) < m.len() ==> holds(
            m[region_index(m, addr, len, i)],
            addr,
            len,
        ),
    decreases m.len() - i,
{
    if i < m.len() && !holds(m[i], addr, len) {
        lemma_region_index(m, addr, len, i + 1);
    }
}

impl Memory {
    fn find(&self, addr: u128, len: u64) -> (r: Option<usize>)
        ensures
            match r {
                Some(k) => region_index(self@, addr as int, len as int, 0) == k && k
                    < self.regions@.len() && holds(self@[k as int], addr as int, len as int),
                None => region_index(self@, addr as int, len as int, 0) == self@.len(),
            },
    {
        let mut i: usize = 0;
        while i < self.regions.len()
            invariant
                i <= self.regions@.len(),
                region_index(self@, addr as int, len as int, 0) == region_index(
                    self@,
                    addr as int,
                    len as int,
                    i as int,
                ),
            decreases self.regions@.len() - i,
        {
            let base: u128 = self.regions[i].base as u128;
            let n: u128 = self.regions[i].bytes.len() as u128;
            proof {
                assert(self@[i as int] == (RegionV {
                    base: self.regions@[i as int].base as int,
                    bytes: self.regions@[i as int].bytes@,
                }));
            }
            if base <= addr && addr - base <= n && len as u128 <= n - (addr - base) {
                return Some(i);
            }
            i += 1;
        }
        None
    }

    /// Can the range be read?
    pub fn is_readable(&self, addr: u128, len: u64) -> (r: bool)
        ensures
            r == readable(self@, addr as int, len as int),
    {
        self.find(addr, len).is_some()
    }

    /// Eight bytes at an address.
    pub fn read_u64(&self, addr: u128) -> (r: Option<u64>)
        ensures
            match r {
                Some(v) => word(self@, addr as int, 8) == Some(v as nat),
                None => word(self@, addr as int, 8) is None,
            },
    {
        match self.find(addr, 8) {
            None => None,
            Some(k) => {
                let reg = &self.regions[k];
                let n: usize = reg.bytes.len();
                proof {
                    assert(self@[k as int] == (RegionV {
                        base: reg.base as int,
                        bytes: reg.bytes@,
                    }));
                    assert(addr - reg.base <= n);
                }
                let at: usize = (addr - reg.base as u128) as usize;
                let mut c = Cursor { data: reg.bytes.as_slice(), pos: at };
                match c.u64() {
                    Ok(v) => Some(v),
                    Err(_) => Some(0),
                }
            },
        }
    }

    /// Four bytes at an address.
    pub fn read_u32(&self, addr: u128) -> (r: Option<u32>)
        ensures
            match r {
                Some(v) => word(self@, addr as int, 4) == Some(v as nat),
                None => word(self@, addr as int, 4) is None,
            },
    {
        match self.find(addr, 4) {
            None => None,
            Some(k) => {
                let reg = &self.regions[k];
                let n: usize = reg.bytes.len();
                proof {
                    assert(self@[k as int] == (RegionV {
                        base: reg.base as int,
                        bytes: reg.bytes@,
                    }));
                    assert(addr - reg.base <= n);
                }
                let at: usize = (addr - reg.base as u128) as usize;
                let mut c = Cursor { data: reg.bytes.as_slice(), pos: at };
                match c.u32() {
                    Ok(v) => Some(v),
                    Err(_) => Some(0),
                }
            },
        }
    }

    /// The byte at an address.
    pub fn read_u8(&self, addr: u128) -> (r: Option<u8>)
        ensures
            match r {
                Some(v) => word(self@, addr as int, 1) == Some(v as nat),
                None => word(self@, addr as int, 1) is None,
            },
    {
        match self.find(addr, 1) {
            None => None,
            Some(k) => {
                let reg = &self.regions[k];
                let n: usize = reg.bytes.len();
                proof {
                    assert(self@[k as int] == (RegionV {
                        base: reg.base as int,
                        bytes: reg.bytes@,
                    }));
                    assert(addr - reg.base <= n);
                }
                let at: usize = (addr - reg.base as u128) as usize;
                let b: u8 = reg.bytes[at];
                proof {
                    let one = reg.bytes@.subrange(at as int, at + 1);
                    assert(one[0] == b);
                    assert(one.skip(1).len() == 0);
                    reveal_with_fuel(crate::cursor::le_value, 2);
                }
                Some(b)
            },
        }
    }

    /// Eight bytes at an address, or zero.
    pub fn u64_or_zero(&self, addr: u128) -> (r: u64)
        ensures
            r == word_or_zero(self@, addr as int, 8),
    {
        match self.read_u64(addr) {
            Some(v) => v,
            None => 0,
        }
    }

    /// Four bytes at an address, or zero.
    pub fn u32_or_zero(&self, addr: u128) -> (r: u32)
        ensures
            r == word_or_zero(self@, addr as int, 4),
    {
        match self.read_u32(addr) {
            Some(v) => v,
            None => 0,
        }
    }
}

} // verus!
