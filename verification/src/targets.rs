//! Addresses of the program: the base it is linked at, what the loader adds, and
//! functions whose place in the file is known.
use vstd::prelude::*;

verus! {

/// Where the program is linked.
pub const IMAGE_BASE: u64 = 0x1_0000_0000;

/// A function whose place in the file is known.
pub struct Thunk {
    pub name: &'static str,
    pub vmaddr: u64,
}

pub open spec fn thunks_view(v: Seq<Thunk>) -> Seq<(Seq<char>, u64)> {
    v.map_values(|t: Thunk| (t.name@, t.vmaddr))
}

/// The functions that can be hooked without asking the engine: movement first,
/// then the reading of state.
pub open spec fn known_thunks() -> Seq<(Seq<char>, u64)> {
    seq![
        ("ActionLocomotionParameters::funcSetUpwardsGravity"@, 0x1_03bb_804cu64),
        ("ActionLocomotionParameters::funcSetDownwardsGravity"@, 0x1_03bb_80d0u64),
        ("ActionLocomotionParameters::funcSetIgnoreSlope"@, 0x1_03bb_8574u64),
        ("ActionLocomotionParameters::funcSetDoJump"@, 0x1_03bb_847cu64),
        ("ActionLocomotionParameters::funcSetCapsuleHeight"@, 0x1_03bb_8364u64),
        ("ActionLocomotionParameters::funcSetCapsuleRadius"@, 0x1_03bb_83f0u64),
        ("PersistencySystem::funcGetPersistentVar<bool>"@, 0x1_03ff_5014u64),
        ("IBlackboard::funcGet<int>"@, 0x1_0118_f2ccu64),
    ]
}

/// The functions that can be hooked without asking the engine.
pub fn static_thunks() -> (r: Vec<Thunk>)
    ensures
        thunks_view(r@) == known_thunks(),
{
    let mut out: Vec<Thunk> = Vec::new();
    out.push(
        Thunk {
            name: "ActionLocomotionParameters::funcSetUpwardsGravity",
            vmaddr: 0x1_03bb_804c,
        },
    );
    out.push(
        Thunk {
            name: "ActionLocomotionParameters::funcSetDownwardsGravity",
            vmaddr: 0x1_03bb_80d0,
        },
    );
    out.push(
        Thunk { name: "ActionLocomotionParameters::funcSetIgnoreSlope", vmaddr: 0x1_03bb_8574 },
    );
    out.push(Thunk { name: "ActionLocomotionParameters::funcSetDoJump", vmaddr: 0x1_03bb_847c });
    out.push(
        Thunk { name: "ActionLocomotionParameters::funcSetCapsuleHeight", vmaddr: 0x1_03bb_8364 },
    );
    out.push(
        Thunk { name: "ActionLocomotionParameters::funcSetCapsuleRadius", vmaddr: 0x1_03bb_83f0 },
    );
    out.push(Thunk { name: "PersistencySystem::funcGetPersistentVar<bool>", vmaddr: 0x1_03ff_5014 });
    out.push(Thunk { name: "IBlackboard::funcGet<int>", vmaddr: 0x1_0118_f2cc });
    proof {
        assert(thunks_view(out@) =~= known_thunks());
    }
    out
}

/// The program in memory: what the loader added to its addresses, and its size.
#[derive(Clone, Copy)]
pub struct Image {
    pub slide: u64,
    pub size: u64,
}

impl Image {
    /// Does the address lie in the program?
    pub open spec fn holds(&self, a: int) -> bool {
        IMAGE_BASE + self.slide <= a < IMAGE_BASE + self.slide + self.size
    }

    /// The address as it stands in the program's file; zero where it lies
    /// elsewhere.
    pub open spec fn file_address(&self, a: u64) -> u64 {
        if self.holds(a as int) {
            (a - self.slide) as u64
        } else {
            0
        }
    }

    /// The address in memory of an address in the file.
    pub fn rebase(&self, vmaddr: u64) -> (r: u64)
        requires
            vmaddr + self.slide <= u64::MAX,
        ensures
            r == vmaddr + self.slide,
    {
        vmaddr + self.slide
    }

    /// The address in the file of an address in memory.
    pub fn un_rebase(&self, a: u64) -> (r: u64)
        ensures
            r == self.file_address(a),
    {
        let start: u128 = IMAGE_BASE as u128 + self.slide as u128;
        if start <= a as u128 && (a as u128) < start + self.size as u128 {
            a - self.slide
        } else {
            0
        }
    }
}

/// An address of the file that lies in the program is found again from memory.
pub proof fn addresses_map_back(image: Image, vmaddr: u64)
    requires
        IMAGE_BASE <= vmaddr < IMAGE_BASE + image.size,
        vmaddr + image.slide <= u64::MAX,
    ensures
        image.file_address((vmaddr + image.slide) as u64) == vmaddr,
{
}

} // verus!
