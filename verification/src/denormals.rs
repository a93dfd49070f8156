//! The MXCSR value of the audio thread's denormal protection: Flush-To-Zero
//! and Denormals-Are-Zero set, every other bit kept. Reading and writing the
//! register is left to the caller.

use vstd::prelude::*;

verus! {

/// Flush-To-Zero, bit 15 of MXCSR.
pub const FTZ_BIT: u32 = 0x8000;

/// Denormals-Are-Zero, bit 6 of MXCSR.
pub const DAZ_BIT: u32 = 0x0040;

/// The MXCSR value with denormal protection turned on.
pub open spec fn protect(mxcsr: u32) -> u32 {
    mxcsr | FTZ_BIT | DAZ_BIT
}

/// The register state that a denormal guard restores when it is dropped.
pub struct DenormalGuard {
    previous_mxcsr: u32,
}

impl View for DenormalGuard {
    type V = u32;

    closed spec fn view(&self) -> u32 {
        self.previous_mxcsr
    }
}

impl DenormalGuard {
    /// A guard for a thread whose MXCSR held `previous_mxcsr` before protection.
    pub fn from_previous(previous_mxcsr: u32) -> (g: Self)
        ensures
            g@ == previous_mxcsr,
    {
        DenormalGuard { previous_mxcsr }
    }

    /// The value to write back when the guard is dropped.
    pub fn previous_mxcsr(&self) -> (v: u32)
        ensures
            v == self@,
    {
        self.previous_mxcsr
    }

    /// The value to write while the guard is alive: FTZ and DAZ set, every
    /// other bit as it was.
    pub fn protected_mxcsr(&self) -> (v: u32)
        ensures
            v == protect(self@),
            v & FTZ_BIT == FTZ_BIT,
            v & DAZ_BIT == DAZ_BIT,
            v & !(FTZ_BIT | DAZ_BIT) == self@ & !(FTZ_BIT | DAZ_BIT),
    {
        let prev = self.previous_mxcsr;
        let v = prev | FTZ_BIT | DAZ_BIT;
        assert(v & 0x8000u32 == 0x8000u32 && v & 0x0040u32 == 0x0040u32 && v & !(0x8000u32 | 0x0040u32)
            == prev & !(0x8000u32 | 0x0040u32)) by (bit_vector)
            requires
                v == prev | 0x8000u32 | 0x0040u32,
        ;
        v
    }
}

/// Turning protection on twice is the same as turning it on once.
pub proof fn law_protect_idempotent(mxcsr: u32)
    ensures
        protect(protect(mxcsr)) == protect(mxcsr),
{
    assert((mxcsr | 0x8000u32 | 0x0040u32) | 0x8000u32 | 0x0040u32 == mxcsr | 0x8000u32 | 0x0040u32)
        by (bit_vector);
}

} // verus!
