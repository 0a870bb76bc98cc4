use vstd::prelude::*;

verus! {

/// The 14-bit biased exponent field of a decimal128 value, held in a 16-bit
/// container whose two top bits stay clear.
pub struct Exponent {
    inner: u16,
}

impl Exponent {
    /// The biased exponent this field holds.
    pub closed spec fn biased(&self) -> int {
        self.inner as int
    }

    /// The 14-bit field never exceeds 16383.
    pub open spec fn wf(&self) -> bool {
        0 <= self.biased() <= 16383
    }

    pub fn new() -> (r: Exponent)
        ensures
            r.wf(),
            r.biased() == 0,
    {
        Exponent { inner: 0 }
    }

    /// The true exponent: the stored value minus the bias of 6176.
    pub fn to_adjusted(&self) -> (r: i16)
        requires
            self.wf(),
        ensures
            r as int == self.biased() - 6176,
    {
        self.inner as i16 - 6176
    }
}

} // verus!
