//! Exact probability parameters and the likelihood result.

use vstd::prelude::*;

verus! {

/// A probability in `[0, 1]`, given exactly as the rational `num / den`.
#[derive(Clone, Copy, Debug, PartialEq, Eq, Structural)]
pub struct Prob {
    pub num: u64,
    pub den: u64,
}

impl Prob {
    /// A probability is well formed when its denominator is positive and
    /// its value lies in `[0, 1]`.
    pub open spec fn wf(self) -> bool {
        0 < self.den && self.num <= self.den
    }

    /// Builds `num / den`, refusing a zero denominator and a value above 1.
    pub fn new(num: u64, den: u64) -> (r: Option<Prob>)
        ensures
            r matches Some(p) ==> p == (Prob { num, den }) && p.wf(),
            r is Some <==> 0 < den && num <= den,
    {
        if 0 < den && num <= den {
            Some(Prob { num, den })
        } else {
            None
        }
    }
}

/// The likelihood returned by the engine: the exact rational `num / den`.
#[derive(Clone, Copy, Debug, PartialEq, Eq, Structural)]
pub struct Likelihood {
    pub num: u128,
    pub den: u128,
}

} // verus!
