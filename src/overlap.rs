use vstd::prelude::*;

verus! {

/// Fraction of a segment shared with the previous one, held exactly as
/// `num / den` with `0 <= num <= den` and `den > 0`.
#[derive(Clone, Copy, Debug, PartialEq, Eq, Structural)]
pub struct Overlap {
    pub num: u64,
    pub den: u64,
}

impl Overlap {
    /// Well-formed: a fraction in `[0, 1]`.
    pub open spec fn wf(self) -> bool {
        self.den > 0 && self.num <= self.den
    }

    /// The fraction `num / den`, or `None` unless `den > 0` and `num <= den`.
    pub fn new(num: u64, den: u64) -> (r: Option<Overlap>)
        ensures
            r is Some <==> (den > 0 && num <= den),
            r matches Some(o) ==> o.num == num && o.den == den && o.wf(),
    {
        if den > 0 && num <= den {
            Some(Overlap { num, den })
        } else {
            None
        }
    }
}

} // verus!
