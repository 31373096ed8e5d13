use vstd::prelude::*;

verus! {

/// A taper applied to each segment before it is transformed: `new(n)` makes
/// the weights of a window of `n` samples.
pub trait Window<S>: Sized {
    fn new(n: usize) -> Self;

    fn weights(&self) -> &Vec<S>;
}

} // verus!
