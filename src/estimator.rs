use vstd::prelude::*;

use crate::config::{rounded, segment_size, segment_size_spec, stride_spec};
use crate::overlap::Overlap;
use crate::window::Window;

verus! {

/// Why a configuration cannot be turned into an estimator.
#[derive(Clone, Copy, Debug, PartialEq, Eq, Structural)]
pub enum ConfigError {
    /// The number of segments is zero.
    NoSegments,
    /// The overlap is not a fraction in `[0, 1)`.
    InvalidOverlap,
    /// The segment length comes out as zero.
    EmptySegment,
    /// `round(l * overlap)` reaches the segment length, so segments would not advance.
    ZeroStride,
    /// The window's weights are not as many as the segment length.
    WindowLength,
}

/// The error that a configuration meets, checked in this order, or `None`.
pub open spec fn config_error(signal_len: nat, n_segment: nat, o: Overlap) -> Option<ConfigError> {
    if n_segment == 0 {
        Some(ConfigError::NoSegments)
    } else if o.den == 0 || o.num >= o.den {
        Some(ConfigError::InvalidOverlap)
    } else if segment_size_spec(signal_len, n_segment, o) == 0 {
        Some(ConfigError::EmptySegment)
    } else if stride_spec(segment_size_spec(signal_len, n_segment, o), o) < 1 {
        Some(ConfigError::ZeroStride)
    } else {
        None
    }
}

/// Settings for an estimator over a borrowed signal.
pub struct Builder<'a, T> {
    pub n_segment: usize,
    pub overlap: Overlap,
    pub signal: &'a Vec<T>,
}

/// Welch estimator over samples of type `T` and window weights of type `S`:
/// the signal, the resolved segmentation and the window weights.
pub struct Welch<'a, T, S> {
    pub n_segment: usize,
    pub overlap: Overlap,
    pub segment_size: usize,
    pub stride: usize,
    pub signal: &'a Vec<T>,
    pub weights: Vec<S>,
}

impl<'a, T> Builder<'a, T> {
    /// Four segments overlapping by one half.
    pub fn new(signal: &'a Vec<T>) -> (b: Self)
        ensures
            b.n_segment == 4,
            b.overlap == (Overlap { num: 1, den: 2 }),
            b.signal == signal,
    {
        Builder { n_segment: 4, overlap: Overlap { num: 1, den: 2 }, signal }
    }

    pub fn n_segment(self, n_segment: usize) -> (b: Self)
        ensures
            b.n_segment == n_segment,
            b.overlap == self.overlap,
            b.signal == self.signal,
    {
        Builder { n_segment, ..self }
    }

    pub fn overlap(self, overlap: Overlap) -> (b: Self)
        ensures
            b.n_segment == self.n_segment,
            b.overlap == overlap,
            b.signal == self.signal,
    {
        Builder { overlap, ..self }
    }

    /// The segment length and the stride of this configuration, or the first
    /// invariant that it breaks.
    pub fn segmentation(&self) -> (r: Result<(usize, usize), ConfigError>)
        ensures
            r is Err <==> config_error(self.signal@.len(), self.n_segment as nat, self.overlap) is Some,
            r matches Err(e) ==> config_error(self.signal@.len(), self.n_segment as nat, self.overlap) == Some(e),
            r matches Ok((l, stride)) ==> {
                &&& l == segment_size_spec(self.signal@.len(), self.n_segment as nat, self.overlap)
                &&& stride == stride_spec(l as nat, self.overlap)
                &&& 1 <= stride <= l <= self.signal@.len()
            },
    {
        if self.n_segment == 0 {
            return Err(ConfigError::NoSegments);
        }
        if self.overlap.den == 0 || self.overlap.num >= self.overlap.den {
            return Err(ConfigError::InvalidOverlap);
        }
        let l = segment_size(self.signal.len(), self.n_segment, self.overlap);
        if l == 0 {
            return Err(ConfigError::EmptySegment);
        }
        let shared = rounded(l, self.overlap);
        if shared >= l {
            return Err(ConfigError::ZeroStride);
        }
        Ok((l, l - shared))
    }

    /// The estimator for this configuration with the given window weights:
    /// fails on an invalid configuration, or on weights that are not one per
    /// sample of a segment; otherwise the estimator holds exactly these weights.
    pub fn with_weights<S: Copy>(self, window_weights: &Vec<S>) -> (r: Result<Welch<'a, T, S>, ConfigError>)
        ensures
            config_error(self.signal@.len(), self.n_segment as nat, self.overlap) matches Some(e)
                ==> r == Err::<Welch<'a, T, S>, ConfigError>(e),
            config_error(self.signal@.len(), self.n_segment as nat, self.overlap) is None ==> (r is Err
                <==> window_weights@.len() != segment_size_spec(self.signal@.len(), self.n_segment as nat, self.overlap)),
            config_error(self.signal@.len(), self.n_segment as nat, self.overlap) is None
                && r is Err ==> r == Err::<Welch<'a, T, S>, ConfigError>(ConfigError::WindowLength),
            r matches Ok(w) ==> {
                &&& w.wf()
                &&& w.weights@ == window_weights@
                &&& w.n_segment == self.n_segment
                &&& w.overlap == self.overlap
                &&& w.signal == self.signal
                &&& w.segment_size == segment_size_spec(self.signal@.len(), self.n_segment as nat, self.overlap)
            },
    {
        let (l, stride) = match self.segmentation() {
            Ok(found) => found,
            Err(e) => {
                return Err(e);
            },
        };
        if window_weights.len() != l {
            return Err(ConfigError::WindowLength);
        }
        let mut weights: Vec<S> = Vec::new();
        let mut i: usize = 0;
        while i < l
            invariant
                window_weights@.len() == l,
                i <= l,
                weights@ == window_weights@.subrange(0, i as int),
            decreases l - i,
        {
            weights.push(window_weights[i]);
            i = i + 1;
            assert(weights@ =~= window_weights@.subrange(0, i as int));
        }
        assert(weights@ =~= window_weights@);
        Ok(Welch {
            n_segment: self.n_segment,
            overlap: self.overlap,
            segment_size: l,
            stride,
            signal: self.signal,
            weights,
        })
    }

    /// Resolves the segment length, makes the window `W::new(l)` for it and
    /// takes its weights (see `with_weights`); fails on an invalid
    /// configuration before any window is made.
    pub fn build<S: Copy, W: Window<S>>(self) -> (r: Result<Welch<'a, T, S>, ConfigError>)
        ensures
            config_error(self.signal@.len(), self.n_segment as nat, self.overlap) matches Some(e)
                ==> r == Err::<Welch<'a, T, S>, ConfigError>(e),
            r matches Err(e) ==> config_error(self.signal@.len(), self.n_segment as nat, self.overlap)
                == Some(e) || e == ConfigError::WindowLength,
            r matches Ok(w) ==> {
                &&& config_error(self.signal@.len(), self.n_segment as nat, self.overlap) is None
                &&& w.wf()
                &&& w.n_segment == self.n_segment
                &&& w.overlap == self.overlap
                &&& w.signal == self.signal
                &&& w.segment_size == segment_size_spec(self.signal@.len(), self.n_segment as nat, self.overlap)
            },
    {
        let l = match self.segmentation() {
            Ok((l, _)) => l,
            Err(e) => {
                return Err(e);
            },
        };
        let window = W::new(l);
        self.with_weights(window.weights())
    }
}

impl<'a, T, S> Welch<'a, T, S> {
    /// The invariant that `Builder::build` establishes.
    pub open spec fn wf(self) -> bool {
        &&& self.n_segment >= 1
        &&& self.overlap.wf()
        &&& self.overlap.num < self.overlap.den
        &&& self.segment_size == segment_size_spec(self.signal@.len(), self.n_segment as nat, self.overlap)
        &&& 1 <= self.segment_size <= self.signal@.len()
        &&& self.stride == stride_spec(self.segment_size as nat, self.overlap)
        &&& 1 <= self.stride <= self.segment_size
        &&& self.weights@.len() == self.segment_size
    }

    pub fn builder(signal: &'a Vec<T>) -> (b: Builder<'a, T>)
        ensures
            b.n_segment == 4,
            b.overlap == (Overlap { num: 1, den: 2 }),
            b.signal == signal,
    {
        Builder::new(signal)
    }
}

} // verus!
