use vstd::prelude::*;

use crate::config::{lemma_no_overlap_stride, lemma_single_segment_size};
use crate::estimator::Welch;

verus! {

/// Element `i` of chunk `j` when `s` is read as consecutive chunks of `l`.
pub open spec fn chunk_at<U>(s: Seq<U>, l: nat, j: int, i: int) -> U {
    s[j * l + i]
}

proof fn lemma_chunk_index(l: int, j: int, i: int, m: int)
    requires
        0 <= j < m,
        0 <= i < l,
    ensures
        0 <= j * l + i < m * l,
        j * l + i + 1 <= (j + 1) * l,
{
    assert(0 <= j * l + i < m * l) by (nonlinear_arith)
        requires 0 <= j < m, 0 <= i < l;
    assert(j * l + i + 1 <= (j + 1) * l) by (nonlinear_arith)
        requires 0 <= i < l;
}

impl<'a, T, S> Welch<'a, T, S> {
    /// How many segments fit: every start `j * stride` with `j * stride + l <= n`.
    pub open spec fn n_segments(self) -> nat {
        ((self.signal@.len() - self.segment_size) / (self.stride as int) + 1) as nat
    }

    /// Index of the first sample of segment `j`.
    pub open spec fn start(self, j: int) -> int {
        j * self.stride
    }

    proof fn lemma_count(self, j: int)
        requires
            self.wf(),
            j >= 1,
            (j - 1) * self.stride <= self.signal@.len() - self.segment_size,
            self.signal@.len() - self.segment_size < j * self.stride,
        ensures
            j == self.n_segments(),
    {
        let x = self.signal@.len() - self.segment_size;
        let s = self.stride as int;
        assert(j * s == (j - 1) * s + s) by (nonlinear_arith);
        vstd::arithmetic::div_mod::lemma_fundamental_div_mod_converse(x, s, j - 1, x - (j - 1) * s);
    }

    /// Every segment lies inside the signal.
    pub proof fn lemma_starts_in_bounds(self, j: int)
        requires
            self.wf(),
            0 <= j < self.n_segments(),
        ensures
            0 <= self.start(j),
            self.start(j) + self.segment_size <= self.signal@.len(),
    {
        let x = self.signal@.len() - self.segment_size;
        let s = self.stride as int;
        vstd::arithmetic::div_mod::lemma_fundamental_div_mod(x, s);
        vstd::arithmetic::div_mod::lemma_mod_bound(x, s);
        assert(j * s <= (x / s) * s) by (nonlinear_arith)
            requires 0 <= j <= x / s, s >= 1;
        assert(0 <= j * s) by (nonlinear_arith)
            requires 0 <= j, s >= 1;
    }

    /// One segment and no overlap: the segment is the whole signal, the
    /// stride is the segment length, and exactly one segment is taken.
    pub proof fn lemma_one_segment_no_overlap(self)
        requires
            self.wf(),
            self.n_segment == 1,
            self.overlap.num == 0,
        ensures
            self.segment_size == self.signal@.len(),
            self.stride == self.segment_size,
            self.n_segments() == 1,
    {
        lemma_single_segment_size(self.signal@.len(), self.overlap);
        lemma_no_overlap_stride(self.segment_size as nat, self.overlap);
        vstd::arithmetic::div_mod::lemma_div_basics(self.stride as int);
    }

    /// One segment and no overlap: the segmented signal is the whole signal
    /// weighed sample by sample, `r[i]` a result of `weigh(signal[i], weights[i])`.
    pub proof fn lemma_one_segment_segmenting<U, F: Fn(T, S) -> U>(self, weigh: F, r: Seq<U>)
        requires
            self.wf(),
            self.n_segment == 1,
            self.overlap.num == 0,
            r.len() == self.n_segments() * self.segment_size,
            forall|j: int, i: int|
                0 <= j < self.n_segments() && 0 <= i < self.segment_size ==> weigh.ensures(
                    (self.signal@[self.start(j) + i], self.weights@[i]),
                    #[trigger] chunk_at(r, self.segment_size as nat, j, i),
                ),
        ensures
            r.len() == self.signal@.len(),
            forall|i: int|
                0 <= i < r.len() ==> weigh.ensures((self.signal@[i], self.weights@[i]), #[trigger] r[i]),
    {
        self.lemma_one_segment_no_overlap();
        assert forall|i: int| 0 <= i < r.len() implies weigh.ensures(
            (self.signal@[i], self.weights@[i]),
            #[trigger] r[i],
        ) by {
            assert(chunk_at(r, self.segment_size as nat, 0, i) == r[i]);
            assert(self.start(0) == 0);
        }
    }

    /// The start index of every segment, in order.
    pub fn segment_starts(&self) -> (r: Vec<usize>)
        requires
            self.wf(),
        ensures
            r@.len() == self.n_segments(),
            forall|j: int| 0 <= j < r@.len() ==> #[trigger] r@[j] == self.start(j),
    {
        let n = self.signal.len();
        let l = self.segment_size;
        let mut r: Vec<usize> = Vec::new();
        let mut start: usize = 0;
        proof {
            assert(r@.len() * self.stride == 0) by (nonlinear_arith)
                requires r@.len() == 0;
        }
        while start <= n - l
            invariant
                self.wf(),
                n == self.signal@.len(),
                l == self.segment_size,
                start == r@.len() * self.stride,
                r@.len() == 0 || (r@.len() - 1) * self.stride <= n - l,
                start <= n,
                forall|j: int| 0 <= j < r@.len() ==> #[trigger] r@[j] == self.start(j),
            decreases n - start,
        {
            r.push(start);
            proof {
                assert((r@.len() - 1) * self.stride == start - 0) by (nonlinear_arith)
                    requires start == (r@.len() - 1) * self.stride;
                assert(r@.len() * self.stride == start + self.stride) by (nonlinear_arith)
                    requires start == (r@.len() - 1) * self.stride;
            }
            start = start + self.stride;
        }
        proof {
            assert(r@.len() >= 1) by {
                if r@.len() == 0 {
                    assert(start == 0) by (nonlinear_arith)
                        requires start == r@.len() * self.stride, r@.len() == 0;
                }
            }
            self.lemma_count(r@.len() as int);
        }
        r
    }

    /// All segments, one after the other: sample `i` of segment `j` is
    /// `weigh(signal[j * stride + i], weights[i])`.
    pub fn segmenting<U, F: Fn(T, S) -> U>(&self, weigh: F) -> (r: Vec<U>)
        where
            T: Copy,
            S: Copy,
        requires
            self.wf(),
            forall|x: T, w: S| weigh.requires((x, w)),
        ensures
            r@.len() == self.n_segments() * self.segment_size,
            forall|j: int, i: int|
                0 <= j < self.n_segments() && 0 <= i < self.segment_size ==> weigh.ensures(
                    (self.signal@[self.start(j) + i], self.weights@[i]),
                    #[trigger] chunk_at(r@, self.segment_size as nat, j, i),
                ),
    {
        let starts = self.segment_starts();
        let n = self.signal.len();
        let l = self.segment_size;
        let m = starts.len();
        let mut r: Vec<U> = Vec::new();
        let mut j: usize = 0;
        proof {
            assert(j * l == 0) by (nonlinear_arith)
                requires j == 0;
        }
        while j < m
            invariant
                self.wf(),
                forall|x: T, w: S| weigh.requires((x, w)),
                l == self.segment_size,
                n == self.signal@.len(),
                m == self.n_segments(),
                starts@.len() == m,
                forall|k: int| 0 <= k < m ==> #[trigger] starts@[k] == self.start(k),
                j <= m,
                r@.len() == j * l,
                forall|jj: int, i: int|
                    0 <= jj < j && 0 <= i < l ==> weigh.ensures(
                        (self.signal@[self.start(jj) + i], self.weights@[i]),
                        #[trigger] chunk_at(r@, l as nat, jj, i),
                    ),
            decreases m - j,
        {
            let start = starts[j];
            proof {
                self.lemma_starts_in_bounds(j as int);
            }
            let mut i: usize = 0;
            while i < l
                invariant
                    self.wf(),
                    forall|x: T, w: S| weigh.requires((x, w)),
                    l == self.segment_size,
                    m == self.n_segments(),
                    j < m,
                    start == self.start(j as int),
                    start + l <= self.signal@.len(),
                    n == self.signal@.len(),
                    i <= l,
                    r@.len() == j * l + i,
                    forall|jj: int, ii: int|
                        0 <= jj < j && 0 <= ii < l ==> weigh.ensures(
                            (self.signal@[self.start(jj) + ii], self.weights@[ii]),
                            #[trigger] chunk_at(r@, l as nat, jj, ii),
                        ),
                    forall|ii: int|
                        0 <= ii < i ==> weigh.ensures(
                            (self.signal@[start + ii], self.weights@[ii]),
                            #[trigger] chunk_at(r@, l as nat, j as int, ii),
                        ),
                decreases l - i,
            {
                let v = weigh(self.signal[start + i], self.weights[i]);
                let ghost before = r@;
                r.push(v);
                proof {
                    assert forall|jj: int, ii: int|
                        0 <= jj < j && 0 <= ii < l implies weigh.ensures(
                            (self.signal@[self.start(jj) + ii], self.weights@[ii]),
                            #[trigger] chunk_at(r@, l as nat, jj, ii),
                        ) by {
                        lemma_chunk_index(l as int, jj, ii, j as int);
                        assert(chunk_at(r@, l as nat, jj, ii) == chunk_at(before, l as nat, jj, ii));
                    }
                    assert forall|ii: int|
                        0 <= ii <= i implies weigh.ensures(
                            (self.signal@[start + ii], self.weights@[ii]),
                            #[trigger] chunk_at(r@, l as nat, j as int, ii),
                        ) by {
                        if ii < i {
                            assert(chunk_at(r@, l as nat, j as int, ii) == chunk_at(before, l as nat, j as int, ii));
                        }
                    }
                }
                i = i + 1;
            }
            proof {
                assert(r@.len() == (j + 1) * l) by (nonlinear_arith)
                    requires r@.len() == j * l + l;
            }
            j = j + 1;
        }
        r
    }
}

} // verus!
