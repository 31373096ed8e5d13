use vstd::prelude::*;

use crate::estimator::Welch;
use crate::segments::chunk_at;

verus! {

/// `o` is a possible result of `transform` on a chunk holding `c`.
pub open spec fn transformed<U, F: Fn(Vec<U>) -> Vec<U>>(transform: F, c: Seq<U>, o: Seq<U>) -> bool {
    exists|cv: Vec<U>, ov: Vec<U>| cv@ == c && ov@ == o && #[trigger] transform.ensures((cv,), ov)
}

/// `p` is a run of folding `combine` over entry `b` of the first `m` chunks
/// of length `l` in `s`: it starts at `zero`, and each step is a possible
/// result of `combine` on the previous one and the next chunk's entry.
pub open spec fn fold_run<U, A, F: Fn(A, U) -> A>(
    combine: F,
    zero: A,
    s: Seq<U>,
    l: nat,
    b: int,
    m: nat,
    p: Seq<A>,
) -> bool {
    &&& p.len() == m + 1
    &&& p[0] == zero
    &&& forall|k: int|
        0 <= k < m ==> combine.ensures((p[k], #[trigger] chunk_at(s, l, k, b)), p[k + 1])
}

/// `r` is a possible result of folding `combine`, from `zero`, over entry `b`
/// of each of the first `m` chunks of length `l` in `s`.
pub open spec fn accumulated<U, A, F: Fn(A, U) -> A>(
    combine: F,
    zero: A,
    s: Seq<U>,
    l: nat,
    b: int,
    m: nat,
    r: A,
) -> bool {
    exists|p: Seq<A>| #[trigger] fold_run(combine, zero, s, l, b, m, p) && p[m as int] == r
}

proof fn lemma_accumulated_start<U, A, F: Fn(A, U) -> A>(combine: F, zero: A, s: Seq<U>, l: nat, b: int)
    ensures
        accumulated(combine, zero, s, l, b, 0, zero),
{
    let p = seq![zero];
    assert(fold_run(combine, zero, s, l, b, 0, p));
}

/// Over a single chunk nothing is accumulated: the folded value is a
/// possible result of one `combine` on `zero` and the chunk's entry `b`.
pub proof fn lemma_accumulated_one<U, A, F: Fn(A, U) -> A>(
    combine: F,
    zero: A,
    s: Seq<U>,
    l: nat,
    b: int,
    r: A,
)
    ensures
        accumulated(combine, zero, s, l, b, 1, r) <==> combine.ensures((zero, chunk_at(s, l, 0, b)), r),
{
    if accumulated(combine, zero, s, l, b, 1, r) {
        let p = choose|p: Seq<A>| #[trigger] fold_run(combine, zero, s, l, b, 1, p) && p[1] == r;
        assert(combine.ensures((p[0], chunk_at(s, l, 0, b)), p[0int + 1]));
    }
    if combine.ensures((zero, chunk_at(s, l, 0, b)), r) {
        lemma_accumulated_start(combine, zero, s, l, b);
        lemma_accumulated_step(combine, zero, s, l, b, 0, zero, r);
    }
}

proof fn lemma_runs_agree<U, A, F: Fn(A, U) -> A>(
    combine: F,
    zero: A,
    s: Seq<U>,
    l: nat,
    b: int,
    m: nat,
    p: Seq<A>,
    q: Seq<A>,
    k: int,
)
    requires
        forall|a: A, x: U, r1: A, r2: A|
            combine.ensures((a, x), r1) && combine.ensures((a, x), r2) ==> r1 == r2,
        fold_run(combine, zero, s, l, b, m, p),
        fold_run(combine, zero, s, l, b, m, q),
        0 <= k <= m,
    ensures
        p[k] == q[k],
    decreases k,
{
    if k > 0 {
        lemma_runs_agree(combine, zero, s, l, b, m, p, q, k - 1);
        assert(combine.ensures((p[k - 1], chunk_at(s, l, k - 1, b)), p[k - 1 + 1]));
        assert(combine.ensures((q[k - 1], chunk_at(s, l, k - 1, b)), q[k - 1 + 1]));
    }
}

/// When `combine` gives one result for each pair of arguments, so does the
/// fold: two accumulations over the same chunks are equal.
pub proof fn lemma_accumulated_unique<U, A, F: Fn(A, U) -> A>(
    combine: F,
    zero: A,
    s: Seq<U>,
    l: nat,
    b: int,
    m: nat,
    r1: A,
    r2: A,
)
    requires
        forall|a: A, x: U, y1: A, y2: A|
            combine.ensures((a, x), y1) && combine.ensures((a, x), y2) ==> y1 == y2,
        accumulated(combine, zero, s, l, b, m, r1),
        accumulated(combine, zero, s, l, b, m, r2),
    ensures
        r1 == r2,
{
    let p = choose|p: Seq<A>| #[trigger] fold_run(combine, zero, s, l, b, m, p) && p[m as int] == r1;
    let q = choose|q: Seq<A>| #[trigger] fold_run(combine, zero, s, l, b, m, q) && q[m as int] == r2;
    lemma_runs_agree(combine, zero, s, l, b, m, p, q, m as int);
}

proof fn lemma_run_keeps<U, A, F: Fn(A, U) -> A>(
    keeps: spec_fn(A) -> bool,
    combine: F,
    zero: A,
    s: Seq<U>,
    l: nat,
    b: int,
    m: nat,
    p: Seq<A>,
    k: int,
)
    requires
        keeps(zero),
        forall|a: A, x: U, y: A| keeps(a) && combine.ensures((a, x), y) ==> keeps(y),
        fold_run(combine, zero, s, l, b, m, p),
        0 <= k <= m,
    ensures
        keeps(p[k]),
    decreases k,
{
    if k > 0 {
        lemma_run_keeps(keeps, combine, zero, s, l, b, m, p, k - 1);
        assert(combine.ensures((p[k - 1], chunk_at(s, l, k - 1, b)), p[k - 1 + 1]));
    }
}

/// A property of `zero` that every `combine` step keeps holds of the
/// accumulated value (a sum of squared magnitudes started at zero stays
/// non-negative).
pub proof fn lemma_accumulated_keeps<U, A, F: Fn(A, U) -> A>(
    keeps: spec_fn(A) -> bool,
    combine: F,
    zero: A,
    s: Seq<U>,
    l: nat,
    b: int,
    m: nat,
    r: A,
)
    requires
        keeps(zero),
        forall|a: A, x: U, y: A| keeps(a) && combine.ensures((a, x), y) ==> keeps(y),
        accumulated(combine, zero, s, l, b, m, r),
    ensures
        keeps(r),
{
    let p = choose|p: Seq<A>| #[trigger] fold_run(combine, zero, s, l, b, m, p) && p[m as int] == r;
    lemma_run_keeps(keeps, combine, zero, s, l, b, m, p, m as int);
}

proof fn lemma_accumulated_step<U, A, F: Fn(A, U) -> A>(
    combine: F,
    zero: A,
    s: Seq<U>,
    l: nat,
    b: int,
    m: nat,
    mid: A,
    r: A,
)
    requires
        accumulated(combine, zero, s, l, b, m, mid),
        combine.ensures((mid, chunk_at(s, l, m as int, b)), r),
    ensures
        accumulated(combine, zero, s, l, b, m + 1, r),
{
    let p = choose|p: Seq<A>| #[trigger] fold_run(combine, zero, s, l, b, m, p) && p[m as int] == mid;
    let q = p.push(r);
    assert forall|k: int| 0 <= k < m + 1 implies combine.ensures(
        (q[k], #[trigger] chunk_at(s, l, k, b)),
        q[k + 1],
    ) by {
        if k < m {
            assert(q[k] == p[k] && q[k + 1] == p[k + 1]);
        }
    }
    assert(fold_run(combine, zero, s, l, b, m + 1, q));
}

proof fn lemma_chunk_offset(l: int, j: int, i: int, m: int)
    requires
        0 <= j < m,
        0 <= i < l,
    ensures
        0 <= j * l,
        j * l + i < m * l,
        (j + 1) * l == j * l + l,
        (j + 1) * l <= m * l,
{
    assert(0 <= j * l) by (nonlinear_arith)
        requires 0 <= j, 0 <= i < l;
    assert(j * l + i < m * l) by (nonlinear_arith)
        requires 0 <= j < m, 0 <= i < l;
    assert((j + 1) * l == j * l + l) by (nonlinear_arith);
    assert((j + 1) * l <= m * l) by (nonlinear_arith)
        requires 0 <= j < m, 0 <= i < l;
}

impl<'a, T, S> Welch<'a, T, S> {
    /// Applies `transform` to each chunk of `segment_size` entries of
    /// `buffer`, one chunk per segment, and puts the results one after the other.
    pub fn dft<U: Copy, F: Fn(Vec<U>) -> Vec<U>>(&self, buffer: &Vec<U>, transform: F) -> (r: Vec<U>)
        requires
            self.wf(),
            buffer@.len() == self.n_segments() * self.segment_size,
            forall|c: Vec<U>| c@.len() == self.segment_size ==> #[trigger] transform.requires((c,)),
            forall|c: Vec<U>, o: Vec<U>| #[trigger] transform.ensures((c,), o) ==> o@.len() == c@.len(),
        ensures
            r@.len() == buffer@.len(),
            forall|j: int|
                0 <= j < self.n_segments() ==> transformed(
                    transform,
                    #[trigger] buffer@.subrange(j * self.segment_size, (j + 1) * self.segment_size),
                    r@.subrange(j * self.segment_size, (j + 1) * self.segment_size),
                ),
    {
        let l = self.segment_size;
        let n = buffer.len();
        let m = n / l;
        proof {
            vstd::arithmetic::div_mod::lemma_div_multiples_vanish(self.n_segments() as int, l as int);
            assert(self.n_segments() * l == l * self.n_segments()) by (nonlinear_arith);
        }
        let mut r: Vec<U> = Vec::new();
        let mut j: usize = 0;
        while j < m
            invariant
                self.wf(),
                l == self.segment_size,
                m == self.n_segments(),
                buffer@.len() == m * l,
                n == buffer@.len(),
                forall|c: Vec<U>| c@.len() == l ==> #[trigger] transform.requires((c,)),
                forall|c: Vec<U>, o: Vec<U>| #[trigger] transform.ensures((c,), o) ==> o@.len() == c@.len(),
                j <= m,
                r@.len() == j * l,
                forall|jj: int|
                    0 <= jj < j ==> transformed(
                        transform,
                        #[trigger] buffer@.subrange(jj * l, (jj + 1) * l),
                        r@.subrange(jj * l, (jj + 1) * l),
                    ),
            decreases m - j,
        {
            proof {
                lemma_chunk_offset(l as int, j as int, 0, m as int);
            }
            let base = j * l;
            let mut c: Vec<U> = Vec::new();
            let mut i: usize = 0;
            while i < l
                invariant
                    base == j * l,
                    base + l <= buffer@.len(),
                    n == buffer@.len(),
                    i <= l,
                    c@ == buffer@.subrange(base as int, base + i),
                decreases l - i,
            {
                c.push(buffer[base + i]);
                i = i + 1;
                assert(c@ =~= buffer@.subrange(base as int, base + i));
            }
            let ghost cv = c;
            let o = transform(c);
            let ghost before = r@;
            let mut i: usize = 0;
            while i < l
                invariant
                    o@.len() == l,
                    i <= l,
                    before.len() == base,
                    r@ == before + o@.subrange(0, i as int),
                decreases l - i,
            {
                r.push(o[i]);
                i = i + 1;
                assert(r@ =~= before + o@.subrange(0, i as int));
            }
            proof {
                assert(o@.subrange(0, l as int) =~= o@);
                assert forall|jj: int|
                    0 <= jj <= j implies transformed(
                        transform,
                        #[trigger] buffer@.subrange(jj * l, (jj + 1) * l),
                        r@.subrange(jj * l, (jj + 1) * l),
                    ) by {
                    lemma_chunk_offset(l as int, jj, 0, j as int + 1);
                    if jj < j {
                        lemma_chunk_offset(l as int, jj, 0, j as int);
                        assert(r@.subrange(jj * l, (jj + 1) * l) =~= before.subrange(jj * l, (jj + 1) * l));
                    } else {
                        assert(r@.subrange(jj * l, (jj + 1) * l) =~= o@);
                        assert(transform.ensures((cv,), o));
                    }
                }
            }
            j = j + 1;
        }
        r
    }

    /// Two periodograms of one spectrum, with a `combine` that gives one
    /// result for each pair of arguments, are equal.
    pub proof fn lemma_periogram_deterministic<U, A, F: Fn(A, U) -> A>(
        self,
        spectrum: Seq<U>,
        zero: A,
        combine: F,
        r1: Seq<A>,
        r2: Seq<A>,
    )
        requires
            forall|a: A, x: U, y1: A, y2: A|
                combine.ensures((a, x), y1) && combine.ensures((a, x), y2) ==> y1 == y2,
            r1.len() == self.segment_size / 2,
            r2.len() == self.segment_size / 2,
            forall|b: int|
                0 <= b < r1.len() ==> accumulated(
                    combine,
                    zero,
                    spectrum,
                    self.segment_size as nat,
                    b,
                    self.n_segments(),
                    #[trigger] r1[b],
                ),
            forall|b: int|
                0 <= b < r2.len() ==> accumulated(
                    combine,
                    zero,
                    spectrum,
                    self.segment_size as nat,
                    b,
                    self.n_segments(),
                    #[trigger] r2[b],
                ),
        ensures
            r1 == r2,
    {
        assert forall|b: int| 0 <= b < r1.len() implies r1[b] == r2[b] by {
            lemma_accumulated_unique(
                combine,
                zero,
                spectrum,
                self.segment_size as nat,
                b,
                self.n_segments(),
                r1[b],
                r2[b],
            );
        }
        assert(r1 =~= r2);
    }

    /// One value per bin below Nyquist (`segment_size / 2` of them): bin `b`
    /// folds `combine`, from `zero`, over entry `b` of every chunk of `spectrum`,
    /// segment by segment. The result is a sum, not divided by the number of
    /// segments.
    pub fn periogram<U: Copy, A: Copy, F: Fn(A, U) -> A>(&self, spectrum: &Vec<U>, zero: A, combine: F) -> (r: Vec<A>)
        requires
            self.wf(),
            spectrum@.len() == self.n_segments() * self.segment_size,
            forall|acc: A, x: U| #[trigger] combine.requires((acc, x)),
        ensures
            r@.len() == self.segment_size / 2,
            forall|b: int|
                0 <= b < r@.len() ==> accumulated(
                    combine,
                    zero,
                    spectrum@,
                    self.segment_size as nat,
                    b,
                    self.n_segments(),
                    #[trigger] r@[b],
                ),
    {
        let l = self.segment_size;
        let n = spectrum.len();
        let m = n / l;
        let nb = l / 2;
        proof {
            vstd::arithmetic::div_mod::lemma_div_multiples_vanish(self.n_segments() as int, l as int);
            assert(self.n_segments() * l == l * self.n_segments()) by (nonlinear_arith);
        }
        let mut r: Vec<A> = Vec::new();
        let mut b: usize = 0;
        while b < nb
            invariant
                nb == l / 2,
                b <= nb,
                r@.len() == b,
                forall|bb: int| 0 <= bb < b ==> #[trigger] r@[bb] == zero,
            decreases nb - b,
        {
            r.push(zero);
            b = b + 1;
        }
        proof {
            assert forall|bb: int| 0 <= bb < nb implies accumulated(
                combine,
                zero,
                spectrum@,
                l as nat,
                bb,
                0,
                #[trigger] r@[bb],
            ) by {
                lemma_accumulated_start(combine, zero, spectrum@, l as nat, bb);
            }
        }
        let mut j: usize = 0;
        while j < m
            invariant
                self.wf(),
                l == self.segment_size,
                nb == l / 2,
                m == self.n_segments(),
                n == spectrum@.len(),
                n == m * l,
                forall|acc: A, x: U| #[trigger] combine.requires((acc, x)),
                j <= m,
                r@.len() == nb,
                forall|bb: int|
                    0 <= bb < nb ==> accumulated(combine, zero, spectrum@, l as nat, bb, j as nat, #[trigger] r@[bb]),
            decreases m - j,
        {
            let mut b: usize = 0;
            while b < nb
                invariant
                    l == self.segment_size,
                    l >= 1,
                    nb == l / 2,
                    n == spectrum@.len(),
                    n == m * l,
                    forall|acc: A, x: U| #[trigger] combine.requires((acc, x)),
                    j < m,
                    b <= nb,
                    r@.len() == nb,
                    forall|bb: int|
                        b <= bb < nb ==> accumulated(combine, zero, spectrum@, l as nat, bb, j as nat, #[trigger] r@[bb]),
                    forall|bb: int|
                        0 <= bb < b ==> accumulated(combine, zero, spectrum@, l as nat, bb, (j + 1) as nat, #[trigger] r@[bb]),
                decreases nb - b,
            {
                proof {
                    lemma_chunk_offset(l as int, j as int, b as int, m as int);
                }
                let old_acc = r[b];
                let x = spectrum[j * l + b];
                let v = combine(old_acc, x);
                proof {
                    assert(accumulated(combine, zero, spectrum@, l as nat, b as int, j as nat, old_acc));
                    assert(x == chunk_at(spectrum@, l as nat, j as int, b as int));
                    lemma_accumulated_step(combine, zero, spectrum@, l as nat, b as int, j as nat, old_acc, v);
                }
                r.set(b, v);
                b = b + 1;
            }
            j = j + 1;
        }
        r
    }
}

} // verus!
