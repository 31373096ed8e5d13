use vstd::prelude::*;

use crate::overlap::Overlap;

verus! {

/// Denominator of the segment-size formula, scaled by `o.den`:
/// `den * (k * (1 - a) + a) == k * (den - num) + num`.
pub open spec fn scaled_divisor(n_segment: nat, o: Overlap) -> nat {
    (n_segment * (o.den - o.num) + o.num) as nat
}

/// `trunc(n / (k * (1 - a) + a))` with `a = num / den`, in exact arithmetic.
pub open spec fn segment_size_spec(signal_len: nat, n_segment: nat, o: Overlap) -> nat {
    ((signal_len * o.den) / (scaled_divisor(n_segment, o) as int)) as nat
}

/// `round(l * a)`, halves rounded away from zero.
pub open spec fn rounded_overlap(l: nat, o: Overlap) -> nat {
    let t = l * o.num;
    let q = o.den as int;
    if 2 * (t % q) >= q {
        (t / q + 1) as nat
    } else {
        (t / q) as nat
    }
}

/// Distance between the starts of two consecutive segments: `l - round(l * a)`.
pub open spec fn stride_spec(l: nat, o: Overlap) -> int {
    l - rounded_overlap(l, o)
}

proof fn lemma_divisor_bounds(n_segment: nat, o: Overlap)
    requires
        n_segment >= 1,
        o.wf(),
    ensures
        o.den <= scaled_divisor(n_segment, o),
        scaled_divisor(n_segment, o) <= n_segment * o.den,
{
    let q = o.den as int;
    let p = o.num as int;
    let k = n_segment as int;
    assert(k * (q - p) + p >= q) by (nonlinear_arith)
        requires k >= 1, p <= q;
    assert(k * (q - p) + p <= k * q) by (nonlinear_arith)
        requires k >= 1, 0 <= p <= q;
}

proof fn lemma_segment_size_bound(signal_len: nat, n_segment: nat, o: Overlap)
    requires
        n_segment >= 1,
        o.wf(),
    ensures
        segment_size_spec(signal_len, n_segment, o) <= signal_len,
{
    lemma_divisor_bounds(n_segment, o);
    let d = scaled_divisor(n_segment, o) as int;
    let q = o.den as int;
    let n = signal_len as int;
    assert((n * q) / d <= (n * q) / q) by {
        vstd::arithmetic::div_mod::lemma_div_is_ordered_by_denominator((n * q) as int, q as int, d as int);
    }
    assert((n * q) / q == n) by {
        vstd::arithmetic::div_mod::lemma_div_multiples_vanish(n as int, q as int);
        assert(n * q == q * n) by (nonlinear_arith);
    }
}

proof fn lemma_rounded_le(l: nat, o: Overlap)
    requires
        o.wf(),
    ensures
        rounded_overlap(l, o) <= l,
{
    let q = o.den as int;
    let p = o.num as int;
    let t = l * p;
    assert(t <= l * q) by (nonlinear_arith)
        requires t == l * p, p <= q, l >= 0;
    vstd::arithmetic::div_mod::lemma_fundamental_div_mod(t, q);
    let f = t / q;
    let r = t % q;
    assert(0 <= r < q) by {
        vstd::arithmetic::div_mod::lemma_mod_bound(t, q);
    }
    assert(f <= l) by (nonlinear_arith)
        requires t == q * f + r, 0 <= r, t <= l * q, q > 0;
    if f == l {
        assert(r == 0) by (nonlinear_arith)
            requires t == q * f + r, 0 <= r, t <= l * q, f == l, q > 0;
    }
}

/// Segment length for a signal of `signal_len` samples cut into `n_segment`
/// segments that overlap by the fraction `overlap`:
/// `trunc(signal_len / (n_segment * (1 - overlap) + overlap))`.
pub fn segment_size(signal_len: usize, n_segment: usize, overlap: Overlap) -> (l: usize)
    requires
        n_segment >= 1,
        overlap.wf(),
    ensures
        l == segment_size_spec(signal_len as nat, n_segment as nat, overlap),
        l <= signal_len,
{
    proof {
        lemma_divisor_bounds(n_segment as nat, overlap);
        lemma_segment_size_bound(signal_len as nat, n_segment as nat, overlap);
    }
    let q = overlap.den as u128;
    let p = overlap.num as u128;
    let n = signal_len as u128;
    let k = n_segment as u128;
    assert(n * q <= u128::MAX) by (nonlinear_arith)
        requires n <= u64::MAX, q <= u64::MAX;
    assert(k * (q - p) <= u64::MAX * u64::MAX) by (nonlinear_arith)
        requires k <= u64::MAX, q - p <= u64::MAX, p <= q;
    let d = k * (q - p) + p;
    let l = (n * q) / d;
    l as usize
}

/// `round(l * overlap)`, halves rounded away from zero.
pub fn rounded(l: usize, overlap: Overlap) -> (r: usize)
    requires
        overlap.wf(),
    ensures
        r == rounded_overlap(l as nat, overlap),
        r <= l,
{
    proof {
        lemma_rounded_le(l as nat, overlap);
    }
    let q = overlap.den as u128;
    let p = overlap.num as u128;
    let lw = l as u128;
    assert(lw * p <= u128::MAX) by (nonlinear_arith)
        requires lw <= u64::MAX, p <= u64::MAX;
    let t = lw * p;
    let f = t / q;
    let rem = t % q;
    if 2 * rem >= q {
        (f + 1) as usize
    } else {
        f as usize
    }
}

/// With a single segment the segment covers the whole signal, whatever the
/// overlap: `segment_size(n, 1, a) == n` (in particular for `a == 1`).
pub proof fn lemma_single_segment_size(signal_len: nat, o: Overlap)
    requires
        o.wf(),
    ensures
        segment_size_spec(signal_len, 1, o) == signal_len,
{
    let q = o.den as int;
    assert(scaled_divisor(1, o) == q);
    vstd::arithmetic::div_mod::lemma_div_multiples_vanish(signal_len as int, q);
    assert(signal_len * q == q * signal_len) by (nonlinear_arith);
}

/// With no overlap, consecutive segments are a whole segment apart.
pub proof fn lemma_no_overlap_stride(l: nat, o: Overlap)
    requires
        o.wf(),
        o.num == 0,
    ensures
        stride_spec(l, o) == l,
{
    assert(l * o.num == 0) by (nonlinear_arith)
        requires o.num == 0;
}

} // verus!
