use num_complex::Complex;
use rustfft::FftPlanner;
use welch::config::{rounded, segment_size};
use welch::estimator::{Builder, ConfigError, Welch};
use welch::overlap::Overlap;
use welch::window::Window;

struct One {
    weights: Vec<f64>,
}

impl Window<f64> for One {
    fn new(n: usize) -> Self {
        One { weights: vec![1f64; n] }
    }
    fn weights(&self) -> &Vec<f64> {
        &self.weights
    }
}

/// A window that is one weight short.
struct Short {
    weights: Vec<f64>,
}

impl Window<f64> for Short {
    fn new(n: usize) -> Self {
        Short { weights: vec![1f64; n.saturating_sub(1)] }
    }
    fn weights(&self) -> &Vec<f64> {
        &self.weights
    }
}

/// A Hann-like taper, to see the weights reach the segments.
struct Ramp {
    weights: Vec<f64>,
}

impl Window<f64> for Ramp {
    fn new(n: usize) -> Self {
        Ramp { weights: (0..n).map(|i| i as f64).collect() }
    }
    fn weights(&self) -> &Vec<f64> {
        &self.weights
    }
}

fn half() -> Overlap {
    Overlap { num: 1, den: 2 }
}

fn none() -> Overlap {
    Overlap { num: 0, den: 1 }
}

fn psd(w: &Welch<f64, f64>) -> Vec<f64> {
    let buffer = w.segmenting(|x: f64, s: f64| Complex::new(x * s, 0f64));
    let mut planner = FftPlanner::new();
    let fft = planner.plan_fft_forward(w.segment_size);
    let spectrum = w.dft(&buffer, |mut c: Vec<Complex<f64>>| {
        fft.process(&mut c);
        c
    });
    w.periogram(&spectrum, 0f64, |a: f64, z: Complex<f64>| a + z.norm_sqr())
}

fn sine(n: usize, cycles_per_16: f64) -> Vec<f64> {
    (0..n)
        .map(|i| (2f64 * std::f64::consts::PI * cycles_per_16 * i as f64 / 16f64).sin())
        .collect()
}

#[test]
fn test_segment_size() {
    let l = segment_size(128, 1, Overlap { num: 1, den: 1 });
    assert_eq!(l, 128);
}

#[test]
fn segment_size_follows_formula() {
    // 40 / (4 * 0.5 + 0.5) = 16
    assert_eq!(segment_size(40, 4, half()), 16);
    // 100 / (3 * 0.75 + 0.25) = 40
    assert_eq!(segment_size(100, 3, Overlap { num: 1, den: 4 }), 40);
    // 10 / 3 = 3.33.. truncated
    assert_eq!(segment_size(10, 3, none()), 3);
    // 7 / (2 * 0.5 + 0.5) = 4.66.. truncated
    assert_eq!(segment_size(7, 2, half()), 4);
    assert_eq!(segment_size(0, 4, half()), 0);
}

#[test]
fn single_segment_covers_signal() {
    for o in [none(), half(), Overlap { num: 3, den: 7 }, Overlap { num: 5, den: 5 }] {
        assert_eq!(segment_size(57, 1, o), 57);
    }
}

#[test]
fn rounding_goes_half_away_from_zero() {
    assert_eq!(rounded(16, half()), 8);
    assert_eq!(rounded(5, half()), 3);
    assert_eq!(rounded(10, Overlap { num: 1, den: 3 }), 3);
    assert_eq!(rounded(10, Overlap { num: 2, den: 3 }), 7);
    assert_eq!(rounded(0, half()), 0);
}

#[test]
fn overlap_new_checks_fraction() {
    assert_eq!(Overlap::new(1, 2), Some(half()));
    assert_eq!(Overlap::new(2, 2), Some(Overlap { num: 2, den: 2 }));
    assert_eq!(Overlap::new(3, 2), None);
    assert_eq!(Overlap::new(0, 0), None);
}

#[test]
fn builder_defaults() {
    let signal = vec![0f64; 10];
    let b = Builder::new(&signal);
    assert_eq!(b.n_segment, 4);
    assert_eq!(b.overlap, half());
    let b = Welch::<f64, f64>::builder(&signal).n_segment(2).overlap(none());
    assert_eq!(b.n_segment, 2);
    assert_eq!(b.overlap, none());
}

#[test]
fn build_resolves_segmentation() {
    let signal = vec![0f64; 40];
    let w = Builder::new(&signal).build::<f64, One>().unwrap();
    assert_eq!(w.n_segment, 4);
    assert_eq!(w.segment_size, 16);
    assert_eq!(w.stride, 8);
    assert_eq!(w.weights.len(), 16);
    assert_eq!(w.segment_starts(), vec![0, 8, 16, 24]);
}

#[test]
fn starts_take_as_many_as_fit() {
    let signal = vec![0f64; 45];
    let w = Builder::new(&signal).build::<f64, One>().unwrap();
    assert_eq!(w.segment_size, 18);
    assert_eq!(w.stride, 9);
    assert_eq!(w.segment_starts(), vec![0, 9, 18, 27]);
    let w = Builder::new(&signal).n_segment(2).overlap(none()).build::<f64, One>().unwrap();
    assert_eq!(w.segment_size, 22);
    assert_eq!(w.segment_starts(), vec![0, 22]);
}

#[test]
fn build_rejects_zero_segments() {
    let signal = vec![0f64; 40];
    let r = Builder::new(&signal).n_segment(0).build::<f64, One>();
    assert_eq!(r.err(), Some(ConfigError::NoSegments));
}

#[test]
fn build_rejects_full_overlap() {
    let signal = vec![0f64; 40];
    let r = Builder::new(&signal).overlap(Overlap { num: 1, den: 1 }).build::<f64, One>();
    assert_eq!(r.err(), Some(ConfigError::InvalidOverlap));
    let r = Builder::new(&signal).overlap(Overlap { num: 3, den: 2 }).build::<f64, One>();
    assert_eq!(r.err(), Some(ConfigError::InvalidOverlap));
    let r = Builder::new(&signal).overlap(Overlap { num: 0, den: 0 }).build::<f64, One>();
    assert_eq!(r.err(), Some(ConfigError::InvalidOverlap));
}

#[test]
fn build_rejects_empty_segment() {
    let signal: Vec<f64> = Vec::new();
    let r = Builder::new(&signal).build::<f64, One>();
    assert_eq!(r.err(), Some(ConfigError::EmptySegment));
}

#[test]
fn build_rejects_zero_stride() {
    // one sample, one segment: l = 1 and round(1 * 0.5) = 1
    let signal = vec![1f64];
    let r = Builder::new(&signal).n_segment(1).build::<f64, One>();
    assert_eq!(r.err(), Some(ConfigError::ZeroStride));
}

#[test]
fn build_rejects_short_window() {
    let signal = vec![0f64; 40];
    let r = Builder::new(&signal).build::<f64, Short>();
    assert_eq!(r.err(), Some(ConfigError::WindowLength));
}

#[test]
fn window_length_is_segment_size() {
    for n in [9usize, 40, 101] {
        let signal = vec![0f64; n];
        for k in [1usize, 2, 4] {
            let w = Builder::new(&signal).n_segment(k).build::<f64, Ramp>().unwrap();
            assert_eq!(w.weights.len(), w.segment_size);
        }
    }
}

#[test]
fn segmenting_weighs_each_sample() {
    let signal: Vec<f64> = (0..40).map(|i| i as f64).collect();
    let w = Builder::new(&signal).build::<f64, Ramp>().unwrap();
    let flat = w.segmenting(|x: f64, s: f64| x * s);
    assert_eq!(flat.len(), 4 * 16);
    // segment 2 starts at 16; sample 3 of it is 19, weighed by 3
    assert_eq!(flat[2 * 16 + 3], 57f64);
    assert_eq!(flat[0], 0f64);
    assert_eq!(flat[3 * 16 + 15], 39f64 * 15f64);
}

#[test]
fn dft_transforms_each_chunk() {
    let signal: Vec<f64> = (0..40).map(|i| i as f64).collect();
    let w = Builder::new(&signal).build::<f64, One>().unwrap();
    let flat = w.segmenting(|x: f64, s: f64| x * s);
    let out = w.dft(&flat, |c: Vec<f64>| c.iter().rev().copied().collect());
    assert_eq!(out.len(), flat.len());
    assert_eq!(out[0], 15f64);
    assert_eq!(out[16], 23f64);
    assert_eq!(out[3 * 16 + 15], 24f64);
}

#[test]
fn periogram_sums_over_segments() {
    let signal: Vec<f64> = (0..40).map(|i| i as f64).collect();
    let w = Builder::new(&signal).build::<f64, One>().unwrap();
    let flat = w.segmenting(|x: f64, s: f64| x * s);
    let sums = w.periogram(&flat, 0f64, |a: f64, x: f64| a + x);
    assert_eq!(sums.len(), 8);
    // bin 1: 1 + 9 + 17 + 25
    assert_eq!(sums[1], 52f64);
    assert_eq!(sums[7], 7f64 + 15f64 + 23f64 + 31f64);
}

#[test]
fn psd_length_is_half_segment() {
    let signal = sine(101, 3f64);
    for k in [1usize, 2, 3, 4, 7] {
        for o in [none(), half(), Overlap { num: 1, den: 3 }] {
            let w = Builder::new(&signal).n_segment(k).overlap(o).build::<f64, One>().unwrap();
            assert_eq!(psd(&w).len(), w.segment_size / 2);
        }
    }
    let odd = sine(15, 1f64);
    let w = Builder::new(&odd).n_segment(1).overlap(none()).build::<f64, One>().unwrap();
    assert_eq!(psd(&w).len(), 7);
}

#[test]
fn psd_is_non_negative() {
    let signal: Vec<f64> = (0..77).map(|i| ((i * 37 % 11) as f64) - 5f64).collect();
    let w = Builder::new(&signal).build::<f64, Ramp>().unwrap();
    assert!(psd(&w).iter().all(|p| *p >= 0f64));
}

#[test]
fn psd_is_deterministic() {
    let signal = sine(64, 2.5f64);
    let w = Builder::new(&signal).n_segment(3).build::<f64, Ramp>().unwrap();
    let a = psd(&w);
    let b = psd(&w);
    assert_eq!(a.len(), b.len());
    assert!(a.iter().zip(b.iter()).all(|(x, y)| x.to_bits() == y.to_bits()));
}

#[test]
fn sine_peak_at_its_bin() {
    // two cycles per 16 samples
    let signal = sine(40, 2f64);
    let w = Builder::new(&signal).n_segment(4).overlap(half()).build::<f64, One>().unwrap();
    assert_eq!(w.segment_size, 16);
    let p = psd(&w);
    assert_eq!(p.len(), 8);
    let peak = (0..p.len()).max_by(|a, b| p[*a].partial_cmp(&p[*b]).unwrap()).unwrap();
    assert_eq!(peak, 2);
    // each of the 4 segments gives |X_2|^2 = (16 / 2)^2
    assert!((p[2] - 256f64).abs() < 1e-6);
}

#[test]
fn one_segment_no_overlap_is_plain_spectrum() {
    let signal = sine(40, 3f64);
    let w = Builder::new(&signal).n_segment(1).overlap(none()).build::<f64, One>().unwrap();
    assert_eq!(w.segment_size, 40);
    assert_eq!(w.stride, 40);
    assert_eq!(w.segment_starts(), vec![0]);
    let mut direct: Vec<Complex<f64>> = signal.iter().map(|x| Complex::new(*x, 0f64)).collect();
    FftPlanner::new().plan_fft_forward(40).process(&mut direct);
    let expected: Vec<f64> = direct.iter().take(20).map(|z| z.norm_sqr()).collect();
    assert_eq!(psd(&w), expected);
}

#[test]
fn with_weights_keeps_given_weights() {
    let signal = vec![0f64; 40];
    let given: Vec<f64> = (0..16).map(|i| 0.5 + i as f64).collect();
    let w = Builder::new(&signal).with_weights(&given).unwrap();
    assert_eq!(w.weights, given);
    assert_eq!(w.segment_size, 16);
    assert_eq!(w.stride, 8);
}

#[test]
fn with_weights_rejects_wrong_length() {
    let signal = vec![0f64; 40];
    let given = vec![1f64; 15];
    let r = Builder::new(&signal).with_weights(&given);
    assert_eq!(r.err(), Some(ConfigError::WindowLength));
    let given = vec![1f64; 17];
    let r = Builder::new(&signal).with_weights(&given);
    assert_eq!(r.err(), Some(ConfigError::WindowLength));
}

#[test]
fn with_weights_reports_configuration_first() {
    let signal = vec![0f64; 40];
    let given = vec![1f64; 3];
    let r = Builder::new(&signal).n_segment(0).with_weights(&given);
    assert_eq!(r.err(), Some(ConfigError::NoSegments));
}

#[test]
fn segmentation_gives_length_and_stride() {
    let signal = vec![0f64; 40];
    assert_eq!(Builder::new(&signal).segmentation(), Ok((16, 8)));
    assert_eq!(Builder::new(&signal).n_segment(1).overlap(none()).segmentation(), Ok((40, 40)));
    let one = vec![0f64; 1];
    assert_eq!(Builder::new(&one).n_segment(1).segmentation(), Err(ConfigError::ZeroStride));
}

#[test]
fn build_takes_window_weights() {
    let signal = vec![0f64; 40];
    let w = Builder::new(&signal).build::<f64, Ramp>().unwrap();
    assert_eq!(&w.weights, Ramp::new(16).weights());
}
