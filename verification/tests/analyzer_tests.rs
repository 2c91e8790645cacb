//! The spectral pipeline end to end: the fixed-point window curve from the
//! library, the forward FFT and 1/sqrt(N) normalization outside it, and the
//! library's magnitude/level mapping on the resulting bins.

use audioscope::levels::{level_q16, magnitude, SILENCE_LEVEL};
use audioscope::sample::SAMPLE_UNIT;
use audioscope::window::{new_rect, GenericWindow, WEIGHT_UNIT};

use rustfft::num_complex::Complex;
use rustfft::FftPlanner;

/// Runs the analyzer pipeline on fixed-point samples: weight, lift to
/// complex, forward FFT, scale by 1/sqrt(N); bins come back in Q24.
fn analyze(samples: &[i32], win: &GenericWindow) -> Vec<(i32, i32)> {
    let mut windowed: Vec<i32> = samples.to_vec();
    win.apply(&mut windowed);
    let mut buf: Vec<Complex<f32>> = windowed
        .iter()
        .map(|&s| Complex { re: s as f32 / SAMPLE_UNIT as f32, im: 0.0 })
        .collect();
    let mut planner = FftPlanner::<f32>::new();
    let fft = planner.plan_fft_forward(buf.len());
    fft.process(&mut buf);
    let fac = 1.0f32 / (buf.len() as f32).sqrt();
    buf.iter()
        .map(|c| {
            (
                (c.re * fac * SAMPLE_UNIT as f32).round() as i32,
                (c.im * fac * SAMPLE_UNIT as f32).round() as i32,
            )
        })
        .collect()
}

#[test]
fn rectangular_window_passes_samples_through() {
    let win = new_rect(4);
    assert_eq!(win.size(), 4);
    assert_eq!(win.shape(), &[WEIGHT_UNIT; 4]);
    let mut data = vec![SAMPLE_UNIT, 0, -SAMPLE_UNIT, 12345];
    let before = data.clone();
    win.apply(&mut data);
    assert_eq!(data, before);
}

#[test]
fn half_weight_halves_samples_toward_zero() {
    let win = GenericWindow::from_weights(vec![WEIGHT_UNIT / 2; 4]);
    let mut data = vec![4, 5, -5, -4];
    win.apply(&mut data);
    assert_eq!(data, vec![2, 2, -2, -2]);
}

#[test]
fn size_four_cosine_lands_in_bin_one() {
    // FFT size 4, rectangular window, input [1, 0, -1, 0]: bin 0 vanishes
    // and bin 1 carries magnitude 1 after the 1/sqrt(4) scale (the raw bin
    // is 2).
    let samples = vec![SAMPLE_UNIT, 0, -SAMPLE_UNIT, 0];
    let spectrum = analyze(&samples, &new_rect(4));
    assert_eq!(spectrum.len(), 4);
    let m0 = magnitude(spectrum[0].0, spectrum[0].1);
    let m1 = magnitude(spectrum[1].0, spectrum[1].1);
    assert!(m0 <= 8, "bin 0 should be silent, got {m0}");
    let unit = SAMPLE_UNIT as i64;
    assert!((m1 as i64 - unit).abs() <= 8, "bin 1 should be 1.0, got {m1}");
    // The level of bin 1 is log10(1.0) = 0, up to the last fixed-point digit.
    assert!(level_q16(m1).abs() <= 2);
}

#[test]
fn all_zero_window_input_is_sentinel_everywhere() {
    // An all-zero FFT input yields magnitude 0 at every bin and the explicit
    // -1000.0 sentinel level, never an undefined logarithm.
    let samples = vec![0i32; 16];
    let spectrum = analyze(&samples, &new_rect(16));
    for &(re, im) in &spectrum {
        let m = magnitude(re, im);
        assert_eq!(m, 0);
        assert_eq!(level_q16(m), SILENCE_LEVEL);
    }
}
