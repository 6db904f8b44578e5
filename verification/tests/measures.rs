//! Spectra and normalized signals, computed by the library's schedules.
use pulsar::level::Level;
use pulsar::signal::{
    detrend_pieces, rolling_extremum, segment_boundaries, smoothing_taps, DetrendRule,
};
use pulsar::spectral::{
    band_bounds, bit_reversal_table, stage_butterflies, FFT_SIZE, NUM_SPEC_BANDS,
};
use std::f32::consts::PI;

fn compute_16_bands(samples: &[f32; FFT_SIZE]) -> Vec<f32> {
    let turn = 2.0 * PI / FFT_SIZE as f32;
    let hann = |n: usize| 0.5 * (1.0 - (2.0 * PI * n as f32 / (FFT_SIZE as f32 - 1.0)).cos());
    let mut re: Vec<f32> =
        bit_reversal_table().into_iter().map(|i| samples[i] * hann(i)).collect();
    let mut im = vec![0.0f32; FFT_SIZE];
    for stage in 0..8 {
        for b in stage_butterflies(stage) {
            let (s, c) = (-turn * b.twiddle as f32).sin_cos();
            let t_re = re[b.bottom] * c - im[b.bottom] * s;
            let t_im = re[b.bottom] * s + im[b.bottom] * c;
            let (u_re, u_im) = (re[b.top], im[b.top]);
            re[b.top] = u_re + t_re;
            im[b.top] = u_im + t_im;
            re[b.bottom] = u_re - t_re;
            im[b.bottom] = u_im - t_im;
        }
    }
    (0..NUM_SPEC_BANDS)
        .map(|i| {
            let (start, end) = band_bounds(i);
            let sum: f32 = (start..end).map(|k| re[k].hypot(im[k])).sum();
            sum / (end - start).max(1) as f32
        })
        .collect()
}

#[test]
fn test_cooley_tukey_fft_sine_peak() {
    let sample_rate = 16000.0;
    let mut samples = [0.0f32; FFT_SIZE];
    // 125 Hz sine wave -> should peak in band 1
    for i in 0..FFT_SIZE {
        let t = i as f32 / sample_rate;
        samples[i] = (2.0 * PI * 125.0 * t).sin();
    }
    let bands = compute_16_bands(&samples);
    let max_band =
        bands.iter().enumerate().max_by(|a, b| a.1.partial_cmp(b.1).unwrap()).unwrap().0;
    assert!(max_band <= 2, "125Hz sine should concentrate in low bands (got band {max_band})");
}

fn level(x: f32) -> Level {
    if x == 0.0 {
        return Level::new(0);
    }
    let bits = x.to_bits() as i32;
    Level::new(if bits < 0 { -((bits & i32::MAX) as i64) } else { bits as i64 })
}

fn hanning_window(n: usize) -> Vec<f32> {
    let factor = 2.0 * PI / (n.max(2) - 1) as f32;
    (0..n).map(|i| if n == 1 { 1.0 } else { 0.5 * (1.0 - (factor * i as f32).cos()) }).collect()
}

fn linear_fit(y: &[f32]) -> (f32, f32) {
    let n = y.len() as f32;
    let (mut sx, mut sy, mut sxx, mut sxy) = (0.0f32, 0.0f32, 0.0f32, 0.0f32);
    for (i, v) in y.iter().enumerate() {
        let x = i as f32;
        sx += x;
        sy += v;
        sxx += x * x;
        sxy += x * v;
    }
    let denom = n * sxx - sx * sx;
    if denom.abs() < 1e-6 {
        return (0.0, sy / n);
    }
    let slope = (n * sxy - sx * sy) / denom;
    (slope, (sy - slope * sx) / n)
}

fn detrend_and_normalize(
    signal: &[f32],
    effective_fps: f64,
    detrend_window_sec: f64,
    norm_window_sec: f64,
    discontinuity_threshold: f32,
) -> Vec<f32> {
    let n = signal.len();
    let window = (detrend_window_sec * effective_fps).round().max(5.0) as usize;
    let jumps: Vec<bool> = (1..n)
        .map(|i| (signal[i] - signal[i - 1]).abs() > discontinuity_threshold)
        .collect();
    let full = hanning_window(window);
    let mut detrended = vec![0.0f32; n];
    let mut weights = vec![0.0f32; n];
    for piece in detrend_pieces(&segment_boundaries(&jumps), window) {
        let part = &signal[piece.start..piece.end];
        match piece.rule {
            DetrendRule::Mean => {
                let mean: f32 = part.iter().sum::<f32>() / part.len() as f32;
                for (i, x) in part.iter().enumerate() {
                    detrended[piece.start + i] = x - mean;
                    weights[piece.start + i] = 1.0;
                }
            }
            DetrendRule::OwnWindow | DetrendRule::FullWindow => {
                let own = hanning_window(part.len());
                let w = if piece.rule == DetrendRule::OwnWindow { &own } else { &full };
                let (m, c) = linear_fit(part);
                for i in 0..part.len() {
                    detrended[piece.start + i] += (part[i] - (m * i as f32 + c)) * w[i];
                    weights[piece.start + i] += w[i];
                }
            }
        }
    }
    let kernel = [1.0f32 / 16.0, 4.0 / 16.0, 6.0 / 16.0, 4.0 / 16.0, 1.0 / 16.0];
    for i in 0..n {
        detrended[i] /= weights[i].max(1e-6);
    }
    let smoothed: Vec<f32> = (0..n)
        .map(|i| {
            let (first, end) = smoothing_taps(i, n);
            let total: f32 = (first..end).map(|s| kernel[s + 2 - i]).sum();
            (first..end).map(|s| detrended[s] * kernel[s + 2 - i]).sum::<f32>() / total
        })
        .collect();
    let half = (norm_window_sec * effective_fps).round().max(3.0) as usize / 2;
    let keys: Vec<Level> = smoothed.iter().map(|x| level(*x)).collect();
    let lows = rolling_extremum(&keys, half, false);
    let highs = rolling_extremum(&keys, half, true);
    (0..n)
        .map(|i| {
            let (lo, hi) = (smoothed[lows[i]], smoothed[highs[i]]);
            if hi - lo > 1e-4 {
                ((smoothed[i] - lo) / (hi - lo) * 100.0).clamp(0.0, 100.0)
            } else {
                50.0
            }
        })
        .collect()
}

#[test]
fn test_detrend_and_normalize_bounded() {
    let mut signal = Vec::new();
    for i in 0..300 {
        let t = i as f32 / 30.0;
        signal.push(t * 10.0 + (t * 2.0 * PI).sin() * 5.0);
    }
    let norm = detrend_and_normalize(&signal, 30.0, 2.0, 2.0, 1000.0);
    assert_eq!(norm.len(), 300);
    for &val in &norm {
        assert!((0.0..=100.0).contains(&val));
    }
    // Each period is as wide as the window: the wave comes out at full range.
    assert!(norm[60..240].iter().any(|v| *v == 100.0));
    assert!(norm[60..240].iter().any(|v| *v == 0.0));
}

#[test]
fn test_normalization_benchmark_50k_samples() {
    let n = 50_000;
    let mut signal = Vec::with_capacity(n);
    for i in 0..n {
        let t = i as f32 / 30.0;
        signal.push((t * 0.5).sin() * 20.0 + (t * 3.0).cos() * 5.0);
    }
    let t0 = std::time::Instant::now();
    let norm = detrend_and_normalize(&signal, 30.0, 2.0, 3.0, 1000.0);
    let elapsed = t0.elapsed();
    assert_eq!(norm.len(), n);
    assert!(elapsed.as_millis() < 500, "50k sample normalization took too long: {:?}", elapsed);
}
