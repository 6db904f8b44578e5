//! Signals, optical measures, sound and spectra.
use pulsar::axis::AxisChannel;
use pulsar::funscript::Action;
use pulsar::gradient::gradient_tensor;
use pulsar::level::{first_peak, last_peak, upper_quartile, Level};
use pulsar::player::{format_atempo_filter, AudioPlayer, PlayerAction, TempoRange};
use pulsar::signal::{
    detrend_pieces, extract_actions, extract_actions_full_range, find_extrema,
    rolling_extremum, segment_boundaries, smoothing_taps, stroke_neighbor, DetrendRule,
    ExtremaKind, StrokeShape,
};
use pulsar::spectral::{
    band_bounds, bit_reversal_table, companion_settings, generate_multiband_companion_bundle,
    reverse_bits, sample_bins, stage_butterflies, synthesize_spectral_actions, FrequencyBand,
    SpectralInfillConfig, SpectralInfillMode, FFT_SIZE, NUM_SPEC_BANDS,
};
use pulsar::tracking::{
    detect_cut_photometric, filter_centers_median, find_divergence_center,
    photometric_difference,
};
use pulsar::waveform::{
    band_level_at, bin_at, decode_samples, find_nearest_band_transient, find_nearest_transient,
    plan_chunk, slide_window, LevelSource, CHUNK_BYTES,
};

/// A whole number that orders as the float does.
fn level(x: f32) -> Level {
    if x == 0.0 {
        return Level::new(0);
    }
    let bits = x.to_bits() as i32;
    let key = if bits < 0 { -((bits & 0x7fff_ffff) as i64) } else { bits as i64 };
    Level::new(key)
}

fn unlevel(l: Level) -> f32 {
    if l.key < 0 {
        -f32::from_bits((-l.key) as u32)
    } else {
        f32::from_bits(l.key as u32)
    }
}

fn levels(xs: &[f32]) -> Vec<Level> {
    xs.iter().map(|x| level(*x)).collect()
}

fn act(at: i64, pos: i32) -> Action {
    Action { at, pos }
}

fn bin_times(n: usize, per_sec: f32) -> Vec<i64> {
    (0..n).map(|b| ((b as f64 / per_sec as f64) * 1000.0).round() as i64).collect()
}

fn nearest(peaks: &[f32], per_sec: f32, time_ms: i64, max_dist: i64) -> Option<i64> {
    let center = ((time_ms as f64 / 1000.0) * per_sec as f64).round() as usize;
    let radius = ((max_dist as f64 / 1000.0) * per_sec as f64).ceil() as usize;
    find_nearest_transient(
        &levels(peaks),
        &bin_times(peaks.len(), per_sec),
        time_ms,
        max_dist,
        center,
        radius,
        level(0.15),
    )
}

/// What the bins of a signal call for, with the spacing of the mode in bins.
fn synthesize(
    signal: &[f32],
    per_sec: f32,
    config: &SpectralInfillConfig,
    start_ms: i64,
    end_ms: i64,
) -> Vec<Action> {
    let threshold = f32::from_bits(config.threshold_bits);
    let start = ((start_ms as f64 / 1000.0) * per_sec as f64).round().max(0.0) as usize;
    let end = ((end_ms as f64 / 1000.0) * per_sec as f64).round().min(signal.len() as f64) as usize;
    let (lo, hi) = (config.min_pos.clamp(0, 100), config.max_pos.clamp(0, 100));
    let mid = (lo + hi) / 2;
    let above = |v: f32| ((v - threshold) / (1.0 - threshold).max(0.01)).clamp(0.0, 1.0);
    let freq = f32::from_bits(config.modulation_freq_bits).clamp(1.0, 25.0);
    let spacing = match config.mode {
        SpectralInfillMode::RhythmicBeats => {
            ((config.min_interval_ms as f64 / 1000.0) * per_sec as f64).round().max(1.0) as usize
        }
        SpectralInfillMode::EnvelopeFollower => (0.050 * per_sec).round().max(1.0) as usize,
        SpectralInfillMode::ModulatedOscillation => {
            let step_ms = (1.0 / freq * 1000.0 * 0.25).max(10.0);
            ((step_ms as f64 / 1000.0) * per_sec as f64).round().max(1.0) as usize
        }
    };
    let mut positions: Vec<i32> = vec![0; signal.len()];
    match config.mode {
        SpectralInfillMode::RhythmicBeats => {
            for (b, v) in signal.iter().enumerate() {
                positions[b] = mid + ((hi - mid) as f32 * above(*v)).round() as i32;
            }
        }
        SpectralInfillMode::EnvelopeFollower => {
            let mut smoothed = 0.0f32;
            for b in sample_bins(start, end, spacing) {
                smoothed = 0.35 * signal[b] + 0.65 * smoothed;
                let active = if smoothed >= threshold {
                    (smoothed - threshold) / (1.0 - threshold).max(0.01)
                } else {
                    0.0
                };
                positions[b] = (lo as f32 + active * (hi - lo) as f32).round() as i32;
            }
        }
        SpectralInfillMode::ModulatedOscillation => {
            for b in sample_bins(start, end, spacing) {
                let amp = if signal[b] >= threshold { above(signal[b]) } else { 0.0 };
                let carrier =
                    (2.0 * std::f32::consts::PI * freq * (b as f32 / per_sec)).sin();
                let half = (hi - lo) as f32 * 0.5;
                positions[b] = (mid as f32 + carrier * half * amp).round() as i32;
            }
        }
    }
    synthesize_spectral_actions(
        config,
        &levels(signal),
        &bin_times(signal.len(), per_sec),
        &positions,
        level(threshold),
        spacing,
        start,
        end,
    )
}

fn full_range(signal: &[f32], times: &Vec<i64>, prominence_pct: f32) -> Vec<Action> {
    let n = signal.len();
    let mut smooth = signal.to_vec();
    for i in 1..(n - 1) {
        smooth[i] = signal[i - 1] * 0.25 + signal[i] * 0.5 + signal[i + 1] * 0.25;
    }
    let lo = smooth.iter().fold(f32::INFINITY, |a, &b| a.min(b));
    let hi = smooth.iter().fold(f32::NEG_INFINITY, |a, &b| a.max(b));
    let least = (hi - lo).max(1e-4) * (prominence_pct / 100.0).clamp(0.005, 0.5);
    let extrema = find_extrema(&levels(&smooth), |a: usize, b: usize| {
        (smooth[b] - smooth[a]).abs() >= least
    });
    let value = |i: usize| smooth[extrema[i].index];
    let spans: Vec<f32> =
        (1..extrema.len()).map(|i| (value(i) - value(i - 1)).abs()).collect();
    let typical = match upper_quartile(&levels(&spans)) {
        Some(l) => unlevel(l).max(1e-4),
        None => (hi - lo).max(1e-4),
    };
    let shapes: Vec<StrokeShape> = (0..extrema.len())
        .map(|i| {
            let diff = match stroke_neighbor(i, extrema.len()) {
                Some(k) => (value(i) - value(k)).abs(),
                None => typical,
            };
            let ratio = (diff / typical).clamp(0.0, 1.0);
            if ratio > 0.55 {
                StrokeShape::Full
            } else {
                StrokeShape::Partial((ratio * 38.0).round() as u8)
            }
        })
        .collect();
    extract_actions_full_range(n, times, &extrema, &shapes)
}

#[test]
fn test_waveform_peak_lookup() {
    let peaks = [0.1f32, 0.5, 1.0, 0.2];
    let at = |t: i64| {
        let bin = ((t as f64 / 1000.0) * 100.0).round() as usize;
        bin_at(peaks.len(), t, bin).map(|b| peaks[b]).unwrap_or(0.0)
    };
    assert_eq!(at(0), 0.1);
    assert_eq!(at(10), 0.5);
    assert_eq!(at(20), 1.0);
    assert_eq!(at(30), 0.2);
    assert_eq!(at(100), 0.0);
}

#[test]
fn test_find_nearest_transient() {
    let mut peaks = vec![0.0f32; 20];
    peaks[9] = 0.2;
    peaks[10] = 0.8;
    peaks[11] = 0.3;
    assert_eq!(nearest(&peaks, 100.0, 90, 35), Some(100));
    assert_eq!(nearest(&peaks, 100.0, 150, 35), None);
    assert_eq!(nearest(&peaks, 100.0, 120, 35), Some(100));
}

#[test]
fn a_nearer_transient_wins_over_a_louder_one() {
    let mut peaks = vec![0.0f32; 20];
    peaks[7] = 0.9;
    peaks[11] = 0.5;
    assert_eq!(nearest(&peaks, 100.0, 100, 50), Some(110));
    assert_eq!(nearest(&peaks, 100.0, 80, 50), Some(70));
    // Of two that are equally near, the first.
    assert_eq!(nearest(&peaks, 100.0, 90, 50), Some(70));
    // A peak below the floor is none.
    peaks[11] = 0.1;
    assert_eq!(nearest(&peaks, 100.0, 100, 50), Some(70));
}

#[test]
fn test_audio_player_state_transitions() {
    let mut player = AudioPlayer::new();
    let volume = |p: &AudioPlayer| f32::from_bits(p.volume_bits);
    assert!((volume(&player) - 0.8).abs() < 0.01);
    assert!(!player.is_muted);
    assert!(!player.is_playing);

    let changed = (0.4 - volume(&player)).abs() > 0.01;
    assert!(matches!(player.set_volume(0.4f32.to_bits(), changed, true), PlayerAction::Keep));
    assert!((volume(&player) - 0.4).abs() < 0.01);

    player.set_muted(true, true);
    assert!(player.is_muted);

    player.set_muted(false, true);
    assert!(!player.is_muted);

    player.pause();
    assert!(!player.is_playing);

    player.update_current_time(5000);
    player.set_volume_at(0.6f32.to_bits(), true, true, 7500);
    assert!((volume(&player) - 0.6).abs() < 0.01);
    assert_eq!(player.current_time_ms, 7500);

    player.set_muted_at(true, true, 8000);
    assert!(player.is_muted);
}

fn atempo(speed: f64) -> String {
    let s = speed.clamp(0.25, 4.0);
    if s < 0.5 {
        format_atempo_filter(TempoRange::Slow, &format!("{:.3}", s / 0.5))
    } else if s > 2.0 {
        format_atempo_filter(TempoRange::Fast, &format!("{:.3}", s / 2.0))
    } else {
        format_atempo_filter(TempoRange::Normal, &format!("{:.3}", s))
    }
}

#[test]
fn test_format_atempo_filter_chaining() {
    assert_eq!(atempo(0.5), "atempo=0.500");
    assert_eq!(atempo(1.5), "atempo=1.500");
    assert_eq!(atempo(2.0), "atempo=2.000");
    assert_eq!(atempo(0.25), "atempo=0.5,atempo=0.500");
    assert_eq!(atempo(3.0), "atempo=2.0,atempo=1.500");
}

#[test]
fn test_synthesize_spectral_rhythmic_beats() {
    let mut sub_bass = vec![0.0f32; 100];
    sub_bass[20] = 0.8;
    sub_bass[60] = 0.9;
    let cfg = SpectralInfillConfig {
        band: FrequencyBand::SubBass,
        target_axis: AxisChannel::Stroke,
        mode: SpectralInfillMode::RhythmicBeats,
        threshold_bits: 0.40f32.to_bits(),
        min_pos: 10,
        max_pos: 90,
        min_interval_ms: 150,
        modulation_freq_bits: 5.0f32.to_bits(),
    };
    let actions = synthesize(&sub_bass, 100.0, &cfg, 0, 1000);
    assert!(!actions.is_empty());
    assert!(actions.iter().any(|a| (a.at - 200).abs() <= 20));
    assert!(actions.iter().any(|a| (a.at - 600).abs() <= 20));
}

#[test]
fn test_synthesize_modulated_oscillation_bounds() {
    let mid = vec![0.8f32; 50];
    let cfg = SpectralInfillConfig {
        band: FrequencyBand::Mid,
        target_axis: AxisChannel::Twist,
        mode: SpectralInfillMode::ModulatedOscillation,
        threshold_bits: 0.10f32.to_bits(),
        min_pos: 20,
        max_pos: 80,
        min_interval_ms: 50,
        modulation_freq_bits: 8.0f32.to_bits(),
    };
    let actions = synthesize(&mid, 100.0, &cfg, 0, 500);
    assert!(!actions.is_empty());
    for a in &actions {
        assert!(a.pos >= 20 && a.pos <= 80, "Position {} out of range", a.pos);
    }
}

#[test]
fn test_generate_multiband_companion_bundle() {
    let mut sub_bass = vec![0.1f32; 100];
    sub_bass[25] = 0.9;
    sub_bass[75] = 0.95;
    let mid = vec![0.5f32; 100];
    let high = vec![0.4f32; 100];
    let made = |axis: AxisChannel| {
        let cfg = companion_settings(axis).unwrap();
        let signal = match cfg.band.source(sub_bass.len(), mid.len(), high.len()) {
            FrequencyBand::SubBass => &sub_bass,
            FrequencyBand::Mid => &mid,
            _ => &high,
        };
        synthesize(signal, 100.0, &cfg, 0, 1000)
    };
    let bundle = generate_multiband_companion_bundle(
        made(AxisChannel::Stroke),
        made(AxisChannel::Surge),
        made(AxisChannel::Twist),
        made(AxisChannel::Suction),
    );
    assert!(bundle.get(AxisChannel::Stroke).is_some());
    assert!(bundle.get(AxisChannel::Surge).is_some());
    assert!(bundle.get(AxisChannel::Twist).is_some());
    assert!(bundle.get(AxisChannel::Suction).is_some());

    let stroke = bundle.get(AxisChannel::Stroke).unwrap();
    assert!(!stroke.actions.is_empty());
    let twist = bundle.get(AxisChannel::Twist).unwrap();
    assert!(!twist.actions.is_empty());
    assert!(bundle.get(AxisChannel::Roll).is_none());
    assert!(companion_settings(AxisChannel::Roll).is_none());
}

#[test]
fn test_extract_actions_inflections() {
    let norm = [0.0f32, 25.0, 50.0, 75.0, 100.0, 75.0, 50.0, 25.0, 0.0];
    let ts: Vec<i64> = (0..9).map(|i| i * 100).collect();
    let positions: Vec<i32> = norm.iter().map(|v| (100.0 - v).round() as i32).collect();
    let actions = extract_actions(&levels(&norm), &positions, &ts, true);
    assert!(actions.len() < norm.len());
    assert_eq!(actions[0].pos, 100);
    assert_eq!(actions[1].pos, 0);
    assert_eq!(actions[2].pos, 100);
}

#[test]
fn test_extract_actions_full_range_equalization() {
    let mut signal = Vec::new();
    let mut timestamps = Vec::new();
    for i in 0..100 {
        let t = i as f32 / 10.0;
        signal.push((t * std::f32::consts::PI).sin() * 10.0);
        timestamps.push(i as i64 * 100);
    }
    let actions = full_range(&signal, &timestamps, 5.0);
    assert!(!actions.is_empty());
    let min_p = actions.iter().map(|a| a.pos).min().unwrap();
    let max_p = actions.iter().map(|a| a.pos).max().unwrap();
    assert_eq!(min_p, 0, "Expected full range minimum of 0");
    assert_eq!(max_p, 100, "Expected full range maximum of 100");
}

fn is_cut(p0: &[u8], p1: &[u8], threshold: f32) -> bool {
    let diff = photometric_difference(p0, p1);
    let above = diff.map(|d| d as f32 / p0.len() as f32 > threshold).unwrap_or(false);
    detect_cut_photometric(diff, above)
}

#[test]
fn test_photometric_cut_detection() {
    let f0 = vec![128u8; 1000];
    let f1 = vec![128u8; 1000];
    assert!(!is_cut(&f0, &f1, 30.0));
    let f_black = vec![0u8; 1000];
    assert!(is_cut(&f0, &f_black, 30.0));
}

#[test]
fn test_filter_centers_suppresses_spikes() {
    let mut raw = vec![(50.0f32, 50.0f32); 10];
    raw[5] = (500.0, 500.0);
    let xs: Vec<f32> = raw.iter().map(|c| c.0).collect();
    let ys: Vec<f32> = raw.iter().map(|c| c.1).collect();
    let fx = filter_centers_median(&levels(&xs), 2);
    let fy = filter_centers_median(&levels(&ys), 2);
    assert!((unlevel(fx[5]) - 50.0).abs() < 1.0);
    assert!((unlevel(fy[5]) - 50.0).abs() < 1.0);
}

#[test]
fn frames_of_different_size_are_a_cut() {
    assert!(is_cut(&[1, 2], &[1], 30.0));
    assert!(is_cut(&[], &[], 30.0));
    assert_eq!(photometric_difference(&[5, 0], &[0, 9]), Some(14));
}

#[test]
fn divergence_peaks_away_from_the_border() {
    let mut m = vec![0.0f32; 64];
    m[0] = 9.0;
    m[3 * 8 + 4] = 2.0;
    m[4 * 8 + 4] = 2.0;
    assert_eq!(find_divergence_center(&levels(&m), 8, 8, level(0.0)), Some((4, 3)));
    assert_eq!(find_divergence_center(&levels(&vec![0.0; 64]), 8, 8, level(0.0)), None);
}

#[test]
fn rolling_extrema_follow_the_window() {
    let v = levels(&[3.0, 1.0, 4.0, 1.0, 5.0]);
    assert_eq!(rolling_extremum(&v, 1, true), vec![0, 2, 2, 4, 4]);
    assert_eq!(rolling_extremum(&v, 1, false), vec![1, 1, 3, 3, 3]);
}

#[test]
fn jumps_part_a_signal() {
    let jumps = vec![false, false, true, false];
    assert_eq!(segment_boundaries(&jumps), vec![0, 3, 5]);
    let pieces = detrend_pieces(&vec![0, 3, 20], 8);
    assert!(matches!(pieces[0].rule, DetrendRule::Mean));
    for i in 0..20 {
        assert!(pieces.iter().any(|p| p.start <= i && i < p.end));
    }
}

#[test]
fn filters_stop_at_the_ends() {
    assert_eq!(smoothing_taps(0, 10), (0, 3));
    assert_eq!(smoothing_taps(5, 10), (3, 8));
    assert_eq!(smoothing_taps(9, 10), (7, 10));
}

#[test]
fn turning_points_alternate() {
    let v = [0.0f32, 5.0, 4.9, 6.0, 0.0, 3.0, 0.0];
    let found = find_extrema(&levels(&v), |a: usize, b: usize| (v[a] - v[b]).abs() >= 1.0);
    let places: Vec<usize> = found.iter().map(|e| e.index).collect();
    assert_eq!(places, vec![3, 4, 5]);
    assert_eq!(found[0].kind, ExtremaKind::Peak);
    assert_eq!(found[1].kind, ExtremaKind::Valley);
}

#[test]
fn flat_and_short_signals_have_keyframes() {
    let none = Vec::new();
    let shapes = Vec::new();
    assert_eq!(extract_actions_full_range(0, &vec![], &none, &shapes), vec![]);
    assert_eq!(extract_actions_full_range(1, &vec![7], &none, &shapes), vec![act(7, 50)]);
    assert_eq!(
        extract_actions_full_range(3, &vec![0, 5, 9], &none, &shapes),
        vec![act(0, 0), act(9, 100)]
    );
}

#[test]
fn peaks_and_quartiles() {
    let v = levels(&[2.0, 5.0, 5.0, 1.0]);
    assert_eq!(first_peak(&v), Some(1));
    assert_eq!(last_peak(&v), Some(2));
    assert_eq!(upper_quartile(&v), Some(level(5.0)));
    assert_eq!(first_peak(&vec![]), None);
    assert_eq!(upper_quartile(&vec![]), None);
}

#[test]
fn a_playing_player_restarts() {
    let mut player = AudioPlayer::new();
    match player.play_at("a.mp4", -5, true) {
        PlayerAction::Restart { path, at_ms } => {
            assert_eq!(path, "a.mp4");
            assert_eq!(at_ms, 0);
        }
        _ => panic!("not started"),
    }
    assert!(matches!(player.seek_to(900, true), PlayerAction::Restart { at_ms: 900, .. }));
    assert!(matches!(player.set_muted(true, true), PlayerAction::Stop));
    assert!(matches!(player.seek_to(950, true), PlayerAction::Stop));
    assert!(matches!(player.set_muted(false, true), PlayerAction::Restart { at_ms: 950, .. }));
    assert!(matches!(player.set_volume(0, true, false), PlayerAction::Stop));
    player.set_media_path("b.mp4");
    assert_eq!(player.current_path, Some("b.mp4".to_string()));
}

#[test]
fn bits_are_reversed_twice_to_themselves() {
    for x in 0..=255u8 {
        assert_eq!(reverse_bits(reverse_bits(x)), x);
    }
    assert_eq!(reverse_bits(1), 128);
    let table = bit_reversal_table();
    assert_eq!(table.len(), FFT_SIZE);
    assert_eq!(table[3], 192);
}

#[test]
fn bands_follow_each_other() {
    let mut last = band_bounds(0).1;
    for i in 1..NUM_SPEC_BANDS {
        let (from, to) = band_bounds(i);
        assert_eq!(from, last);
        assert!(to > from);
        last = to;
    }
}

#[test]
fn beats_keep_their_distance() {
    let mut s = vec![0.0f32; 60];
    for b in [10, 15, 30, 55] {
        s[b] = 0.9;
    }
    let cfg = SpectralInfillConfig { min_interval_ms: 100, ..SpectralInfillConfig::default() };
    let actions = synthesize(&s, 100.0, &cfg, 0, 600);
    let times: Vec<i64> = actions.iter().map(|a| a.at).collect();
    assert_eq!(times, vec![100, 300, 420, 550]);
    assert!(synthesize(&s, 100.0, &cfg, 700, 900).is_empty());
}

#[test]
fn bands_and_modes_have_names() {
    assert_eq!(FrequencyBand::High.short_name(), "High");
    assert_eq!(FrequencyBand::SubBass.source(0, 5, 5), FrequencyBand::FullSpectrum);
    assert!(SpectralInfillMode::ModulatedOscillation.display_name().starts_with("Modulated"));
    assert!(FrequencyBand::Mid.display_name().contains("Mid"));
}

#[test]
fn a_band_is_searched_alone() {
    let v = levels(&[0.0, 0.9, 0.0, 0.0]);
    let times = bin_times(4, 100.0);
    let find = |band, positive| {
        find_nearest_band_transient(band, positive, &v, &times, 12, 20, 1, 2, level(0.15))
    };
    assert_eq!(find(FrequencyBand::Mid, true), Some(10));
    assert_eq!(find(FrequencyBand::FullSpectrum, true), None);
    assert_eq!(find(FrequencyBand::Mid, false), None);
}

#[test]
fn levels_come_from_the_band_or_the_envelope() {
    assert_eq!(band_level_at(true, 5, 9, true, 30, 3), LevelSource::Band(3));
    assert_eq!(band_level_at(true, 5, 9, true, 70, 7), LevelSource::Silence);
    assert_eq!(band_level_at(false, 5, 9, true, 70, 7), LevelSource::Peak(7));
    assert_eq!(band_level_at(false, 5, 9, true, -1, 0), LevelSource::Silence);
    assert_eq!(band_level_at(true, 5, 9, false, 30, 3), LevelSource::Silence);
}

#[test]
fn sound_is_read_in_chunks() {
    let bytes = vec![0x01, 0x00, 0xff, 0xff, 0x00, 0x80, 0x07];
    assert_eq!(decode_samples(&bytes, 7), vec![1, -1, -32768]);
    assert_eq!(decode_samples(&bytes, 3), vec![1]);
    let full = plan_chunk(CHUNK_BYTES);
    assert_eq!((full.samples, full.is_last), (160, false));
    let cut = plan_chunk(5);
    assert_eq!((cut.samples, cut.is_last), (2, true));
    let window = vec![0i16; FFT_SIZE];
    let slid = slide_window(&window, &vec![7, 8]);
    assert_eq!(slid.len(), FFT_SIZE);
    assert_eq!(&slid[FFT_SIZE - 3..], &[0, 7, 8]);
}

#[test]
fn every_slot_takes_part_in_one_butterfly_of_a_stage() {
    for stage in 0..8 {
        let mut met = vec![0; FFT_SIZE];
        for b in stage_butterflies(stage) {
            assert_eq!(b.bottom - b.top, 1 << stage);
            assert!(b.twiddle < FFT_SIZE / 2);
            met[b.top] += 1;
            met[b.bottom] += 1;
        }
        assert_eq!(met, vec![1; FFT_SIZE]);
    }
    let third = stage_butterflies(2);
    assert_eq!((third[5].top, third[5].bottom, third[5].twiddle), (9, 13, 32));
}

/// The butterflies of all stages, on reordered samples, are the transform: a
/// cosine of seven periods shows in bin seven alone.
#[test]
fn butterflies_make_up_the_transform() {
    let turn = 2.0 * std::f64::consts::PI / FFT_SIZE as f64;
    let table = bit_reversal_table();
    let mut re: Vec<f64> = table.iter().map(|&i| (turn * 7.0 * i as f64).cos()).collect();
    let mut im = vec![0.0f64; FFT_SIZE];
    for stage in 0..8 {
        for b in stage_butterflies(stage) {
            let (s, c) = (-turn * b.twiddle as f64).sin_cos();
            let t_re = re[b.bottom] * c - im[b.bottom] * s;
            let t_im = re[b.bottom] * s + im[b.bottom] * c;
            let (u_re, u_im) = (re[b.top], im[b.top]);
            re[b.top] = u_re + t_re;
            im[b.top] = u_im + t_im;
            re[b.bottom] = u_re - t_re;
            im[b.bottom] = u_im - t_im;
        }
    }
    for k in 0..FFT_SIZE / 2 {
        let expected = if k == 7 { 128.0 } else { 0.0 };
        assert!((re[k].hypot(im[k]) - expected).abs() < 1e-9, "bin {}", k);
    }
}

#[test]
fn test_dense_flow_motion_direction() {
    let w = 64;
    let h = 64;
    let mut p0 = vec![0u8; w * h];
    let mut p1 = vec![0u8; w * h];
    // Shift block rightward
    for y in 20..40 {
        for x in 20..40 {
            p0[y * w + x] = 255;
        }
        for x in 23..43 {
            p1[y * w + x] = 255;
        }
    }
    // Measure horizontal flow at the leading edge (x: 38..42, y: 25..35)
    let mut edge_u_sum = 0.0f32;
    let mut count = 0;
    for y in 25..35 {
        for x in 38..42 {
            let t = gradient_tensor(&p0, &p1, w, h, x, y).unwrap();
            let a = t.xx as f32 / 16.0 + 0.05;
            let b = t.xy as f32 / 16.0;
            let c = t.yy as f32 / 16.0 + 0.05;
            let det = a * c - b * b;
            if det.abs() > 1e-6 {
                let u = -(c * t.xt as f32 / 4.0 - b * t.yt as f32 / 4.0) / det;
                edge_u_sum += u.clamp(-30.0, 30.0);
            }
            count += 1;
        }
    }
    let avg_edge_u = edge_u_sum / (count as f32);
    assert!(avg_edge_u > 0.0, "Expected positive horizontal flow at leading edge, got {}", avg_edge_u);
}

#[test]
fn gradients_are_summed_inside_the_border() {
    // Brightness grows by 10 across and by 1 down, and by 4 from frame to frame.
    let (w, h) = (8usize, 6usize);
    let p0: Vec<u8> = (0..w * h).map(|i| (10 * (i % w) + i / w) as u8).collect();
    let p1: Vec<u8> = p0.iter().map(|p| p + 4).collect();
    // The window around (4, 3) is cut to columns 1 to 6 and rows 1 to 4.
    let t = gradient_tensor(&p0, &p1, w, h, 4, 3).unwrap();
    assert_eq!((t.xx, t.xy, t.yy), (24 * 1600, 24 * 160, 24 * 16));
    assert_eq!((t.xt, t.yt), (24 * 160, 24 * 16));
    let still = gradient_tensor(&p0, &p0, w, h, 4, 3).unwrap();
    assert_eq!((still.xx, still.xt, still.yt), (24 * 1600, 0, 0));
    assert_eq!(gradient_tensor(&p0, &p1, w, h, 0, 3), None);
    assert_eq!(gradient_tensor(&p0, &p1, w, h, 4, 5), None);
    assert_eq!(gradient_tensor(&p0, &p1, 0, 0, 0, 0), None);
}

#[test]
fn infill_settings_start_from_defaults() {
    let cfg = SpectralInfillConfig::default();
    assert_eq!(f32::from_bits(cfg.threshold_bits), 0.35);
    assert_eq!(f32::from_bits(cfg.modulation_freq_bits), 8.0);
    assert_eq!((cfg.min_pos, cfg.max_pos, cfg.min_interval_ms), (10, 90, 180));
    let suction = companion_settings(AxisChannel::Suction).unwrap();
    assert_eq!(f32::from_bits(suction.threshold_bits), 0.20);
    assert_eq!(f32::from_bits(suction.modulation_freq_bits), 10.0);
}
