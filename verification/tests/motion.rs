//! The timeline, devices and smoothing.
use pulsar::axis::AxisChannel;
use pulsar::device::{DeviceProfile, DeviceType, KinematicLimits, RigModel, ThermalStatus};
use pulsar::funscript::{Action, Funscript, PositionSample};
use pulsar::scurve::{
    curve_sample_times, eval_scurve, smooth_funscript, CurveSample, SCurvePreset,
};
use pulsar::timeline::{
    all_indices, calculate_time_step_ms, first_index, format_ms, format_timestamp_ms,
    grid_ticks, insert_index, place_of, remove_index, AudioVizMode, TimelineState,
};

fn act(at: i64, pos: i32) -> Action {
    Action { at, pos }
}

fn quintic_smoothstep(u: f32) -> f32 {
    let t = u.clamp(0.0, 1.0);
    t * t * t * (t * (t * 6.0 - 15.0) + 10.0)
}

fn curve_value(sample: CurveSample, t: i64) -> f32 {
    match sample {
        CurveSample::Middle => 50.0,
        CurveSample::Hold(p) => p as f32,
        CurveSample::Line { from, to } => {
            let span = (to.at - from.at).max(1) as f32;
            let frac = ((t - from.at) as f32 / span).clamp(0.0, 1.0);
            from.pos as f32 + frac * (to.pos - from.pos) as f32
        }
        CurveSample::Blend { prev, curr, next, delta } => {
            let u = (t - (curr.at - delta)) as f32 / (2 * delta) as f32;
            let s = quintic_smoothstep(u);
            let vel_in = (curr.pos - prev.pos) as f32 / (curr.at - prev.at) as f32;
            let vel_out = (next.pos - curr.pos) as f32 / (next.at - curr.at) as f32;
            let line_in = curr.pos as f32 + vel_in * (t - curr.at) as f32;
            let line_out = curr.pos as f32 + vel_out * (t - curr.at) as f32;
            ((1.0 - s) * line_in + s * line_out).clamp(0.0, 100.0)
        }
    }
}

fn smooth(script: &Funscript, radius: i64) -> Funscript {
    let samples: Vec<i32> = curve_sample_times(script, radius)
        .iter()
        .map(|t| {
            let v = curve_value(eval_scurve(&script.actions, *t, radius), *t);
            v.round().clamp(0.0, 100.0) as i32
        })
        .collect();
    smooth_funscript(script, radius, &samples)
}

#[test]
fn test_timeline_state_defaults() {
    let state = TimelineState::default();
    assert!(state.magnetic_snapping);
    assert_eq!(state.snapped_transient_ms, None);
    assert!(state.selected_indices.is_empty());
    assert_eq!(state.selected_index, None);
}

#[test]
fn test_timeline_state_multi_selection() {
    let mut state = TimelineState::default();
    state.select_single(3);
    assert_eq!(state.selected_index, Some(3));
    assert!(state.is_selected(3));
    assert!(!state.is_selected(4));
    assert_eq!(state.selected_indices.len(), 1);

    state.toggle_selection(5);
    assert!(state.is_selected(3));
    assert!(state.is_selected(5));
    assert_eq!(state.selected_indices.len(), 2);

    state.toggle_selection(3);
    assert!(!state.is_selected(3));
    assert!(state.is_selected(5));
    assert_eq!(state.selected_index, Some(5));

    state.select_all(10);
    assert_eq!(state.selected_indices.len(), 10);
    for i in 0..10 {
        assert!(state.is_selected(i));
    }

    state.clear_selection();
    assert!(state.selected_indices.is_empty());
    assert_eq!(state.selected_index, None);
}

#[test]
fn test_timeline_loop_and_bookmarks() {
    let mut state = TimelineState::default();
    assert!(!state.loop_enabled);
    assert_eq!(state.loop_in_ms, None);
    assert_eq!(state.loop_out_ms, None);

    state.set_loop_in(1000);
    assert_eq!(state.loop_in_ms, Some(1000));
    assert!(state.loop_enabled);

    state.set_loop_out(3500);
    assert_eq!(state.loop_out_ms, Some(3500));
    assert!(state.loop_enabled);

    state.set_loop_in(4000);
    assert_eq!(state.loop_in_ms, Some(4000));
    assert_eq!(state.loop_out_ms, Some(5000));

    state.clear_loop();
    assert!(!state.loop_enabled);
    assert_eq!(state.loop_in_ms, None);
    assert_eq!(state.loop_out_ms, None);

    state.add_bookmark(1500, "Drop 1".into());
    state.add_bookmark(500, "Intro".into());
    state.add_bookmark(3000, "Climax".into());

    assert_eq!(state.bookmarks[0].time_ms, 500);
    assert_eq!(state.bookmarks[1].time_ms, 1500);
    assert_eq!(state.bookmarks[2].time_ms, 3000);

    assert_eq!(state.next_bookmark(0), Some(500));
    assert_eq!(state.next_bookmark(500), Some(1500));
    assert_eq!(state.next_bookmark(2000), Some(3000));
    assert_eq!(state.next_bookmark(3500), None);

    assert_eq!(state.prev_bookmark(4000), Some(3000));
    assert_eq!(state.prev_bookmark(3000), Some(1500));
    assert_eq!(state.prev_bookmark(1000), Some(500));
    assert_eq!(state.prev_bookmark(500), None);
}

#[test]
fn test_audio_viz_mode_lifecycle() {
    let mut state = TimelineState::default();
    assert_eq!(state.audio_viz_mode, AudioVizMode::Waveform);
    assert_eq!(AudioVizMode::ALL.len(), 3);

    state.cycle_audio_viz_mode();
    assert_eq!(state.audio_viz_mode, AudioVizMode::MultiBand);
    assert_eq!(state.audio_viz_mode.display_name(), "Multi-Band Split");
    assert_eq!(state.audio_viz_mode.icon(), "🌈");

    state.cycle_audio_viz_mode();
    assert_eq!(state.audio_viz_mode, AudioVizMode::Spectrogram);
    assert_eq!(state.audio_viz_mode.display_name(), "Waterfall Spectrogram");
    assert_eq!(state.audio_viz_mode.icon(), "⚡");

    state.cycle_audio_viz_mode();
    assert_eq!(state.audio_viz_mode, AudioVizMode::Waveform);
    assert_eq!(state.audio_viz_mode.display_name(), "Waveform (RMS)");
    assert_eq!(state.audio_viz_mode.icon(), "🎵");
}

#[test]
fn test_device_profile_limits() {
    let handy = DeviceProfile::for_device(DeviceType::TheHandy);
    let handy_stroke = f32::from_bits(handy.limits.physical_stroke_mm_bits);
    assert_eq!(handy_stroke, 110.0);
    assert_eq!(handy.supported_axes, vec![AxisChannel::Stroke]);

    let sr6 = DeviceProfile::for_device(DeviceType::SR6);
    assert_eq!(sr6.supported_axes.len(), 7);
    let speed = |p: &DeviceProfile| f32::from_bits(p.limits.max_speed_units_per_sec_bits);
    assert!(speed(&sr6) > speed(&handy));
}

#[test]
fn test_scurve_apex_preservation() {
    let actions = vec![act(0, 100), act(200, 0), act(400, 100)];
    let pos_at_vertex = curve_value(eval_scurve(&actions, 200, 40), 200);
    assert_eq!(pos_at_vertex, 0.0);

    let pos_scurve = curve_value(eval_scurve(&actions, 190, 40), 190);
    assert!((0.0..=5.0).contains(&pos_scurve));
}

#[test]
fn test_smooth_funscript_densification() {
    let original = Funscript::new(vec![act(0, 10), act(200, 90), act(400, 10)]);
    let smoothed = smooth(&original, 35);

    assert!(smoothed.actions.len() > original.actions.len());
    for a in &smoothed.actions {
        assert!(a.pos >= 0 && a.pos <= 100);
    }
}

#[test]
fn smoothing_samples_each_blend_zone_every_ten_milliseconds() {
    let script = Funscript::new(vec![act(0, 10), act(200, 90), act(400, 10)]);
    assert_eq!(curve_sample_times(&script, 35), vec![165, 175, 185, 195, 205, 215, 225, 235]);
    let smoothed = smooth(&script, 35);
    assert_eq!(smoothed.actions.first(), Some(&act(0, 10)));
    assert_eq!(smoothed.actions.last(), Some(&act(400, 10)));
    assert_eq!(smoothed.actions.len(), 10);
}

#[test]
fn smoothing_leaves_short_scripts_alone() {
    let script = Funscript::new(vec![act(0, 10), act(200, 90)]);
    assert_eq!(smooth(&script, 35), script);
    let longer = Funscript::new(vec![act(0, 10), act(200, 90), act(400, 10)]);
    assert_eq!(smooth(&longer, 0), longer);
}

#[test]
fn the_curve_is_known_everywhere() {
    assert_eq!(eval_scurve(&vec![], 5, 35), CurveSample::Middle);
    let one = vec![act(10, 70)];
    assert_eq!(eval_scurve(&one, 99, 35), CurveSample::Hold(70));
    let s = vec![act(0, 0), act(100, 50), act(300, 100)];
    assert_eq!(eval_scurve(&s, -1, 35), CurveSample::Hold(0));
    assert_eq!(eval_scurve(&s, 300, 35), CurveSample::Hold(100));
    assert_eq!(eval_scurve(&s, 20, 35), CurveSample::Line { from: s[0], to: s[1] });
    assert_eq!(
        eval_scurve(&s, 90, 35),
        CurveSample::Blend { prev: s[0], curr: s[1], next: s[2], delta: 35 }
    );
    assert_eq!(eval_scurve(&s, 90, 0), CurveSample::Line { from: s[0], to: s[1] });
}

#[test]
fn presets_have_their_radius() {
    let radii: Vec<i64> = SCurvePreset::ALL.iter().map(|p| p.blend_radius_ms()).collect();
    assert_eq!(radii, vec![0, 35, 75]);
    assert_eq!(SCurvePreset::Balanced.display_name(), "Balanced (±35ms Blend)");
}

#[test]
fn a_loop_end_before_its_start_moves_the_start() {
    let mut state = TimelineState::default();
    state.set_loop_in(5000);
    state.set_loop_out(2000);
    assert_eq!(state.loop_in_ms, Some(1000));
    assert_eq!(state.loop_out_ms, Some(2000));
}

#[test]
fn a_bookmark_is_kept_where_one_is() {
    let mut state = TimelineState::default();
    state.add_bookmark(100, "first".into());
    state.add_bookmark(100, "second".into());
    assert_eq!(state.bookmarks.len(), 1);
    assert_eq!(state.bookmarks[0].name, "first");
}

#[test]
fn increasing_lists_stay_in_order() {
    let mut s = all_indices(3);
    assert_eq!(s, vec![0, 1, 2]);
    insert_index(&mut s, 7);
    insert_index(&mut s, 1);
    assert_eq!(s, vec![0, 1, 2, 7]);
    remove_index(&mut s, 1);
    remove_index(&mut s, 9);
    assert_eq!(s, vec![0, 2, 7]);
    assert_eq!(place_of(&s, 3), 2);
    assert_eq!(first_index(&s), Some(0));
    assert_eq!(first_index(&vec![]), None);
}

#[test]
fn times_are_written_out() {
    assert_eq!(format_timestamp_ms(0), "00:00.000");
    assert_eq!(format_timestamp_ms(61005), "01:01.005");
    assert_eq!(format_timestamp_ms(6_000_123), "100:00.123");
    assert_eq!(format_timestamp_ms(-500), "00:00.500");
    assert_eq!(format_ms(61005), "01:01.005");
    assert_eq!(format_ms(-5), "00:00.000");
}

#[test]
fn grid_lines_spread_with_the_view() {
    let steps: Vec<i64> = [1600, 1601, 8000, 40001, 80000, 240000, 240001]
        .iter()
        .map(|d| calculate_time_step_ms(*d))
        .collect();
    assert_eq!(steps, vec![100, 500, 1000, 10000, 10000, 30000, 60000]);
}

#[test]
fn devices_have_names_and_limits() {
    assert_eq!(DeviceType::Keon.display_name(), "Fleshlight Keon (Reciprocating)");
    assert_eq!(DeviceProfile::for_device(DeviceType::OSR2Plus).name, "OSR2+");
    assert_eq!(
        DeviceProfile::for_device(DeviceType::Custom).limits,
        KinematicLimits::default()
    );
    assert_eq!(RigModel::SR6.display_name(), "SR6 (6-DOF Full Stewart)");
    let numbers = |device: DeviceType| {
        let l = DeviceProfile::for_device(device).limits;
        [
            l.max_speed_units_per_sec_bits,
            l.max_accel_units_per_sec2_bits,
            l.max_jerk_units_per_sec3_bits,
            l.physical_stroke_mm_bits,
        ]
        .map(f32::from_bits)
    };
    assert_eq!(numbers(DeviceType::TheHandy), [450.0, 4000.0, 75000.0, 110.0]);
    assert_eq!(numbers(DeviceType::OSR2Plus), [500.0, 5500.0, 90000.0, 120.0]);
    assert_eq!(numbers(DeviceType::SR6), [550.0, 6000.0, 100000.0, 130.0]);
    assert_eq!(numbers(DeviceType::Keon), [350.0, 3000.0, 60000.0, 95.0]);
    assert_eq!(numbers(DeviceType::Custom), [450.0, 4500.0, 80000.0, 110.0]);
}

#[test]
fn heat_has_three_classes() {
    assert_eq!(ThermalStatus::classify(false, false).badge(), "NORMAL");
    assert_eq!(ThermalStatus::classify(false, true).badge(), "WARMING");
    assert_eq!(ThermalStatus::classify(true, true).badge(), "COOLING_DOWN");
}

#[test]
fn grid_lines_start_before_the_view() {
    assert_eq!(grid_ticks(1250, 3000, 500), vec![1000, 1500, 2000, 2500, 3000]);
    assert_eq!(grid_ticks(0, 0, 100), vec![0]);
    assert!(grid_ticks(1000, 400, 500).is_empty());
}

#[test]
fn without_a_radius_the_curve_is_the_script() {
    let script = Funscript::new(vec![act(0, 10), act(100, 90), act(250, 30)]);
    for t in [-5, 0, 33, 100, 101, 249, 250, 400] {
        let plain = match script.interpolate_position(t) {
            PositionSample::Rest => 0.0,
            PositionSample::Hold(p) => p as f32,
            PositionSample::Between { prev, next } => {
                let frac = (t - prev.at) as f32 / (next.at - prev.at) as f32;
                prev.pos as f32 + frac * (next.pos - prev.pos) as f32
            }
        };
        assert_eq!(curve_value(eval_scurve(&script.actions, t, 0), t), plain, "{t}");
        assert_eq!(curve_value(eval_scurve(&script.actions, t, -7), t), plain, "{t}");
    }
}
