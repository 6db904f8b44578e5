//! Scripts, bundles, history and audits.
use pulsar::axis::{
    base_stem_of, companion_name, extract_base_stem, AxisChannel, MultiAxisScript,
};
use pulsar::doctor::{
    diagnose_funscript, is_too_fast, speed_steps, DoctorConfig, DoctorReport, IssueSeverity,
};
use pulsar::funscript::{
    lower_bound, remove_range, Action, Funscript, InfillPattern, Metadata, PositionSample,
};
use pulsar::history::UndoHistory;

fn act(at: i64, pos: i32) -> Action {
    Action { at, pos }
}

/// A speed as the library counts it.
fn milli(speed: f64) -> u64 {
    (speed * 1000.0).round() as u64
}

fn audit(script: &Funscript, max_safe_speed: f64) -> (DoctorReport, f64) {
    let mut fastest = 0.0f64;
    let mut labels = Vec::new();
    for step in speed_steps(script) {
        match step {
            Some(s) => {
                let speed = s.dpos as f64 / (s.dt as f64 / 1000.0);
                fastest = fastest.max(speed);
                labels.push(format!("{:.1}", speed));
            }
            None => labels.push(String::new()),
        }
    }
    let config = DoctorConfig { max_safe_milli: milli(max_safe_speed), ..DoctorConfig::default() };
    (diagnose_funscript(script, &config, &labels), fastest)
}

fn position(sample: PositionSample, time_ms: i64) -> f32 {
    match sample {
        PositionSample::Rest => 0.0,
        PositionSample::Hold(p) => p as f32,
        PositionSample::Between { prev, next } => {
            let dt = (next.at - prev.at).max(1) as f32;
            let frac = ((time_ms - prev.at) as f32 / dt).clamp(0.0, 1.0);
            prev.pos as f32 + frac * (next.pos - prev.pos) as f32
        }
    }
}

fn sine_points(start: i64, end: i64, lo: i32, hi: i32, freq: f32) -> Vec<Action> {
    let duration = (end - start) as f32;
    let period = (1000.0 / freq).max(20.0);
    let per_cycle = InfillPattern::Sine.points_per_cycle();
    let total = (duration / period * per_cycle as f32).round() as usize;
    let step = duration / total.max(1) as f32;
    (0..=total)
        .map(|i| {
            let t = start + (i as f32 * step).round() as i64;
            let phase = ((t - start) as f32 / period) * 2.0 * std::f32::consts::PI;
            let norm = (phase.sin() + 1.0) / 2.0;
            act(t, (lo as f32 + norm * (hi - lo) as f32).round() as i32)
        })
        .collect()
}

#[test]
fn test_doctor_diagnose_speed_and_inversions() {
    let script = Funscript::new(vec![act(0, 0), act(100, 100), act(100, 50)]);
    let (report, fastest) = audit(&script, 450.0);
    assert_eq!(report.speed_violations_count, 1);
    assert_eq!(report.timing_inversions_count, 1);
    assert!(fastest >= 999.0);
}

#[test]
fn test_sanitize_deduplicates_and_clamps() {
    let mut script = Funscript::new(vec![act(100, 120), act(100, 90), act(50, -10)]);
    script.sanitize();
    assert_eq!(script.actions.len(), 2);
    assert_eq!(script.actions[0], act(50, 0));
    assert_eq!(script.actions[1], act(100, 90));
}

#[test]
fn test_fix_speed_violations() {
    let mut script = Funscript::new(vec![act(0, 0), act(100, 100)]);
    let fixed = script.fix_speed_violations(milli(400.0));
    assert_eq!(fixed, 1);
    assert_eq!(script.actions[1].pos, 40);

    let (report, _) = audit(&script, 400.0);
    assert_eq!(report.speed_violations_count, 0);
}

#[test]
fn test_remove_micro_jitters() {
    let mut script = Funscript::new(vec![act(0, 0), act(10, 1), act(500, 100)]);
    let removed = script.remove_micro_jitters(20, 2);
    assert_eq!(removed, 1);
    assert_eq!(script.actions.len(), 2);
    assert_eq!(script.actions[0].at, 0);
    assert_eq!(script.actions[1].at, 500);
}

#[test]
fn test_interpolate_position() {
    let script = Funscript::new(vec![act(0, 0), act(1000, 100)]);
    let at = |t: i64| position(script.interpolate_position(t), t);
    assert_eq!(at(-50), 0.0);
    assert_eq!(at(0), 0.0);
    assert_eq!(at(500), 50.0);
    assert_eq!(at(1000), 100.0);
    assert_eq!(at(1500), 100.0);
}

#[test]
fn test_infill_pattern_sine() {
    let mut script = Funscript::new(vec![]);
    let points = sine_points(0, 1000, 10, 90, 2.0);
    script.infill_pattern(0, 1000, true, &points);

    assert!(!script.actions.is_empty());
    assert_eq!(script.actions.first().unwrap().at, 0);
    assert_eq!(script.actions.last().unwrap().at, 1000);
    for a in &script.actions {
        assert!(a.pos >= 10 && a.pos <= 90);
    }
}

#[test]
fn test_transformations_invert_and_scale() {
    let mut script = Funscript::new(vec![act(0, 20), act(500, 80)]);
    script.invert_positions();
    assert_eq!(script.actions[0].pos, 80);
    assert_eq!(script.actions[1].pos, 20);

    let scaled: Vec<i32> = script
        .pivot_offsets(50)
        .iter()
        .map(|d| (50.0f32 + *d as f32 * 0.5).round() as i32)
        .collect();
    script.scale_amplitude(&scaled);
    assert_eq!(script.actions[0].pos, 65);
    assert_eq!(script.actions[1].pos, 35);
}

#[test]
fn test_extract_base_stem() {
    let (parent, stem) = extract_base_stem("/home/user/video.surge.funscript");
    assert_eq!(stem, "video");
    assert_eq!(parent, "/home/user");

    let (_, stem2) = extract_base_stem("/tmp/clip.funscript");
    assert_eq!(stem2, "clip");

    let (_, stem3) = extract_base_stem("/tmp/movie.mp4");
    assert_eq!(stem3, "movie");
}

#[test]
fn test_undo_history_lifecycle() {
    let mut history = UndoHistory::new(3);
    let mut script = Funscript::new(vec![act(100, 10)]);

    assert!(!history.can_undo());
    assert!(!history.can_redo());

    history.push_snapshot(&script);
    script.actions.push(act(200, 50));
    assert_eq!(script.actions.len(), 2);
    assert!(history.can_undo());

    history.push_snapshot(&script);
    script.actions.push(act(300, 90));
    assert_eq!(script.actions.len(), 3);

    assert!(history.undo(&mut script));
    assert_eq!(script.actions.len(), 2);
    assert_eq!(script.actions[1].pos, 50);
    assert!(history.can_redo());

    assert!(history.undo(&mut script));
    assert_eq!(script.actions.len(), 1);
    assert!(!history.can_undo());

    assert!(history.redo(&mut script));
    assert_eq!(script.actions.len(), 2);

    assert!(history.redo(&mut script));
    assert_eq!(script.actions.len(), 3);
    assert!(!history.can_redo());
}

#[test]
fn sanitizing_twice_changes_nothing() {
    let mut script = Funscript::new(vec![act(30, 10), act(10, 300), act(30, 20), act(20, -1)]);
    script.sanitize();
    let once = script.actions.clone();
    assert_eq!(once, vec![act(10, 100), act(20, 0), act(30, 20)]);
    script.sanitize();
    assert_eq!(script.actions, once);
}

#[test]
fn inverting_twice_gives_the_positions_back() {
    let mut script = Funscript::new(vec![act(0, 0), act(10, 37), act(20, 100)]);
    let before = script.actions.clone();
    script.invert_positions();
    assert_eq!(script.actions, vec![act(0, 100), act(10, 63), act(20, 0)]);
    script.invert_positions();
    assert_eq!(script.actions, before);
}

#[test]
fn speeds_stay_within_the_limit_after_a_fix() {
    let mut script = Funscript::new(vec![act(0, 0), act(100, 100), act(200, 0), act(400, 100)]);
    assert_eq!(script.fix_speed_violations(milli(400.0)), 2);
    assert_eq!(script.actions, vec![act(0, 0), act(100, 40), act(200, 0), act(400, 80)]);
}

#[test]
fn a_script_without_moves_has_no_speeds_to_fix() {
    let mut script = Funscript::new(vec![act(5, 500)]);
    assert_eq!(script.fix_speed_violations(milli(400.0)), 0);
    assert_eq!(script.actions, vec![act(5, 500)]);
}

#[test]
fn an_empty_script_rests() {
    let script = Funscript::new(vec![]);
    assert_eq!(script.interpolate_position(10), PositionSample::Rest);
    assert!(script.step_spans().is_empty());
}

#[test]
fn a_keyframe_is_met_exactly() {
    let script = Funscript::new(vec![act(0, 0), act(500, 70), act(1000, 100)]);
    assert_eq!(script.interpolate_position(500), PositionSample::Hold(70));
    assert_eq!(
        script.interpolate_position(600),
        PositionSample::Between { prev: act(500, 70), next: act(1000, 100) }
    );
}

#[test]
fn an_infill_without_a_range_changes_nothing() {
    let mut script = Funscript::new(vec![act(0, 1), act(50, 2)]);
    let before = script.actions.clone();
    let points = vec![act(10, 10)];
    script.infill_pattern(100, 100, true, &points);
    assert_eq!(script.actions, before);
    script.infill_pattern(0, 100, false, &points);
    assert_eq!(script.actions, before);
    script.infill_pattern(10, 100, true, &points);
    assert_eq!(script.actions, vec![act(0, 1), act(10, 10)]);
}

#[test]
fn ranges_and_bounds() {
    let s = vec![act(0, 1), act(10, 2), act(20, 3), act(30, 4)];
    assert_eq!(remove_range(&s, 10, 20), vec![act(0, 1), act(30, 4)]);
    assert_eq!(lower_bound(&s, 10), 1);
    assert_eq!(lower_bound(&s, 11), 2);
    assert_eq!(lower_bound(&s, 99), 4);
}

#[test]
fn every_kind_of_issue_is_found() {
    let script = Funscript::new(vec![
        act(0, 150),
        act(0, 50),
        act(10, 51),
        act(20, 90),
        act(600, 0),
    ]);
    let (report, _) = audit(&script, 450.0);
    assert_eq!(report.total_actions, 5);
    assert_eq!(report.timing_inversions_count, 1);
    assert_eq!(report.micro_jitter_count, 1);
    assert_eq!(report.speed_violations_count, 1);
    assert_eq!(report.max_pos, 150);
    assert_eq!(report.min_pos, 0);
    assert!(report.issues.iter().any(|i| matches!(i.severity, IssueSeverity::Error)));
    assert!(report.issues.iter().any(|i| matches!(i.severity, IssueSeverity::Warning)));
    assert!(report
        .issues
        .iter()
        .any(|i| i.description == "Position 150 is outside valid range [0, 100]"));
    assert!(report.issues.iter().any(|i| i.description
        == "Excessive hardware speed: 3900.0 units/s (delta 39 in 10ms)"));
}

#[test]
fn an_empty_script_is_an_issue() {
    let (report, _) = audit(&Funscript::new(vec![]), 450.0);
    assert_eq!(report.total_actions, 0);
    assert_eq!(report.issues.len(), 1);
    assert_eq!(report.issues[0].severity, IssueSeverity::Error);
    assert_eq!(report.issues[0].description, "Funscript contains zero actions.");
}

#[test]
fn axes_have_their_names() {
    let tcodes: Vec<&str> = AxisChannel::ALL.iter().map(|a| a.tcode_axis()).collect();
    assert_eq!(tcodes, vec!["L0", "L1", "L2", "R1", "R0", "R2", "V0"]);
    let suffixes: Vec<&str> = AxisChannel::ALL.iter().map(|a| a.file_suffix()).collect();
    assert_eq!(suffixes, vec!["", ".surge", ".sway", ".pitch", ".roll", ".twist", ".suction"]);
    assert_eq!(AxisChannel::Stroke.display_name(), "Stroke (L0)");
    for (i, axis) in AxisChannel::ALL.iter().enumerate() {
        assert_eq!(axis.index(), i);
        assert_eq!(AxisChannel::from_index(i), *axis);
    }
}

#[test]
fn companion_files_lead_back_to_their_stem() {
    assert_eq!(companion_name("clip", AxisChannel::Roll), "clip.roll.funscript");
    assert_eq!(companion_name("clip", AxisChannel::Stroke), "clip.funscript");
    assert_eq!(base_stem_of("clip.roll.funscript"), "clip");
    assert_eq!(base_stem_of("clip.funscript"), "clip");
    assert_eq!(base_stem_of("clip"), "clip");
    let (parent, stem) = extract_base_stem("clip.twist.funscript");
    assert_eq!(parent, "");
    assert_eq!(stem, "clip");
}

#[test]
fn a_saved_bundle_can_be_loaded() {
    let mut bundle = MultiAxisScript::new();
    bundle.insert(AxisChannel::Stroke, Funscript::new(vec![act(0, 1)]));
    bundle.insert(AxisChannel::Roll, Funscript::new(vec![act(5, 50)]));
    bundle.insert(AxisChannel::Twist, Funscript::new(vec![]));
    let files = bundle.save_bundle("clip");
    let names: Vec<&str> = files.iter().map(|(n, _)| n.as_str()).collect();
    assert_eq!(names, vec!["clip.funscript", "clip.roll.funscript"]);

    let mut loaded: Vec<Option<Funscript>> = Vec::new();
    for axis in AxisChannel::ALL {
        let name = companion_name("clip", axis);
        loaded.push(files.iter().find(|(n, _)| *n == name).map(|(_, s)| s.clone()));
    }
    let again = MultiAxisScript::load_bundle(loaded);
    assert_eq!(again.get(AxisChannel::Stroke).unwrap().actions, vec![act(0, 1)]);
    assert_eq!(again.get(AxisChannel::Roll).unwrap().actions, vec![act(5, 50)]);
    assert!(again.get(AxisChannel::Twist).is_none());
    assert_eq!(again.channels(), vec![AxisChannel::Stroke, AxisChannel::Roll]);
}

#[test]
fn a_bundle_always_has_a_stroke() {
    let bundle = MultiAxisScript::load_bundle(vec![None, None, None, None, None, None, None]);
    assert!(bundle.get(AxisChannel::Stroke).unwrap().actions.is_empty());
    assert_eq!(bundle.active_channels(), Vec::new());
    let mut bundle = MultiAxisScript::new();
    bundle.get_or_create(AxisChannel::Sway).actions.push(act(1, 2));
    assert_eq!(bundle.active_channels(), vec![AxisChannel::Sway]);
}

#[test]
fn history_is_bounded_and_forgets_the_future() {
    let mut history = UndoHistory::new(1);
    let mut script = Funscript::new(vec![]);
    for i in 0..9 {
        history.push_snapshot(&script);
        script.actions.push(act(i, 0));
    }
    let mut steps = 0;
    while history.undo(&mut script) {
        steps += 1;
    }
    assert_eq!(steps, 5);
    assert_eq!(script.actions.len(), 4);
    assert!(history.redo(&mut script));
    history.push_snapshot(&script);
    assert!(!history.can_redo());
    history.clear();
    assert!(!history.can_undo());
}

#[test]
fn a_copy_keeps_the_metadata() {
    let mut script = Funscript::new(vec![act(0, 0)]);
    script.metadata = Some(Metadata { creator: Some("me".to_string()), ..Metadata::default() });
    let copy = script.clone();
    assert_eq!(copy.metadata.unwrap().creator, Some("me".to_string()));
    assert_eq!(copy.version, "1.0");
}

#[test]
fn stems_of_paths_of_every_shape() {
    let of = |path: &str| extract_base_stem(path);
    assert_eq!(of("clip.twist.funscript"), ("".to_string(), "clip".to_string()));
    assert_eq!(of("/clip.funscript"), ("/".to_string(), "clip".to_string()));
    assert_eq!(of("../my.videos/clip.mp4"), ("../my.videos".to_string(), "clip".to_string()));
}

#[test]
fn a_fixed_script_is_never_too_fast() {
    // In 33 ms there is time for 14.85 units: 14, and not 15.
    let mut script = Funscript::new(vec![act(0, 0), act(33, 60), act(66, 0), act(5000, 100)]);
    assert_eq!(script.fix_speed_violations(milli(450.0)), 1);
    assert_eq!(script.actions, vec![act(0, 0), act(33, 14), act(66, 0), act(5000, 100)]);
    let (report, _) = audit(&script, 450.0);
    assert_eq!(report.speed_violations_count, 0);
    assert!(is_too_fast(15, 33, milli(450.0)) && !is_too_fast(14, 33, milli(450.0)));
    assert!(!is_too_fast(45, 100, milli(450.0)) && is_too_fast(46, 100, milli(450.0)));
    assert!(!is_too_fast(1, 8, milli(125.5)) && is_too_fast(1, 8, milli(124.5)));
}

#[test]
fn a_sanitized_script_audits_without_errors() {
    let mut script = Funscript::new(vec![act(300, 140), act(100, -20), act(300, 50), act(200, 9)]);
    let (before, _) = audit(&script, 450.0);
    assert!(before.timing_inversions_count > 0);
    script.sanitize();
    let (report, _) = audit(&script, 450.0);
    assert_eq!(report.timing_inversions_count, 0);
    assert_eq!((report.min_pos, report.max_pos, report.total_actions), (0, 50, 3));
    assert!(report.issues.iter().all(|i| i.severity != IssueSeverity::Error));
}

#[test]
fn as_many_undos_succeed_as_the_depth_has_room_for() {
    let state = |n: i32| Funscript::new(vec![act(0, n)]);
    for (depth, pushed, expected) in [(3, 4, 4), (3, 9, 5), (6, 9, 6), (50, 0, 0)] {
        let mut h = UndoHistory::new(depth);
        for n in 1..=pushed {
            h.push_snapshot(&state(n));
        }
        let mut current = state(100);
        for k in 1..=expected {
            assert!(h.undo(&mut current));
            assert_eq!(current, state(pushed - k + 1));
        }
        assert!(!h.undo(&mut current));
    }
}

#[test]
fn companion_files_lead_back_to_one_base() {
    for dir in ["/data/my.clips", "..", "/", ""] {
        for axis in AxisChannel::ALL {
            let name = companion_name("a scene", axis);
            let path = if dir.is_empty() || dir == "/" {
                format!("{dir}{name}")
            } else {
                format!("{dir}/{name}")
            };
            assert_eq!(extract_base_stem(&path), (dir.to_string(), "a scene".to_string()));
        }
    }
}

#[test]
fn directories_lead_back_however_they_are_written() {
    let (dir, stem) = extract_base_stem("/data//./clips/a: b.pitch.funscript");
    assert_eq!(stem, "a: b");
    assert_eq!(std::path::Path::new(&dir), std::path::Path::new("/data/clips"));
    assert_eq!(extract_base_stem(""), (".".to_string(), "".to_string()));
    assert_eq!(extract_base_stem("/"), (".".to_string(), "".to_string()));
    assert_eq!(extract_base_stem("a/..").1, "");
}
