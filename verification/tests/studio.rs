//! The editor and the tools around it.
use pulsar::axis::{AxisChannel, MultiAxisScript};
use pulsar::editor::{hit_range, visible_range, EditOutcome, Editor, PlaybackCue};
use pulsar::frames::{frame_response, newest_request, FrameState, VideoFrameRequest};
use pulsar::funscript::{Action, Funscript, InfillPattern, PositionSample};
use pulsar::generation::{
    assemble_bundle, frame_side, list_generated_axes, plan_save, pov_center, progress_due,
    progress_status, uses_poses, SavePlan,
};
use pulsar::level::Level;
use pulsar::recorder::{find_turning_points, rdp_simplify, LiveRecorderState, RawSample};
use pulsar::scene::{
    apply_headset, loop_in_label, loop_out_label, repaint_plan, status_line, Generation,
    GenerationEnd, HeadsetStep, Reading, Repaint, StatusLine, VrSyncMessage, WorkerMessage,
};
use pulsar::scurve::{curve_sample_times, CurveSample, SCurvePreset};
use pulsar::shortcuts::{handle_shortcuts, Command, HubTab, Keys};
use pulsar::studio::split_range;

fn act(at: i64, pos: i32) -> Action {
    Action { at, pos }
}

fn editor(actions: Vec<Action>) -> Editor {
    let mut e = Editor::new();
    e.script = Funscript::new(actions);
    e
}

fn said(outcome: &EditOutcome) -> &str {
    outcome.status.as_deref().unwrap_or("")
}

fn level(x: f64) -> Level {
    if x == 0.0 {
        return Level::new(0);
    }
    let bits = x.to_bits() as i64;
    Level::new(if bits < 0 { -(bits & 0x7fff_ffff_ffff_ffff) } else { bits })
}

fn unlevel(l: Level) -> f64 {
    if l.key < 0 {
        -f64::from_bits((-l.key) as u64)
    } else {
        f64::from_bits(l.key as u64)
    }
}

/// How far a sample lies from the line through two others.
fn distance(p: RawSample, a: RawSample, b: RawSample) -> Level {
    let at = |s: RawSample| (s.at as f64 / 100.0, unlevel(s.level));
    let ((px, py), (ax, ay), (bx, by)) = (at(p), at(a), at(b));
    let (dx, dy) = (bx - ax, by - ay);
    let mag = (dx * dx + dy * dy).sqrt();
    if mag < 1e-9 {
        return level(((px - ax).powi(2) + (py - ay).powi(2)).sqrt());
    }
    level((dy * px - dx * py + bx * ay - by * ax).abs() / mag)
}

fn record(rec: &mut LiveRecorderState, t: i64, pos: f64) {
    let p = pos.clamp(0.0, 100.0);
    rec.sample(t, level(p), p.round() as i32);
}

fn recorder() -> LiveRecorderState {
    LiveRecorderState::new(level(50.0))
}

#[test]
fn test_recorder_initial_state() {
    let rec = recorder();
    assert!(!rec.is_armed);
    assert!(!rec.is_recording_active);
    assert_eq!(unlevel(rec.live_level), 50.0);
    assert_eq!(rec.live_pos, 50);
}

#[test]
fn test_recorder_arm_toggle() {
    let mut rec = recorder();
    assert!(rec.toggle_armed());
    assert!(rec.is_armed);
    assert!(!rec.toggle_armed());
    assert!(!rec.is_armed);
}

#[test]
fn test_recorder_take_lifecycle_and_extrema() {
    let mut rec = recorder();
    rec.arm();
    rec.start_take(0);
    record(&mut rec, 0, 20.0);
    record(&mut rec, 250, 40.0);
    record(&mut rec, 500, 80.0);
    record(&mut rec, 750, 50.0);
    record(&mut rec, 1000, 10.0);
    record(&mut rec, 1250, 60.0);
    record(&mut rec, 1500, 90.0);

    let far = |a: Level, b: Level| (unlevel(a) - unlevel(b)).abs() >= 3.0;
    let (start, end, actions) = rec
        .finish_take(&far, &distance, level(0.0), level(2.5))
        .expect("Take should produce actions");
    assert_eq!(start, 0);
    assert_eq!(end, 1500);
    assert!(!actions.is_empty());

    let positions: Vec<i32> = actions.iter().map(|a| a.pos).collect();
    assert!(positions.iter().any(|&p| p >= 75), "Should capture upper stroke");
    assert!(positions.iter().any(|&p| p <= 25), "Should capture lower stroke");
}

#[test]
fn test_splice_take_into_script() {
    let mut script = Funscript::new(vec![act(0, 50), act(1000, 50), act(2000, 50), act(3000, 50)]);
    let take = vec![act(1000, 90), act(1500, 10), act(2000, 95)];
    LiveRecorderState::splice_take_into_script(&mut script, 1000, 2000, &take);
    assert_eq!(script.actions[0], act(0, 50));
    assert_eq!(script.actions.last().unwrap(), &act(3000, 50));
    assert!(script.actions.iter().any(|a| a.at == 1500 && a.pos == 10));
}

#[test]
fn test_rdp_straight_line_reduction() {
    let straight: Vec<RawSample> = (0..=10)
        .map(|i| RawSample { at: i * 100, level: level(i as f64 * 2.0), pos: 0 })
        .collect();
    let kept = rdp_simplify(&straight, 0, 10, &distance, level(0.0), level(0.1));
    assert_eq!(kept.len(), 2);
    let point = |i: usize| (straight[i].at as f64 / 100.0, unlevel(straight[i].level));
    assert_eq!(point(kept[0]), (0.0, 0.0));
    assert_eq!(point(kept[1]), (10.0, 20.0));
}

#[test]
fn a_corner_is_kept() {
    let bent: Vec<RawSample> = (0..=10)
        .map(|i: i64| {
            let v = if i <= 5 { i } else { 10 - i };
            RawSample { at: i * 100, level: level(v as f64), pos: v as i32 }
        })
        .collect();
    assert_eq!(rdp_simplify(&bent, 0, 10, &distance, level(0.0), level(0.1)), vec![0, 5, 10]);
    let far = |a: Level, b: Level| (unlevel(a) - unlevel(b)).abs() >= 2.0;
    assert_eq!(find_turning_points(&bent, &far), vec![0, 5, 10]);
}

#[test]
fn a_take_spans_its_samples() {
    let mut rec = recorder();
    rec.start_take(100);
    record(&mut rec, 110, 51.0);
    assert_eq!(rec.raw_samples.len(), 1);
    record(&mut rec, 125, 60.0);
    record(&mut rec, 90, 55.0);
    assert_eq!(rec.raw_samples.len(), 3);
    let far = |a: Level, b: Level| (unlevel(a) - unlevel(b)).abs() >= 3.0;
    let (start, end, actions) =
        rec.finish_take(&far, &distance, level(0.0), level(2.5)).unwrap();
    assert_eq!((start, end), (90, 125));
    assert_eq!(actions.first().unwrap().at, 90);
    assert_eq!(actions.last().unwrap().at, 125);
    assert!(rec.finish_take(&far, &distance, level(0.0), level(2.5)).is_none());
}

#[test]
fn a_single_sample_is_a_keyframe() {
    let far = |_: Level, _: Level| true;
    let one = vec![RawSample { at: 7, level: level(3.0), pos: 3 }];
    assert_eq!(
        LiveRecorderState::simplify_samples(&one, &far, &distance, level(0.0), level(1.0)),
        vec![act(7, 3)]
    );
    assert!(LiveRecorderState::simplify_samples(&vec![], &far, &distance, level(0.0), level(1.0))
        .is_empty());
    let mut script = Funscript::new(vec![act(5, 5)]);
    LiveRecorderState::splice_take_into_script(&mut script, 0, 9, &vec![]);
    assert_eq!(script.actions, vec![act(5, 5)]);
}

#[test]
fn every_edit_can_be_undone() {
    let start = vec![act(0, 0), act(100, 40), act(105, 41), act(200, 100)];
    let mut e = editor(start.clone());
    assert_eq!(
        said(&e.repair_all()),
        "Safe Auto-Repair complete: clamped 1 speeds, removed 1 jitters, deduplicated 0 points"
    );
    assert_ne!(e.script.actions, start);
    e.perform_undo();
    assert_eq!(e.script.actions, start);
    e.timeline.select_single(1);
    assert_eq!(said(&e.delete_selected_keyframes()), "Deleted 1 keyframe(s)");
    assert_eq!(e.script.actions.len(), 3);
    assert_eq!(said(&e.perform_undo()), "Undid last action (Ctrl+Z)");
    assert_eq!(e.script.actions, start);
    e.perform_redo();
    assert_eq!(e.script.actions.len(), 3);
}

#[test]
fn repairs_say_what_they_did() {
    let mut e = editor(vec![act(0, 0), act(100, 100), act(100, 90)]);
    assert_eq!(said(&e.repair_order()), "Deduplicated 1 redundant actions");
    assert_eq!(said(&e.repair_speeds()), "Clamped 1 speed violations to safe limits");
    assert_eq!(e.script.actions, vec![act(0, 0), act(100, 45)]);
    assert_eq!(said(&e.repair_jitters()), "Removed 0 micro-jitter keyframes");
}

#[test]
fn selections_are_transformed() {
    let mut e = editor(vec![act(0, 10), act(100, 20), act(200, 30)]);
    e.timeline.select_single(1);
    assert_eq!(said(&e.invert_selection()), "Inverted 1 selected keyframe(s)");
    assert_eq!(e.script.actions[1].pos, 80);
    assert_eq!(said(&e.shift_selection_time(50)), "Shifted 1 keyframe(s) by +50ms");
    assert_eq!(e.script.actions[1].at, 150);
    assert_eq!(said(&e.nudge_selection(true, 5)), "Nudged 1 keyframe(s) Up (±5)");
    assert_eq!(e.script.actions[1].pos, 85);
    let beats = vec![None, Some(160), None];
    e.snap_selected_to_beats(true, &beats);
    assert_eq!(e.script.actions[1].at, 160);
    assert!(said(&e.snap_selected_to_beats(false, &vec![])).starts_with("Beat snap"));
    e.timeline.clear_selection();
    assert_eq!(said(&e.invert_selection()), "Inverted all 3 keyframe(s)");
    assert_eq!(e.script.actions[0].pos, 90);
    e.scale_selection(&vec![1, 2, 3], "0.80", "50");
    assert_eq!(e.script.actions[2].pos, 3);
}

#[test]
fn whole_channels_are_transformed() {
    let mut e = editor(vec![act(0, 10), act(100, 90)]);
    assert_eq!(said(&e.invert_all("Inverted channel positions")), "Inverted channel positions");
    assert_eq!(e.script.actions[0].pos, 90);
    e.scale_all(&vec![120, 5], "Scaled amplitude up 10%");
    assert_eq!(e.script.actions, vec![act(0, 100), act(100, 5)]);
    e.timeline.select_single(0);
    assert_eq!(said(&e.delete_inspected("Deleted keyframe")), "Deleted keyframe");
    assert_eq!(e.script.actions, vec![act(100, 5)]);
    assert!(e.delete_inspected("Deleted keyframe").status.is_none());
}

#[test]
fn a_range_is_filled_in() {
    let mut e = editor(vec![act(0, 10), act(500, 20), act(900, 30)]);
    let o = e.infill(InfillPattern::Sine, 400, 600, true, &vec![act(450, 1), act(550, 2)]);
    assert_eq!(said(&o), "Generated Sine infill on Stroke (L0) (400ms - 600ms)");
    assert_eq!(
        e.script.actions,
        vec![act(0, 10), act(450, 1), act(550, 2), act(900, 30)]
    );
}

#[test]
fn smoothing_is_applied_for_good() {
    let mut e = editor(vec![act(0, 10), act(200, 90), act(400, 10)]);
    let none = e.apply_smoothing(SCurvePreset::Off, &vec![]);
    assert_eq!(said(&none), "S-curve filter is set to Off (raw linear)");
    let n = curve_sample_times(&e.script, 35).len();
    let o = e.apply_smoothing(SCurvePreset::Balanced, &vec![50; n]);
    assert_eq!(
        said(&o),
        "Applied Balanced (±35ms Blend) S-curve smoothing (densified from 3 to 10 actions)"
    );
    assert_eq!(e.script.actions.len(), 10);
}

#[test]
fn plugins_work_on_a_range() {
    let s = vec![act(0, 1), act(100, 2), act(200, 3), act(300, 4)];
    let (before, inside, after) = split_range(&s, 100, 200);
    assert_eq!((before.len(), inside.len(), after.len()), (1, 2, 1));
    let mut e = editor(s.clone());
    let input = e.plugin_input(Some((100, 200))).unwrap();
    assert_eq!(input, vec![act(100, 2), act(200, 3)]);
    let o = e.apply_current_plugin(Some((100, 200)), "Smooth", Ok(input));
    assert_eq!(said(&o), "Applied plugin 'Smooth' to viewport range (100ms - 200ms)");
    assert_eq!(e.script.actions, s);
    let o = e.apply_current_plugin(None, "Cut", Ok(vec![act(5, 500)]));
    assert_eq!(said(&o), "Applied plugin 'Cut' across 1 actions");
    assert_eq!(e.script.actions, vec![act(5, 100)]);
    let o = e.apply_current_plugin(None, "Cut", Err("boom".to_string()));
    assert_eq!(said(&o), "Plugin execution failed: boom");
    let none = e.plugin_input(Some((100, 200))).unwrap_err();
    assert_eq!(said(&none), "No keyframes inside current viewport range to transform.");
}

#[test]
fn sound_fills_an_axis() {
    let mut e = editor(vec![act(0, 1), act(5000, 2)]);
    assert_eq!(e.synthesis_range(true, 9000), (0, 9000));
    e.timeline.set_loop_in(1000);
    e.timeline.set_loop_out(2000);
    assert_eq!(e.synthesis_range(true, 9000), (1000, 2000));
    assert_eq!(e.synthesis_range(false, 100), (0, 5000));
    let o = e.apply_synthesis(AxisChannel::Twist, (0, 10), &vec![act(3, 4)]);
    assert_eq!(said(&o), "⚡ Synthesized 1 actions for Twist (R2) (0ms - 10ms)");
    assert_eq!(e.multi_axis.get(AxisChannel::Twist).unwrap().actions, vec![act(3, 4)]);
    assert_eq!(e.script.actions.len(), 2);
    e.apply_synthesis(AxisChannel::Stroke, (0, 10), &vec![act(3, 4)]);
    assert_eq!(e.script.actions, vec![act(3, 4), act(5000, 2)]);
    assert_eq!(e.multi_axis.get(AxisChannel::Stroke).unwrap().actions, e.script.actions);
    let none = e.apply_synthesis(AxisChannel::Stroke, (0, 10), &vec![]);
    assert!(said(&none).starts_with("No actions synthesized"));
}

fn small_bundle() -> MultiAxisScript {
    let mut b = MultiAxisScript::new();
    b.insert(AxisChannel::Stroke, Funscript::new(vec![act(1, 2)]));
    b.insert(AxisChannel::Roll, Funscript::new(vec![act(3, 4)]));
    b
}

#[test]
fn bundles_are_taken_over() {
    let mut e = editor(vec![act(9, 9)]);
    let o = e.apply_companion_bundle(small_bundle());
    assert!(said(&o).contains("(2 channels)"));
    assert_eq!(e.script.actions, vec![act(1, 2)]);
    e.perform_undo();
    assert_eq!(e.script.actions, vec![act(9, 9)]);
    let o = e.open_bundle(small_bundle(), "/a.funscript");
    assert_eq!(said(&o), "Loaded multi-axis bundle (2 active channels) from /a.funscript");
    assert!(!e.history.can_undo());
    e.script.actions.push(act(7, 7));
    e.commit_active();
    assert_eq!(e.multi_axis.get(AxisChannel::Stroke).unwrap().actions.len(), 2);
}

#[test]
fn axes_are_switched() {
    let mut e = editor(vec![act(9, 9)]);
    assert_eq!(said(&e.switch_axis(AxisChannel::Roll)), "Switched active channel to Roll (R0)");
    assert!(e.script.actions.is_empty());
    assert!(e.switch_axis(AxisChannel::Roll).status.is_none());
    e.switch_axis(AxisChannel::Stroke);
    assert_eq!(e.script.actions, vec![act(9, 9)]);
}

#[test]
fn keyframes_are_placed_and_dragged() {
    let mut e = editor(vec![act(0, 10), act(1000, 20)]);
    e.insert_keyframe(500, 130);
    assert_eq!(e.script.actions[1], act(500, 100));
    assert_eq!(e.timeline.selected_index, Some(1));
    e.drag_started(Some(1), false);
    e.drag_points(600, 60, None);
    e.drag_stopped();
    assert_eq!(e.script.actions[1], act(600, 60));
    e.delete_hit(1);
    assert_eq!(e.script.actions, vec![act(0, 10), act(1000, 20)]);
    assert_eq!(hit_range(&e.script.actions, 990, 20), (1, 2));
    e.click(Some(0), false, 0);
    assert!(e.timeline.is_selected(0));
    e.drag_started(None, true);
    e.drag_marquee(&vec![0, 1]);
    e.drag_stopped();
    assert_eq!(e.selection_count(), 2);
}

#[test]
fn the_playhead_moves() {
    let mut e = editor(vec![act(0, 10), act(1000, 20)]);
    assert_eq!(e.duration_ms(), 1000);
    e.seek_to(-5);
    assert_eq!(e.timeline.cursor_time_ms, 0);
    e.step_forward(400);
    e.step_forward(4000);
    assert_eq!(e.timeline.cursor_time_ms, 4000);
    e.step_back(9000);
    assert_eq!(e.timeline.cursor_time_ms, 0);
    assert_eq!(e.advance(600), PlaybackCue::GoOn);
    assert_eq!(e.advance(600), PlaybackCue::Restart);
    assert_eq!(e.timeline.cursor_time_ms, 0);
    e.timeline.set_loop_in(100);
    e.timeline.set_loop_out(200);
    assert_eq!(e.advance(250), PlaybackCue::Loop(100));
    assert_eq!(e.timeline.cursor_time_ms, 100);
}

#[test]
fn every_driven_axis_is_read() {
    let mut e = editor(vec![]);
    let rest = e.evaluate_current_positions(SCurvePreset::Off);
    assert_eq!(rest.len(), 1);
    assert_eq!(rest[0].reading, Reading::Rest);
    e.multi_axis.insert(AxisChannel::Roll, Funscript::new(vec![act(0, 30)]));
    e.script.actions.push(act(0, 70));
    let read = e.evaluate_current_positions(SCurvePreset::Off);
    assert_eq!(read[0].axis, AxisChannel::Stroke);
    assert!(read[0].attenuated);
    assert_eq!(read[0].reading, Reading::Linear(PositionSample::Hold(70)));
    assert_eq!(read[1].axis, AxisChannel::Roll);
    assert!(!read[1].attenuated);
    let smooth = e.evaluate_current_positions(SCurvePreset::Balanced);
    assert_eq!(smooth[1].reading, Reading::Curve(CurveSample::Hold(30)));
    assert_eq!(e.ghost_axes(true), vec![AxisChannel::Roll]);
    assert!(e.ghost_axes(false).is_empty());
    assert_eq!(e.axis_button(AxisChannel::Stroke), (1, "● L0 (1)".to_string()));
    assert_eq!(e.axis_button(AxisChannel::Roll), (1, "○ R0 (1)".to_string()));
    assert_eq!(e.axis_button(AxisChannel::Sway), (0, "○ L2 (0)".to_string()));
}

#[test]
fn loop_buttons_show_the_loop() {
    assert_eq!(loop_in_label(None), "⟪ Set In ([)");
    assert_eq!(loop_in_label(Some(-5)), "⟪ In: -5ms ([)");
    assert_eq!(loop_out_label(None), "Set Out (]) ⟫");
    assert_eq!(loop_out_label(Some(70)), "Out: 70ms (]) ⟫");
}

#[test]
fn a_generation_ends_in_the_editor() {
    let mut e = editor(vec![act(9, 9)]);
    let mut g = Generation { is_generating: false, progress_bits: 7, status: String::new() };
    assert!(!g.start(false));
    assert!(g.start(true));
    assert_eq!(g.status, "Initializing generator...");
    let p = WorkerMessage::Progress { percent_bits: 3, status: progress_status(60) };
    assert!(matches!(g.apply(&mut e, p), GenerationEnd::Running));
    assert_eq!(g.status, "Processing frame 60");
    let failed = WorkerMessage::Done(Err("no frames".to_string()));
    assert!(matches!(g.apply(&mut e, failed), GenerationEnd::Failed));
    assert_eq!(g.status, "Error: no frames");
    assert!(!g.is_generating);
    match g.apply(&mut e, WorkerMessage::Done(Ok(small_bundle()))) {
        GenerationEnd::Loaded(text) => {
            assert_eq!(text, "Generated 2 axes! Loaded into Studio Editor.")
        }
        _ => panic!("not loaded"),
    }
    assert_eq!(g.status, "Generation Complete! (2 axes generated)");
    assert_eq!(e.script.actions, vec![act(1, 2)]);
}

#[test]
fn a_headset_drives_the_playhead() {
    let mut e = editor(vec![]);
    let mut playing = false;
    apply_headset(&mut e.timeline, &mut playing, VrSyncMessage::TimeUpdate { timestamp_ms: 5 });
    assert_eq!(e.timeline.cursor_time_ms, 5);
    let m = VrSyncMessage::PlayStateChange { is_playing: true };
    apply_headset(&mut e.timeline, &mut playing, m);
    assert!(playing);
    let bits = 1.5f64.to_bits();
    let m = VrSyncMessage::SpeedChange { speed_bits: bits };
    assert!(matches!(
        apply_headset(&mut e.timeline, &mut playing, m),
        HeadsetStep::SetSpeed(b) if b == bits
    ));
    let m = VrSyncMessage::VideoPath { path: "v".to_string() };
    assert!(matches!(
        apply_headset(&mut e.timeline, &mut playing, m),
        HeadsetStep::Say(s) if s == "VR Headset requested video: v"
    ));
}

#[test]
fn the_status_line_shows_what_matters() {
    assert_eq!(status_line(true, true, Some(0), true), StatusLine::Generating);
    assert_eq!(status_line(false, true, Some(0), true), StatusLine::BatchActive);
    assert_eq!(status_line(false, false, Some(5), true), StatusLine::Message);
    assert_eq!(status_line(false, false, Some(6), true), StatusLine::Nothing);
    assert_eq!(status_line(false, false, None, true), StatusLine::ScriptName);
    assert_eq!(status_line(false, false, None, false), StatusLine::Nothing);
    assert_eq!(repaint_plan(true, true, false), Repaint::AtOnce);
    assert_eq!(repaint_plan(false, true, false), Repaint::After(33));
    assert_eq!(repaint_plan(false, false, false), Repaint::WhenNeeded);
}

#[test]
fn generated_tracks_become_a_bundle() {
    assert_eq!(list_generated_axes(true, false), vec![AxisChannel::Stroke]);
    assert_eq!(list_generated_axes(true, true).len(), 7);
    let tracks: Vec<Vec<Action>> = (0..5).map(|i| vec![act(i, 500)]).collect();
    let bundle = assemble_bundle(false, true, tracks);
    assert_eq!(bundle.channels().len(), 5);
    assert_eq!(bundle.get(AxisChannel::Roll).unwrap().actions, vec![act(4, 100)]);
    assert_eq!(plan_save(&bundle, true), (SavePlan::Bundle, 1));
    assert_eq!(plan_save(&bundle, false), (SavePlan::Stroke, 1));
    assert_eq!(plan_save(&MultiAxisScript::new(), true), (SavePlan::Stroke, 0));
    assert_eq!(frame_side(true), 640);
    assert_eq!(frame_side(false), 256);
    assert_eq!(pov_center(256), (128, 255));
    assert!(progress_due(60) && !progress_due(61));
    assert!(uses_poses(true, 1) && !uses_poses(true, 0) && !uses_poses(false, 1));
}

#[test]
fn frames_are_asked_for_once() {
    let mut f = FrameState::new();
    assert!(f.needs_frame(-999));
    let req = f.request("v.mp4", 100).unwrap();
    assert_eq!((req.width, req.height, req.time_ms), (480, 270, 100));
    assert!(f.request("v.mp4", 134).is_none());
    assert!(f.request("v.mp4", 135).is_some());
    assert!(!f.responded(135));
    assert!(!f.needs_frame(154));
    assert!(f.needs_frame(155));
    f.streamed(160);
    assert_eq!(f.last_frame_ts, 160);
    for i in 0..30 {
        f.responded(i);
    }
    assert_eq!(f.cached.len(), 24);
    assert_eq!(f.cached[0], 6);
    f.reset();
    assert!(f.cached.is_empty());
    let make = |t| VideoFrameRequest { path: String::new(), time_ms: t, width: 1, height: 2 };
    let newest = newest_request(vec![make(1), make(2)]).unwrap();
    let reply = frame_response(&newest, vec![9]);
    assert_eq!((reply.time_ms, reply.height), (2, 2));
    assert!(newest_request(vec![]).is_none());
}

#[test]
fn keys_stand_for_commands() {
    assert!(handle_shortcuts(&Keys::none(), false).is_empty());
    let keys = Keys { ctrl: true, z: true, ..Keys::none() };
    assert_eq!(handle_shortcuts(&keys, false), vec![Command::Undo]);
    let keys = Keys { ctrl: true, shift: true, z: true, ..Keys::none() };
    assert_eq!(handle_shortcuts(&keys, false), vec![Command::Redo]);
    let keys = Keys { up: true, shift: true, ..Keys::none() };
    assert_eq!(handle_shortcuts(&keys, false), vec![Command::Nudge { up: true, step: 5 }]);
    assert!(handle_shortcuts(&keys, true).is_empty());
    let keys = Keys { f4: true, ..Keys::none() };
    assert_eq!(handle_shortcuts(&keys, true), vec![Command::ShowTab(HubTab::ScriptDoctor)]);
    let keys = Keys { space: true, ..Keys::none() };
    assert_eq!(handle_shortcuts(&keys, false), vec![Command::TogglePlayback]);
}

#[test]
fn a_view_shows_one_keyframe_beyond_either_side() {
    let actions: Vec<Action> = (0..6).map(|i| Action { at: i * 100, pos: 50 }).collect();
    assert_eq!(visible_range(&actions, 150, 350), (1, 5));
    assert_eq!(visible_range(&actions, 200, 300), (1, 5));
    assert_eq!(visible_range(&actions, -50, 600), (0, 6));
    assert_eq!(visible_range(&Vec::new(), 0, 100), (0, 0));
}

#[test]
fn a_disarmed_recorder_keeps_what_it_heard() {
    let mut rec = recorder();
    rec.arm();
    rec.start_take(400);
    assert!(rec.is_armed && rec.is_recording_active);
    rec.disarm();
    assert!(!rec.is_armed && !rec.is_recording_active);
    assert_eq!(rec.raw_samples.len(), 1);
}

#[test]
fn every_axis_has_a_color_of_its_own() {
    assert_eq!(AxisChannel::Stroke.color_rgb(), (0, 200, 255));
    assert_eq!(AxisChannel::Roll.color_rgb(), (255, 215, 0));
    assert_eq!(AxisChannel::Suction.color_rgb(), (255, 20, 147));
}

#[test]
fn dragging_an_empty_canvas_scrubs() {
    let mut e = editor(vec![act(0, 10), act(100, 20)]);
    e.drag_canvas(80);
    assert_eq!(e.timeline.cursor_time_ms, 80);
    e.drag_canvas(-5);
    assert_eq!(e.timeline.cursor_time_ms, 0);
    e.timeline.select_single(1);
    e.drag_canvas(80);
    assert_eq!(e.timeline.cursor_time_ms, 0);
}

#[test]
fn pointer_edits_keep_loop_and_bookmarks() {
    let mut e = editor(vec![act(0, 10), act(100, 20)]);
    e.timeline.set_loop_in(10);
    e.timeline.set_loop_out(90);
    e.timeline.add_bookmark(50, "b".to_string());
    e.click(Some(1), false, 100);
    e.insert_keyframe(60, 40);
    e.drag_started(Some(0), false);
    e.drag_stopped();
    assert_eq!((e.timeline.loop_in_ms, e.timeline.loop_out_ms), (Some(10), Some(90)));
    assert!(e.timeline.loop_enabled && e.timeline.bookmarks.len() == 1);
}
