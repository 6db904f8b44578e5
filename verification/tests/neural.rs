//! Detection, tracking and routing.
use pulsar::hypothesis::{
    evidence_tenths, EstimateSource, HypothesisEngine, ObservabilityState, ReconciledFrame,
};
use pulsar::level::Level;
use pulsar::models::{
    auto_detect_model, default_model_cache_dir, inspect_model, is_model_extension,
    model_registry, model_search_paths, plan_install, Download, DownloadStep, InstallPlan,
    InstallState, ModelInfo, ReadEvent, DEFAULT_MODEL_NAME, OFFICIAL_MODEL_URL,
};
use pulsar::pipeline::{AdaptiveMotionPipeline, AdaptiveProfile, FrameMeasures, SeedPlan};
use pulsar::point_tracker::{PointTrajectory, PointUpdate, TapPointTracker, TapTrackerConfig};
use pulsar::router::{
    ConfidenceMetrics, CoordBits, ExecutionBranch, FailureRouter, RouterConfig,
};
use pulsar::tracker::{
    find_landmarks, AnatomicalTracker, Detection, FrameEvidence, OcclusionState, PoseRule,
    Sighting,
};
use pulsar::yolo26::{
    assemble_instance_mask, decode_nms_free_detections, BoxFormat, DirectDetection,
    DirectTensorLayout, PixelRegion, TensorShape,
};

/// A whole number that orders as the float does.
fn level(x: f32) -> Level {
    if x == 0.0 {
        return Level::new(0);
    }
    let bits = x.to_bits() as i32;
    let key = if bits < 0 { -((bits & 0x7fff_ffff) as i64) } else { bits as i64 };
    Level::new(key)
}

fn unlevel(l: Level) -> f32 {
    if l.key < 0 {
        -f32::from_bits((-l.key) as u32)
    } else {
        f32::from_bits(l.key as u32)
    }
}

fn coord(x: f32, y: f32) -> CoordBits {
    CoordBits { x: x.to_bits(), y: y.to_bits() }
}

fn router_config() -> RouterConfig {
    RouterConfig::with_thresholds(level(0.06), level(0.15), level(0.40))
}

fn tap_config() -> TapTrackerConfig {
    TapTrackerConfig::with_thresholds(level(0.50), level(0.05))
}

fn metrics() -> ConfidenceMetrics {
    ConfidenceMetrics {
        forward_backward_error: level(0.0),
        acceleration_jerk: level(0.0),
        landmark_confidence: level(1.0),
        inside_hull: true,
        audio_transient_detected: false,
        frames_since_refresh: 0,
    }
}

fn measures() -> FrameMeasures {
    FrameMeasures {
        timestamp_ms: 0,
        smoothed: level(50.0),
        forward_backward_error: level(0.0),
        acceleration_jerk: level(0.0),
        landmark_confidence: level(1.0),
        inside_hull: true,
        audio_transient: false,
        is_scene_cut: false,
        direct_count: None,
        legacy_count: None,
    }
}

fn seed_box(tracker: &mut TapPointTracker, b: [f32; 4], tag: &str, count: usize) {
    let side = (count as f32).sqrt().ceil() as usize;
    let (w, h) = ((b[2] - b[0]).max(0.01), (b[3] - b[1]).max(0.01));
    let points: Vec<CoordBits> = TapPointTracker::seed_from_bbox(side, count)
        .iter()
        .map(|(gx, gy)| {
            coord(
                b[0] + w * ((*gx as f32 + 0.5) / side as f32),
                b[1] + h * ((*gy as f32 + 0.5) / side as f32),
            )
        })
        .collect();
    tracker.seed(&points, tag, level(1.0));
}

/// Moves every point by the flow where it stands; gives the mean move and the
/// spread of the moves.
fn step_points(
    tracker: &mut TapPointTracker,
    flow: impl Fn(f32, f32) -> (f32, f32),
    ts: i64,
) -> ((f32, f32), f32) {
    let mut moves = Vec::new();
    let mut updates = Vec::new();
    for t in &tracker.trajectories {
        let (x, y) = (f32::from_bits(t.current_pos.x), f32::from_bits(t.current_pos.y));
        let (du, dv) = flow(x, y);
        let (nx, ny) = ((x + du).clamp(0.0, 1.0), (y + dv).clamp(0.0, 1.0));
        moves.push((nx - x, ny - y));
        updates.push(PointUpdate { pos: coord(nx, ny), visibility: t.visibility });
    }
    tracker.step_frame(&updates, ts);
    let n = moves.len() as f32;
    let mx = moves.iter().map(|m| m.0).sum::<f32>() / n;
    let my = moves.iter().map(|m| m.1).sum::<f32>() / n;
    let spread = moves.iter().map(|m| (m.0 - mx).powi(2) + (m.1 - my).powi(2)).sum::<f32>() / n;
    ((mx, my), spread.sqrt())
}

fn names() -> Vec<String> {
    ["penis", "glans", "pussy", "butt", "anus", "breast", "navel", "hand", "face", "foot"]
        .iter()
        .map(|s| s.to_string())
        .collect()
}

fn decode(data: &[f32], shape: TensorShape, threshold: f32) -> Vec<DirectDetection> {
    let raw: Vec<Level> = data.iter().map(|x| level(*x)).collect();
    let probs: Vec<Level> = data
        .iter()
        .map(|x| {
            let p = if *x > 1.0 || *x < 0.0 { 1.0 / (1.0 + (-x).exp()) } else { *x };
            level(p)
        })
        .collect();
    decode_nms_free_detections(
        &raw,
        &probs,
        shape,
        level(threshold),
        level(0.0),
        level(1.0),
        &names(),
    )
}

fn detection(class_id: usize, confidence: f32) -> Detection {
    Detection { class_id, confidence: level(confidence) }
}

fn evidence(confidence: f32, audio: bool) -> FrameEvidence {
    FrameEvidence {
        forward_backward_error: level(0.0),
        acceleration_jerk: level(0.0),
        landmark_confidence: level(confidence),
        audio_transient: audio,
        is_scene_cut: false,
    }
}

fn reconcile(fp: f32, fv: f32, bp: f32, bv: f32, most: f32) -> (ReconciledFrame, f32, f32) {
    let diff = (fp - bp).abs();
    let total = 1.0 / fv.max(1e-4) + 1.0 / bv.max(1e-4);
    let fused = (fp / fv.max(1e-4) + bp / bv.max(1e-4)) / total;
    let sigma = (1.0 / total).sqrt();
    let frame = HypothesisEngine::reconcile_bidirectional(
        diff <= most,
        sigma < 8.0,
        fv < bv * 0.5,
        bv < fv * 0.5,
    );
    match frame.source {
        EstimateSource::Fused => (frame, fused, sigma),
        EstimateSource::Forward => (frame, fp, fv.sqrt()),
        EstimateSource::Backward => (frame, bp, bv.sqrt()),
        EstimateSource::Midpoint => {
            (frame, (fp + bp) * 0.5, ((fv + bv) * 2.0 + diff * diff).sqrt())
        }
    }
}

#[test]
fn test_bayesian_bidirectional_reconciliation_agreement() {
    let (reconciled, position, sigma) = reconcile(80.0, 16.0, 84.0, 16.0, 15.0);
    assert!((position - 82.0).abs() < 1e-3);
    assert!((sigma - (8.0f32).sqrt()).abs() < 1e-3);
    assert_eq!(reconciled.observability, ObservabilityState::Observed);
}

#[test]
fn test_bayesian_bidirectional_reconciliation_divergence_unresolved() {
    let (reconciled, _, sigma) = reconcile(20.0, 50.0, 80.0, 50.0, 20.0);
    assert_eq!(reconciled.observability, ObservabilityState::Unresolved);
    assert!(sigma > 30.0);
}

#[test]
fn test_hypothesis_tree_audio_transient_scoring() {
    let mut engine = HypothesisEngine::new();
    let (pos, vel) = (70.0f32, 2.0f32);
    engine.branch_occlusion_hypotheses(
        pos.to_bits(),
        (pos + vel * 10.0).clamp(0.0, 100.0).to_bits(),
        (pos - vel * 5.0).clamp(0.0, 100.0).to_bits(),
        100,
        (level(0.0), level(-0.5), level(-1.0)),
    );
    let best_initial = engine.select_best_hypothesis().unwrap();
    assert_eq!(engine.active_hypotheses[best_initial].label, "continuation");

    let scores: Vec<Level> = engine
        .active_hypotheses
        .iter()
        .map(|h| {
            let mut score = unlevel(h.log_likelihood);
            for tenths in evidence_tenths(&h.label, true, None) {
                score += tenths as f32 / 10.0;
            }
            level(score)
        })
        .collect();
    let grown: Vec<u32> = engine
        .active_hypotheses
        .iter()
        .map(|h| (f32::from_bits(h.variance_bits) + 2.0).to_bits())
        .collect();
    engine.update_evidence(133, true, &scores, &grown, 50.0f32.to_bits());
    let variances: Vec<f32> =
        engine.active_hypotheses.iter().map(|h| f32::from_bits(h.variance_bits)).collect();
    assert_eq!(variances, vec![27.0, 37.0, 47.0]);

    let best_after = engine.select_best_hypothesis().unwrap();
    assert_eq!(engine.active_hypotheses[best_after].label, "reversal");
    assert_eq!(engine.active_hypotheses[best_after].audio_alignment, 1);
    assert_eq!(engine.active_hypotheses[best_after].path.len(), 3);
}

#[test]
fn test_adaptive_pipeline_lifecycle_and_profile_switching() {
    let mut pipeline =
        AdaptiveMotionPipeline::new(AdaptiveProfile::GenericDefault, router_config(), tap_config(), level(50.0));
    assert_eq!(pipeline.profile, AdaptiveProfile::GenericDefault);
    assert_eq!(pipeline.router.config.refresh_cadence_k, 24);

    pipeline.set_profile(AdaptiveProfile::Economy);
    assert_eq!(pipeline.profile, AdaptiveProfile::Economy);
    assert_eq!(pipeline.router.config.refresh_cadence_k, 60);
    assert_eq!(pipeline.point_tracker.config.target_point_count, 32);
}

/// The stroke position that the tracked points give in a pipeline's first frame.
fn smoothed_stroke(pipeline: &AdaptiveMotionPipeline) -> f32 {
    let points = &pipeline.point_tracker.trajectories;
    let mean = |f: fn(&PointTrajectory) -> u32| {
        points.iter().map(|t| f32::from_bits(f(t))).sum::<f32>() / points.len() as f32
    };
    let (x, y) = (mean(|t| t.current_pos.x), mean(|t| t.current_pos.y));
    let raw = (y - 0.5).abs() + (x - 0.5).abs() * 0.5;
    let (least, most) = (0.05f32.min(raw).max(0.01), 0.35f32.max(raw));
    let stroke = ((raw - least) / (most - least).max(0.05) * 100.0).clamp(0.0, 100.0);
    unlevel(pipeline.last_position) * 0.4 + stroke * 0.6
}

#[test]
fn test_adaptive_pipeline_process_frame_fast_path() {
    let mut pipeline =
        AdaptiveMotionPipeline::new(AdaptiveProfile::Economy, router_config(), tap_config(), level(50.0));
    seed_box(&mut pipeline.point_tracker, [0.3, 0.3, 0.7, 0.7], "probe", 16);
    let smoothed = level(smoothed_stroke(&pipeline));
    let frame = FrameMeasures { timestamp_ms: 100, smoothed, ..measures() };
    let out = pipeline.process_frame(&frame, level(0.6));
    assert_eq!(out.timestamp_ms, 100);
    assert_eq!(out.branch, ExecutionBranch::FastTracking);
    assert_eq!(out.observability, ObservabilityState::Observed);
    let stroke_pos = unlevel(out.stroke_pos);
    assert!(stroke_pos >= 0.0 && stroke_pos <= 100.0);
    assert!(!out.unresolved);
}

#[test]
fn test_adaptive_pipeline_scene_cut_triggers_reacquisition() {
    let mut pipeline =
        AdaptiveMotionPipeline::new(AdaptiveProfile::GenericDefault, router_config(), tap_config(), level(50.0));
    let cut = FrameMeasures { is_scene_cut: true, ..measures() };
    let out = pipeline.process_frame(&cut, level(0.6));
    assert_eq!(out.branch, ExecutionBranch::SemanticReacquisition);
}

#[test]
fn test_adaptive_profile_parsing() {
    assert_eq!(AdaptiveProfile::parse_str("economy"), Some(AdaptiveProfile::Economy));
    assert_eq!(AdaptiveProfile::parse_str("specialist"), Some(AdaptiveProfile::BalancedSpecialist));
    assert_eq!(AdaptiveProfile::parse_str("default"), Some(AdaptiveProfile::GenericDefault));
    assert_eq!(AdaptiveProfile::parse_str("dense"), Some(AdaptiveProfile::DenseOffline));
    assert_eq!(AdaptiveProfile::parse_str("3d"), Some(AdaptiveProfile::GeometryHeavy3D));
    assert_eq!(AdaptiveProfile::parse_str("invalid"), None);
}

#[test]
fn test_point_tracker_seeding_from_bbox() {
    let mut tracker =
        TapPointTracker::new(TapTrackerConfig { target_point_count: 16, ..tap_config() });
    seed_box(&mut tracker, [0.2, 0.3, 0.6, 0.7], "probe", 16);
    assert_eq!(tracker.trajectories.len(), 16);
    for t in &tracker.trajectories {
        let (x, y) = (f32::from_bits(t.current_pos.x), f32::from_bits(t.current_pos.y));
        assert!(x >= 0.2 && x <= 0.6);
        assert!(y >= 0.3 && y <= 0.7);
        assert_eq!(t.tag, "probe");
        assert_eq!(t.visibility, level(1.0));
    }
}

#[test]
fn test_point_tracker_step_flow_propagation() {
    let mut tracker = TapPointTracker::new(tap_config());
    tracker.trajectories.push(PointTrajectory::new(0, coord(0.5, 0.5), "shaft", level(1.0)));
    let (bulk, _) = step_points(&mut tracker, |_, _| (0.0, 10.0 / 100.0), 100);
    assert_eq!(tracker.trajectories.len(), 1);
    let pt = &tracker.trajectories[0];
    assert!((f32::from_bits(pt.current_pos.x) - 0.5).abs() < 1e-3);
    assert!((f32::from_bits(pt.current_pos.y) - 0.6).abs() < 1e-3);
    assert!((bulk.1 - 0.1).abs() < 1e-3);
    assert_eq!(pt.history.len(), 1);
}

#[test]
fn test_point_tracker_surface_shear_detection() {
    let mut tracker = TapPointTracker::new(tap_config());
    tracker.trajectories.push(PointTrajectory::new(0, coord(0.4, 0.5), "left", level(1.0)));
    tracker.trajectories.push(PointTrajectory::new(1, coord(0.6, 0.5), "right", level(1.0)));
    let (bulk, shear) = step_points(
        &mut tracker,
        |x, _| if x < 0.5 { (0.0, -0.05) } else { (0.0, 0.05) },
        200,
    );
    assert!(bulk.1.abs() < 1e-4);
    assert!(shear > 0.04);
}

#[test]
fn test_tapnext_graceful_fallback() {
    let mut config = tap_config();
    config.use_neural = true;
    let mut tracker = TapPointTracker::new(config);
    tracker.trajectories.push(PointTrajectory::new(0, coord(0.5, 0.5), "test", level(1.0)));
    let (bulk, _) = step_points(&mut tracker, |_, _| (0.0, 10.0 / 100.0), 100);
    assert!((f32::from_bits(tracker.trajectories[0].current_pos.y) - 0.6).abs() < 1e-3);
    assert!((bulk.1 - 0.1).abs() < 1e-3);
}

#[test]
fn test_failure_router_defaults_to_fast_when_confident() {
    let mut router = FailureRouter::new(router_config());
    let m = ConfidenceMetrics {
        landmark_confidence: level(0.95),
        forward_backward_error: level(0.01),
        acceleration_jerk: level(0.02),
        inside_hull: true,
        frames_since_refresh: 5,
        ..metrics()
    };
    assert_eq!(router.route_frame(&m, false), ExecutionBranch::FastTracking);
}

#[test]
fn test_failure_router_detects_acceleration_jerk() {
    let mut router = FailureRouter::new(router_config());
    let m = ConfidenceMetrics {
        landmark_confidence: level(0.95),
        acceleration_jerk: level(0.35),
        inside_hull: true,
        ..metrics()
    };
    assert_eq!(router.route_frame(&m, false), ExecutionBranch::DenseRepair);
}

#[test]
fn test_failure_router_detects_forward_backward_inconsistency() {
    let mut router = FailureRouter::new(router_config());
    let m = ConfidenceMetrics {
        forward_backward_error: level(0.12),
        inside_hull: false,
        ..metrics()
    };
    assert_eq!(router.route_frame(&m, false), ExecutionBranch::SpecialistRefresh);
}

#[test]
fn test_failure_router_scene_cut_triggers_semantic_reacquisition() {
    let mut router = FailureRouter::new(router_config());
    assert_eq!(router.route_frame(&metrics(), true), ExecutionBranch::SemanticReacquisition);
}

#[test]
fn test_failure_router_refresh_cadence() {
    let mut router =
        FailureRouter::new(RouterConfig { refresh_cadence_k: 10, ..router_config() });
    let m = ConfidenceMetrics { frames_since_refresh: 10, ..metrics() };
    assert_eq!(router.route_frame(&m, false), ExecutionBranch::SpecialistRefresh);
}

/// The speed and the change of velocity at a new position.
fn move_to(router: &mut FailureRouter, x: f32, y: f32) -> (f32, f32) {
    let point = |c: Option<CoordBits>| c.map(|c| (f32::from_bits(c.x), f32::from_bits(c.y)));
    let last = point(router.last_position());
    let last_v = point(router.last_velocity());
    let v = match last {
        Some((px, py)) => (x - px, y - py),
        None => (0.0, 0.0),
    };
    let a = match last_v {
        Some((vx, vy)) => (v.0 - vx, v.1 - vy),
        None => (0.0, 0.0),
    };
    router.update_kinematics(coord(x, y), coord(v.0, v.1));
    ((v.0 * v.0 + v.1 * v.1).sqrt(), (a.0 * a.0 + a.1 * a.1).sqrt())
}

#[test]
fn test_kinematics_velocity_and_acceleration_update() {
    let mut router = FailureRouter::new(router_config());
    let (v1, a1) = move_to(&mut router, 0.5, 0.5);
    assert_eq!(v1, 0.0);
    assert_eq!(a1, 0.0);

    let (v2, a2) = move_to(&mut router, 0.5, 0.6);
    assert!((v2 - 0.1).abs() < 1e-4);
    assert!((a2 - 0.1).abs() < 1e-4);

    let (v3, a3) = move_to(&mut router, 0.5, 0.7);
    assert!((v3 - 0.1).abs() < 1e-4);
    assert!(a3 < 1e-4);
}

/// The stroke position that a pose rule gives, between distances of 0.05 and 0.35.
fn stroke(last: f32, rule: PoseRule, probe: (f32, f32), target: (f32, f32)) -> f32 {
    let (least, most) = (0.05f32, 0.35f32);
    let dist = match rule {
        PoseRule::HoldLast => return last,
        PoseRule::FromMinimum => least,
        PoseRule::FromDistance => (probe.0 - target.0).hypot(probe.1 - target.1),
    };
    let raw = ((most - dist) / (most - least) * 100.0).clamp(0.0, 100.0);
    last * 0.3 + raw * 0.7
}

#[test]
fn test_occlusion_inside_recovery() {
    let mut tracker = AnatomicalTracker::new(router_config());
    let both = find_landmarks(None, Some(&vec![detection(2, 0.95), detection(1, 0.95)]));
    assert_eq!((both.target, both.probe), (Some(0), Some(1)));
    tracker.track_landmarks(Sighting {
        probe_found: both.probe.is_some(),
        target_found: both.target.is_some(),
        has_flow: false,
        probe_inside_target: true,
    });
    let first = tracker.update_pose_adaptive(&evidence(0.95, false));
    assert_eq!(first.state, OcclusionState::Visible);
    assert_eq!(first.pose, PoseRule::FromDistance);
    let stroke1 = stroke(50.0, first.pose, (0.5, 0.5), (0.5, 0.5));
    assert!(stroke1 > 40.0);

    let alone = find_landmarks(None, Some(&vec![detection(2, 0.95)]));
    assert_eq!(alone.probe, None);
    tracker.track_landmarks(Sighting {
        probe_found: alone.probe.is_some(),
        target_found: alone.target.is_some(),
        has_flow: false,
        probe_inside_target: true,
    });
    let second = tracker.update_pose_adaptive(&evidence(0.95, false));
    assert_eq!(second.state, OcclusionState::OccludedInside);
    assert_eq!(second.pose, PoseRule::FromMinimum);
    let stroke2 = stroke(stroke1, second.pose, (0.5, 0.5), (0.5, 0.5));
    assert!(stroke2 > 40.0, "Occluded inside should maintain deep penetration");
}

#[test]
fn test_cross_modal_audio_grounding_in_adaptive_pose() {
    let mut tracker = AnatomicalTracker::new(router_config());
    let alone = find_landmarks(None, Some(&vec![detection(2, 0.95)]));
    tracker.track_landmarks(Sighting {
        probe_found: alone.probe.is_some(),
        target_found: alone.target.is_some(),
        has_flow: false,
        probe_inside_target: false,
    });
    let decision = tracker.update_pose_adaptive(&evidence(0.0, true));
    assert_eq!(decision.state, OcclusionState::Lost);
    assert_eq!(decision.observability, ObservabilityState::Inferred);
    assert_eq!(decision.branch, ExecutionBranch::SpecialistRefresh);
    assert_eq!(decision.pose, PoseRule::HoldLast);
}

#[test]
fn test_yolo26_nms_free_decoding_query_major() {
    let num_queries = 3;
    let num_classes = 10;
    let stride = 4 + num_classes;
    let mut data = vec![0.0f32; num_queries * stride];
    data[0] = 0.4;
    data[1] = 0.3;
    data[2] = 0.6;
    data[3] = 0.7;
    data[4] = 0.92;

    data[stride] = 0.1;
    data[stride + 1] = 0.1;
    data[stride + 2] = 0.3;
    data[stride + 3] = 0.3;
    data[stride + 4 + 2] = 0.15;

    let base2 = 2 * stride;
    data[base2] = 0.2;
    data[base2 + 1] = 0.2;
    data[base2 + 2] = 0.5;
    data[base2 + 3] = 0.5;
    data[base2 + 4 + 2] = 0.85;

    let shape = TensorShape {
        num_queries,
        num_classes,
        num_mask_coeffs: 0,
        layout: DirectTensorLayout::QueryMajor,
    };
    let detections = decode(&data, shape, 0.30);

    assert_eq!(detections.len(), 2);
    assert_eq!(detections[0].class_id, 0);
    assert_eq!(detections[0].class_name, "penis");
    assert!((unlevel(detections[0].confidence) - 0.92).abs() < 1e-4);
    assert_eq!(detections[0].box_format, BoxFormat::Corners);
    let bbox: Vec<f32> = detections[0].box_slots.iter().map(|s| data[*s]).collect();
    assert_eq!(bbox, vec![0.4, 0.3, 0.6, 0.7]);
    assert_eq!(((bbox[0] + bbox[2]) * 0.5, (bbox[1] + bbox[3]) * 0.5), (0.5, 0.5));

    assert_eq!(detections[1].class_id, 2);
    assert_eq!(detections[1].class_name, "pussy");
    assert!((unlevel(detections[1].confidence) - 0.85).abs() < 1e-4);
}

#[test]
fn test_yolo26_nms_free_decoding_channel_major() {
    let num_queries = 2;
    let num_classes = 4;
    let channels = 4 + num_classes;
    let mut data = vec![0.0f32; channels * num_queries];
    data[0] = 0.2;
    data[num_queries] = 0.2;
    data[2 * num_queries] = 0.4;
    data[3 * num_queries] = 0.4;
    data[(4 + 1) * num_queries] = 0.88;

    let shape = TensorShape {
        num_queries,
        num_classes,
        num_mask_coeffs: 0,
        layout: DirectTensorLayout::ChannelMajor,
    };
    let detections = decode(&data, shape, 0.50);
    assert_eq!(detections.len(), 1);
    assert_eq!(detections[0].class_id, 1);
    assert!((unlevel(detections[0].confidence) - 0.88).abs() < 1e-4);
}

#[test]
fn test_assemble_instance_mask_linear_combination() {
    let (w, h) = (4usize, 4usize);
    let coeffs = [1.0f32, -1.0];
    let mut protos = vec![0.0f32; 2 * w * h];
    for i in 0..16 {
        protos[i] = 2.0;
        protos[16 + i] = 1.0;
    }
    let region = PixelRegion { x1: 0, y1: 0, x2: 4, y2: 4 }.cropped(w, h);
    let mut activated = Vec::new();
    for y in region.y1..region.y2 {
        for x in region.x1..region.x2 {
            let sum: f32 = (0..2).map(|m| coeffs[m] * protos[m * 16 + y * w + x]).sum();
            activated.push((1.0 / (1.0 + (-sum).exp()) * 255.0) as u8);
        }
    }
    let mask = assemble_instance_mask(2, protos.len(), w, h, region, &activated);
    assert_eq!(mask.len(), 16);
    let expected_val = (0.7310586 * 255.0) as u8;
    assert!((mask[0] as i32 - expected_val as i32).abs() <= 1);
}

#[test]
fn test_search_paths_include_defaults() {
    let paths = model_search_paths(None, Some("/home/me"));
    assert!(!paths.is_empty());
    assert!(paths.iter().any(|p| p.last().map(|s| s.as_str()) == Some(DEFAULT_MODEL_NAME)));
}

#[test]
fn test_default_cache_dir() {
    let dir = default_model_cache_dir(None, Some("/home/me"));
    assert_eq!(dir, vec!["/home/me", ".cache", "pulsar", "models"]);
    let dir = default_model_cache_dir(Some("/cache"), None);
    assert_eq!(dir, vec!["/cache", "pulsar", "models"]);
    let dir = default_model_cache_dir(None, None);
    assert_eq!(dir[0], ".");
}

fn info(size: u64) -> Option<ModelInfo> {
    inspect_model("/m/x.onnx", true, Some(size), Some("x.onnx"))
}

#[test]
fn test_auto_detect_model_finds_fixture_or_cache() {
    let inspected = vec![None, info(10), info(2_000_000), info(3_000_000)];
    let found = auto_detect_model(&inspected).unwrap();
    assert_eq!(found, 2);
    let model = inspected[found].as_ref().unwrap();
    assert!(model.is_valid);
    assert!(model.size_bytes > 1_000_000);
    assert_eq!(auto_detect_model(&vec![None, info(1_000_000)]), None);
}

#[test]
fn search_paths_go_from_near_to_far() {
    let paths = model_search_paths(Some("/cache"), Some("/home/me"));
    assert_eq!(paths.len(), 7);
    assert_eq!(paths[0], vec!["/cache", "pulsar", "models", DEFAULT_MODEL_NAME]);
    assert_eq!(paths[1], vec!["/home/me", ".cache/fs-hub/models", DEFAULT_MODEL_NAME]);
    assert_eq!(paths[2], vec!["models", DEFAULT_MODEL_NAME]);
    assert_eq!(model_search_paths(None, None).len(), 3);
}

#[test]
fn a_model_file_is_inspected() {
    assert!(inspect_model("/m", false, Some(9), None).is_none());
    assert!(inspect_model("/m", true, None, None).is_none());
    let unnamed = inspect_model("/m", true, Some(9), None).unwrap();
    assert_eq!(unnamed.filename, "unknown.onnx");
    assert!(!unnamed.is_valid);
    assert!(is_model_extension(Some("onnx")));
    assert!(!is_model_extension(Some("ONNX")));
    assert!(!is_model_extension(None));
}

#[test]
fn installation_prefers_what_is_there() {
    let none: Option<ModelInfo> = None;
    assert_eq!(
        plan_install(&info(5_000_000), &vec![], &vec![]),
        InstallPlan::Present(5_000_000)
    );
    let inspected = vec![info(5_000_000), info(6_000_000)];
    assert_eq!(plan_install(&none, &inspected, &vec![true, false]), InstallPlan::Copy(1));
    assert_eq!(plan_install(&none, &inspected, &vec![true, true]), InstallPlan::Download);
}

#[test]
fn a_download_runs_to_its_end() {
    let mut download = Download::new(None);
    assert_eq!(download.total, 11_500_000);
    assert!(matches!(
        download.step(ReadEvent::Bytes(100)),
        DownloadStep::Write { downloaded: 100, total: 11_500_000 }
    ));
    assert!(matches!(download.step(ReadEvent::Interrupted), DownloadStep::Retry));
    assert!(matches!(download.step(ReadEvent::Bytes(0)), DownloadStep::Finish));
    match download.step(ReadEvent::Failed("gone".to_string())) {
        DownloadStep::Abort(text) => assert_eq!(text, "Download stream read error: gone"),
        _ => panic!("not aborted"),
    }
    assert_eq!(download.downloaded, 100);
}

#[test]
fn an_installation_is_reported() {
    let mut state = InstallState { in_progress: false, status: None, model_path: None };
    assert!(state.begin());
    assert!(!state.begin());
    assert_eq!(state.finish(Err("x".to_string())), "Model download error: x");
    assert_eq!(state.status, Some("Download failed: x".to_string()));
    assert!(state.begin());
    assert_eq!(state.finish(Ok("/m".to_string())), "Installed AI model to /m");
    assert_eq!(state.model_path, Some("/m".to_string()));
}

#[test]
fn five_models_are_registered() {
    let entries = model_registry();
    assert_eq!(entries.len(), 5);
    assert_eq!(entries[2].filename, DEFAULT_MODEL_NAME);
    assert_eq!(entries[2].download_url, OFFICIAL_MODEL_URL);
    assert_eq!(entries[4].size_estimate_tenths, 620);
    for e in &entries {
        assert_eq!(
            entries.iter().filter(|o| o.profile == e.profile).count(),
            1
        );
    }
}

#[test]
fn frames_without_landmarks_are_reacquired_in_the_end() {
    let mut router = FailureRouter::new(router_config());
    let lost = ConfidenceMetrics {
        landmark_confidence: level(0.1),
        inside_hull: false,
        ..metrics()
    };
    let mut seen = Vec::new();
    for _ in 0..60 {
        seen.push(router.route_frame(&lost, false));
    }
    assert!(seen.contains(&ExecutionBranch::SemanticReacquisition));
    assert_eq!(router.execution_stats().total_frames, 60);
    router.reset();
    assert_eq!(router.consecutive_lost_frames, 0);
}

#[test]
fn branches_have_badges() {
    assert!(ExecutionBranch::FastTracking.is_fast());
    assert!(!ExecutionBranch::DenseRepair.is_fast());
    assert_ne!(
        ExecutionBranch::FastTracking.badge_label(),
        ExecutionBranch::DenseRepair.badge_label()
    );
}

#[test]
fn a_profile_without_dense_repair_refreshes() {
    let jump = FrameMeasures {
        acceleration_jerk: level(0.35),
        direct_count: Some(1),
        ..measures()
    };
    let mut economy =
        AdaptiveMotionPipeline::new(AdaptiveProfile::Economy, router_config(), tap_config(), level(50.0));
    let plan = economy.process_frame(&jump, level(0.6));
    assert_eq!(plan.branch, ExecutionBranch::SpecialistRefresh);
    assert_eq!(plan.seed, SeedPlan::FirstDirect(16));
    let mut dense =
        AdaptiveMotionPipeline::new(AdaptiveProfile::DenseOffline, router_config(), tap_config(), level(50.0));
    assert_eq!(dense.process_frame(&jump, level(0.6)).branch, ExecutionBranch::DenseRepair);
    assert!(AdaptiveProfile::GeometryHeavy3D.uses_3d_geometry());
    assert_eq!(AdaptiveProfile::parse_str("ECONOMY"), Some(AdaptiveProfile::Economy));
}

#[test]
fn history_of_a_point_is_bounded() {
    let mut tracker = TapPointTracker::new(TapTrackerConfig { window_size: 3, ..tap_config() });
    tracker.trajectories.push(PointTrajectory::new(0, coord(0.5, 0.5), "p", level(1.0)));
    for i in 0..5 {
        step_points(&mut tracker, |_, _| (0.0, 0.0), i);
    }
    let times: Vec<i64> =
        tracker.trajectories[0].history.iter().map(|h| h.timestamp_ms).collect();
    assert_eq!(times, vec![2, 3, 4]);
}

#[test]
fn dead_points_are_pruned() {
    let mut tracker =
        TapPointTracker::new(TapTrackerConfig { target_point_count: 8, ..tap_config() });
    seed_box(&mut tracker, [0.0, 0.0, 1.0, 1.0], "p", 4);
    for t in tracker.trajectories.iter_mut().take(2) {
        t.visibility = level(0.05);
    }
    assert_eq!(tracker.prune_and_reseed(level(0.1), true), 6);
    assert_eq!(tracker.trajectories.len(), 2);
    assert_eq!(tracker.prune_and_reseed(level(0.1), false), 0);
    tracker.clear();
    assert_eq!(tracker.next_point_id, 0);
}

#[test]
fn bright_pixels_are_seeded_evenly() {
    let mut mask = vec![0u8; 64];
    for y in 0..8 {
        for x in 0..8 {
            if x < 4 {
                mask[y * 8 + x] = 200;
            }
        }
    }
    assert_eq!(
        TapPointTracker::seed_from_mask(&mask, 8, 8, 4),
        vec![(0, 0), (0, 2), (0, 4), (0, 6)]
    );
    assert!(TapPointTracker::seed_from_mask(&vec![0u8; 64], 8, 8, 4).is_empty());
}

#[test]
fn disordered_boxes_and_logits_are_recognized() {
    let shape = TensorShape {
        num_queries: 1,
        num_classes: 2,
        num_mask_coeffs: 1,
        layout: DirectTensorLayout::QueryMajor,
    };
    let logits = [0.5f32, 0.5, 3.0, 4.0, -2.0, 5.0, 0.7];
    let found = decode(&logits, shape, 0.5);
    assert_eq!(found.len(), 1);
    assert_eq!(found[0].class_id, 1);
    assert_eq!(found[0].box_format, BoxFormat::CenterSize);
    assert_eq!(found[0].mask_slots, Some(vec![6]));
    let crossed = [0.5f32, 0.5, 0.1, 0.4, 0.9, 0.0, 0.0];
    assert_eq!(decode(&crossed, shape, 0.5)[0].box_format, BoxFormat::Disordered);
    assert!(decode(&logits[..3], shape, 0.5).is_empty());
}

#[test]
fn a_mask_without_prototypes_is_empty() {
    let region = PixelRegion { x1: 0, y1: 0, x2: 2, y2: 2 };
    assert_eq!(assemble_instance_mask(3, 5, 2, 2, region, &vec![]), vec![0; 4]);
    let small = PixelRegion { x1: 1, y1: 0, x2: 9, y2: 1 }.cropped(2, 2);
    assert_eq!(assemble_instance_mask(1, 4, 2, 2, small, &vec![7]), vec![0, 7, 0, 0]);
}

#[test]
fn glans_comes_before_shaft() {
    let d = vec![detection(0, 0.99), detection(1, 0.2), detection(4, 0.3), detection(7, 0.5)];
    let found = find_landmarks(Some(&d), None);
    assert_eq!(found.probe, Some(1));
    assert_eq!(found.target, Some(3));
    let none = find_landmarks(None, None);
    assert_eq!((none.probe, none.target), (None, None));
}

#[test]
fn a_conflict_goes_to_the_clearer_side() {
    let (frame, position, _) = reconcile(20.0, 1.0, 80.0, 50.0, 20.0);
    assert_eq!(frame.source, EstimateSource::Forward);
    assert_eq!(position, 20.0);
    let (frame, position, _) = reconcile(20.0, 50.0, 80.0, 1.0, 20.0);
    assert_eq!(frame.source, EstimateSource::Backward);
    assert_eq!(position, 80.0);
    assert_eq!(frame.observability, ObservabilityState::Inferred);
    assert_eq!(frame.dominant_hypothesis_id, 1);
}

#[test]
fn frames_are_a_thirtieth_of_a_second_apart() {
    let mut tracker = AnatomicalTracker::new(router_config());
    assert_eq!(tracker.next_timestamp_ms(), 0);
    for _ in 0..3 {
        tracker.track_landmarks(Sighting {
            probe_found: true,
            target_found: true,
            has_flow: false,
            probe_inside_target: false,
        });
        tracker.update_pose_adaptive(&evidence(0.95, false));
    }
    assert_eq!(tracker.next_timestamp_ms(), 99);
}

#[test]
fn the_stroke_is_held_while_motion_is_unresolved() {
    let mut pipeline = AdaptiveMotionPipeline::new(
        AdaptiveProfile::Economy,
        router_config(),
        tap_config(),
        level(50.0),
    );
    let seen = FrameMeasures { smoothed: level(80.0), ..measures() };
    assert_eq!(pipeline.process_frame(&seen, level(0.6)).stroke_pos, level(80.0));
    let hidden = FrameMeasures {
        landmark_confidence: level(0.1),
        smoothed: level(10.0),
        ..measures()
    };
    let mut last = level(80.0);
    let mut held = 0;
    for _ in 0..30 {
        let plan = pipeline.process_frame(&hidden, level(0.6));
        assert_eq!(plan.unresolved, plan.branch == ExecutionBranch::UnresolvedInterval);
        if plan.unresolved {
            assert_eq!(plan.stroke_pos, last);
            held += 1;
        }
        last = plan.stroke_pos;
    }
    assert!(held > 0);
    pipeline.reset();
    assert_eq!(pipeline.last_position, level(50.0));
}

#[test]
fn a_frame_keeps_points_and_windows() {
    let config = TapTrackerConfig { window_size: 2, ..tap_config() };
    let mut tracker = TapPointTracker::new(config);
    tracker.seed(&vec![coord(0.1, 0.2), coord(0.3, 0.4)], "rim", level(1.0));
    for t in 0..5 {
        let updates = vec![
            PointUpdate { pos: coord(0.5, 0.5), visibility: level(0.2) },
            PointUpdate { pos: coord(0.6, 0.5), visibility: level(0.9) },
        ];
        assert_eq!(tracker.step_frame(&updates, t), 1);
        let ids: Vec<usize> = tracker.trajectories.iter().map(|p| p.point_id).collect();
        assert_eq!(ids, vec![0, 1]);
        assert!(tracker.trajectories.iter().all(|p| p.tag == "rim" && p.history.len() <= 2));
    }
    assert_eq!(tracker.trajectories[1].history[0].timestamp_ms, 3);
    assert_eq!(TapPointTracker::new(config).step_frame(&Vec::new(), 0), 0);
}
