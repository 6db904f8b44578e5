//! Tracking of the two landmarks of a motion over time: which detections stand
//! for them, what happens while one is out of sight, and how well the motion
//! is observed.
use crate::hypothesis::ObservabilityState;
use crate::level::Level;
use crate::router::{
    branch_for, kept_unless, lost_after, ConfidenceMetrics, ExecutionBranch, FailureRouter,
    RouterConfig,
};
use vstd::prelude::*;

verus! {

/// Occlusion state for temporal point tracking
#[derive(Debug, Clone, Copy, PartialEq, Eq, Structural)]
pub enum OcclusionState {
    /// Both probe tip and target are explicitly detected
    Visible,
    /// Probe tip has entered target bounding area and is occluded internally
    OccludedInside,
    /// Detections lost, propagating coordinates via optical flow
    Lost,
}

impl Default for OcclusionState {
    fn default() -> (res: Self)
        ensures
            res == OcclusionState::Lost,
    {
        OcclusionState::Lost
    }
}

/// What a detector found: the class and how sure it is.
#[derive(Debug, Clone, Copy, PartialEq, Eq, Structural)]
pub struct Detection {
    pub class_id: usize,
    pub confidence: Level,
}

/// The classes of probes, the preferred one first.
pub open spec fn is_probe(class: usize, preferred: bool) -> bool {
    if preferred {
        class == 1
    } else {
        class == 0
    }
}

/// The classes of targets.
pub open spec fn is_target(class: usize) -> bool {
    class == 2 || class == 4 || class == 3 || class == 7
}

/// `i` is the most confident detection of those with property `p`, the last
/// one among equals.
pub open spec fn is_best(s: Seq<Detection>, p: spec_fn(usize) -> bool, i: int) -> bool {
    &&& 0 <= i < s.len()
    &&& p(s[i].class_id)
    &&& forall|k: int|
        0 <= k < s.len() && p((#[trigger] s[k]).class_id) ==> s[k].confidence.key
            <= s[i].confidence.key && (k > i ==> s[k].confidence.key < s[i].confidence.key)
}

/// Some detection has property `p`.
pub open spec fn some_class(s: Seq<Detection>, p: spec_fn(usize) -> bool) -> bool {
    exists|k: int| 0 <= k < s.len() && p((#[trigger] s[k]).class_id)
}

/// `res` is the best detection with property `p`, if any has it.
pub open spec fn best_of(s: Seq<Detection>, p: spec_fn(usize) -> bool, res: Option<usize>) -> bool {
    match res {
        Some(i) => is_best(s, p, i as int),
        None => !some_class(s, p),
    }
}

fn best_probe(detections: &Vec<Detection>, preferred: bool) -> (res: Option<usize>)
    ensures
        best_of(detections@, |c: usize| is_probe(c, preferred), res),
{
    let wanted: usize = if preferred {
        1
    } else {
        0
    };
    let mut best: Option<usize> = None;
    let mut i: usize = 0;
    let ghost p = |c: usize| is_probe(c, preferred);
    while i < detections.len()
        invariant
            i <= detections.len(),
            p == (|c: usize| is_probe(c, preferred)),
            wanted == (if preferred {
                1usize
            } else {
                0usize
            }),
            best_of(detections@.take(i as int), p, best),
        decreases detections.len() - i,
    {
        let ghost before = detections@.take(i as int);
        let d: Detection = detections[i];
        let ghost after = detections@.take(i + 1);
        assert(after =~= before.push(d));
        if d.class_id == wanted {
            best = match best {
                Some(b) if d.confidence.below(detections[b].confidence) => Some(b),
                _ => Some(i),
            };
            assert(after[i as int] == d);
            proof {
                lemma_best_step(before, d, p, best);
            }
        }
        i += 1;
    }
    assert(detections@.take(i as int) =~= detections@);
    best
}

proof fn lemma_best_step(
    before: Seq<Detection>,
    d: Detection,
    p: spec_fn(usize) -> bool,
    best: Option<usize>,
)
    requires
        p(d.class_id),
        best matches Some(b) && (b == before.len() && (forall|k: int|
            0 <= k < before.len() && p((#[trigger] before[k]).class_id) ==> before[k].confidence.key
                <= d.confidence.key) || is_best(before, p, b as int) && d.confidence.key
            < before[b as int].confidence.key),
    ensures
        best_of(before.push(d), p, best),
{
    let after = before.push(d);
    let b = best->0;
    assert forall|k: int| 0 <= k < after.len() && p((#[trigger] after[k]).class_id) implies after[k].confidence.key
        <= after[b as int].confidence.key && (k > b ==> after[k].confidence.key
        < after[b as int].confidence.key) by {
        if k < before.len() {
            assert(after[k] == before[k]);
        }
    }
}

fn best_target(detections: &Vec<Detection>) -> (res: Option<usize>)
    ensures
        best_of(detections@, |c: usize| is_target(c), res),
{
    let mut best: Option<usize> = None;
    let mut i: usize = 0;
    let ghost p = |c: usize| is_target(c);
    while i < detections.len()
        invariant
            i <= detections.len(),
            p == (|c: usize| is_target(c)),
            best_of(detections@.take(i as int), p, best),
        decreases detections.len() - i,
    {
        let ghost before = detections@.take(i as int);
        let d: Detection = detections[i];
        let ghost after = detections@.take(i + 1);
        assert(after =~= before.push(d));
        if d.class_id == 2 || d.class_id == 4 || d.class_id == 3 || d.class_id == 7 {
            best = match best {
                Some(b) if d.confidence.below(detections[b].confidence) => Some(b),
                _ => Some(i),
            };
            assert(after[i as int] == d);
            proof {
                lemma_best_step(before, d, p, best);
            }
        }
        i += 1;
    }
    assert(detections@.take(i as int) =~= detections@);
    best
}

/// The detections that stand for the two landmarks, by their place in the list.
#[derive(Debug, Clone, Copy, PartialEq, Eq, Structural)]
pub struct Landmarks {
    pub probe: Option<usize>,
    pub target: Option<usize>,
}

/// `res` picks the best preferred probe, or the best other one where there is
/// none, and the best target.
pub open spec fn picks_landmarks(s: Seq<Detection>, res: Landmarks) -> bool {
    &&& best_of(s, |c: usize| is_target(c), res.target)
    &&& if some_class(s, |c: usize| is_probe(c, true)) {
        best_of(s, |c: usize| is_probe(c, true), res.probe)
    } else {
        best_of(s, |c: usize| is_probe(c, false), res.probe)
    }
}

/// The detections of a frame that stand for the probe and the target. Those of
/// the direct detector count where it ran, else those of the other one.
pub fn find_landmarks(
    direct: Option<&Vec<Detection>>,
    legacy: Option<&Vec<Detection>>,
) -> (res: Landmarks)
    ensures
        direct is Some ==> picks_landmarks(direct->0@, res),
        direct is None && legacy is Some ==> picks_landmarks(legacy->0@, res),
        direct is None && legacy is None ==> res.probe is None && res.target is None,
{
    let detections: &Vec<Detection> = match (direct, legacy) {
        (Some(d), _) => d,
        (None, Some(l)) => l,
        (None, None) => return Landmarks { probe: None, target: None },
    };
    let probe: Option<usize> = match best_probe(detections, true) {
        Some(i) => {
            assert(is_probe(detections@[i as int].class_id, true));
            assert((|c: usize| is_probe(c, true))(detections@[i as int].class_id));
            Some(i)
        },
        None => best_probe(detections, false),
    };
    Landmarks { probe, target: best_target(detections) }
}

/// For how many frames a landmark has been seen, and for how many it has been
/// out of sight since.
#[derive(Debug, Clone, Copy, PartialEq, Eq, Structural)]
pub struct TrackedPoint {
    pub frames_tracked: usize,
    pub frames_occluded: usize,
}

/// What a frame does to a landmark's record.
#[derive(Debug, Clone, Copy, PartialEq, Eq, Structural)]
pub enum PointAction {
    /// Nothing; there may be no record at all
    Keep,
    /// A new record starts from the detection
    Start,
    /// The record takes the detection in
    Detect,
    /// The record moves along the optical flow
    Propagate,
    /// Another frame passes out of sight
    Age,
}

/// A landmark's record after a frame.
pub open spec fn after_action(point: Option<TrackedPoint>, action: PointAction) -> Option<
    TrackedPoint,
> {
    match (action, point) {
        (PointAction::Start, _) => Some(TrackedPoint { frames_tracked: 1, frames_occluded: 0 }),
        (PointAction::Detect, Some(p)) => Some(
            TrackedPoint { frames_tracked: (p.frames_tracked + 1) as usize, frames_occluded: 0 },
        ),
        (PointAction::Propagate, Some(p)) => Some(
            TrackedPoint { frames_occluded: (p.frames_occluded + 1) as usize, ..p },
        ),
        (PointAction::Age, Some(p)) => Some(
            TrackedPoint { frames_occluded: (p.frames_occluded + 1) as usize, ..p },
        ),
        _ => point,
    }
}

fn act_on(point: Option<TrackedPoint>, action: PointAction) -> (res: Option<TrackedPoint>)
    requires
        point matches Some(p) ==> p.frames_tracked < usize::MAX && p.frames_occluded < usize::MAX,
    ensures
        res == after_action(point, action),
{
    match (action, point) {
        (PointAction::Start, _) => Some(TrackedPoint { frames_tracked: 1, frames_occluded: 0 }),
        (PointAction::Detect, Some(p)) => Some(
            TrackedPoint { frames_tracked: p.frames_tracked + 1, frames_occluded: 0 },
        ),
        (PointAction::Propagate, Some(p)) | (PointAction::Age, Some(p)) => Some(
            TrackedPoint {
                frames_tracked: p.frames_tracked,
                frames_occluded: p.frames_occluded + 1,
            },
        ),
        _ => point,
    }
}

/// What a frame shows of the landmarks.
#[derive(Debug, Clone, Copy, PartialEq, Eq, Structural)]
pub struct Sighting {
    pub probe_found: bool,
    pub target_found: bool,
    /// Optical flow is at hand
    pub has_flow: bool,
    /// The tracked probe lies inside the detected target's box, widened a little
    pub probe_inside_target: bool,
}

/// The probe, out of sight, is taken to be inside the target.
pub open spec fn hidden_inside(probe: Option<TrackedPoint>, s: Sighting) -> bool {
    &&& !s.probe_found
    &&& s.target_found
    &&& s.probe_inside_target
    &&& probe matches Some(p) && p.frames_occluded < 45
}

/// How a frame leaves the landmarks.
pub open spec fn occlusion_of(probe: Option<TrackedPoint>, s: Sighting) -> OcclusionState {
    if s.probe_found && s.target_found {
        OcclusionState::Visible
    } else if hidden_inside(probe, s) {
        OcclusionState::OccludedInside
    } else {
        OcclusionState::Lost
    }
}

/// What a frame does to the probe's record.
pub open spec fn probe_action(probe: Option<TrackedPoint>, s: Sighting) -> PointAction {
    if s.probe_found {
        if probe is Some {
            PointAction::Detect
        } else {
            PointAction::Start
        }
    } else if probe is Some && s.has_flow {
        PointAction::Propagate
    } else if hidden_inside(probe, s) {
        PointAction::Age
    } else {
        PointAction::Keep
    }
}

/// What a frame does to the target's record.
pub open spec fn target_action(target: Option<TrackedPoint>, s: Sighting) -> PointAction {
    if s.target_found {
        if target is Some {
            PointAction::Detect
        } else {
            PointAction::Start
        }
    } else if target is Some && s.has_flow {
        PointAction::Propagate
    } else {
        PointAction::Keep
    }
}

/// What a frame does to both records, and how it leaves the landmarks.
#[derive(Debug, Clone, Copy, PartialEq, Eq, Structural)]
pub struct TrackStep {
    pub probe: PointAction,
    pub target: PointAction,
    pub state: OcclusionState,
}

/// Temporal memory bank maintaining continuous landmark tracking
#[derive(Debug, Clone, Copy, PartialEq, Eq, Structural)]
pub struct TemporalMemoryBank {
    pub tracked_probe: Option<TrackedPoint>,
    pub tracked_target: Option<TrackedPoint>,
    pub state: OcclusionState,
}

impl Default for TemporalMemoryBank {
    fn default() -> (res: Self)
        ensures
            res.tracked_probe is None,
            res.tracked_target is None,
            res.state == OcclusionState::Lost,
    {
        TemporalMemoryBank {
            tracked_probe: None,
            tracked_target: None,
            state: OcclusionState::Lost,
        }
    }
}

/// What is measured of a frame once its landmarks have been tracked.
#[derive(Debug, Clone, Copy, PartialEq, Eq, Structural)]
pub struct FrameEvidence {
    pub forward_backward_error: Level,
    pub acceleration_jerk: Level,
    /// Confidence of the tracked probe
    pub landmark_confidence: Level,
    pub audio_transient: bool,
    pub is_scene_cut: bool,
}

/// Where the pose of a frame comes from.
#[derive(Debug, Clone, Copy, PartialEq, Eq, Structural)]
pub enum PoseRule {
    /// The last pose stays; a landmark has never been seen
    HoldLast,
    /// From the distance of the landmarks
    FromDistance,
    /// From the smallest distance seen so far, the probe being inside
    FromMinimum,
}

/// What is decided about a frame.
#[derive(Debug, Clone, Copy, PartialEq, Eq, Structural)]
pub struct PoseDecision {
    pub state: OcclusionState,
    pub branch: ExecutionBranch,
    pub observability: ObservabilityState,
    pub pose: PoseRule,
}

/// How well the motion of a frame is observed.
pub open spec fn observability_of(
    state: OcclusionState,
    audio_transient: bool,
    branch: ExecutionBranch,
) -> ObservabilityState {
    match state {
        OcclusionState::Visible => ObservabilityState::Observed,
        OcclusionState::OccludedInside => if audio_transient {
            ObservabilityState::Observed
        } else {
            ObservabilityState::Inferred
        },
        OcclusionState::Lost => if branch == ExecutionBranch::UnresolvedInterval {
            ObservabilityState::Unresolved
        } else {
            ObservabilityState::Inferred
        },
    }
}

/// Where the pose comes from.
pub open spec fn pose_rule_of(memory: TemporalMemoryBank) -> PoseRule {
    if memory.tracked_probe is None || memory.tracked_target is None {
        PoseRule::HoldLast
    } else if memory.state == OcclusionState::OccludedInside {
        PoseRule::FromMinimum
    } else {
        PoseRule::FromDistance
    }
}

/// Tracks the landmarks of a clip frame by frame.
#[derive(Debug)]
pub struct AnatomicalTracker {
    /// Temporal landmark memory bank
    pub memory: TemporalMemoryBank,
    /// Adaptive confidence and failure router
    pub router: FailureRouter,
    /// Last active execution branch
    pub last_branch: ExecutionBranch,
    /// Observability state of current motion
    pub observability: ObservabilityState,
    /// Consecutive frame counter
    pub frame_idx: usize,
    pub last_refresh_idx: usize,
}

/// A record's counts do not exceed the number of frames.
pub open spec fn counts_within(point: Option<TrackedPoint>, frames: usize) -> bool {
    point matches Some(p) ==> p.frames_tracked <= frames && p.frames_occluded <= frames
}

impl AnatomicalTracker {
    /// The router is well-formed and no count exceeds the number of frames.
    pub open spec fn wf(&self) -> bool {
        &&& self.router.wf()
        &&& self.router.stats.total_frames <= self.frame_idx
        &&& self.last_refresh_idx <= self.frame_idx
        &&& counts_within(self.memory.tracked_probe, self.frame_idx)
        &&& counts_within(self.memory.tracked_target, self.frame_idx)
    }

    pub fn new(config: RouterConfig) -> (res: Self)
        ensures
            res.wf(),
            res.memory.tracked_probe is None,
            res.memory.tracked_target is None,
            res.memory.state == OcclusionState::Lost,
            res.router.config == config,
            res.router.history_positions.len() == 0,
            res.router.history_velocities.len() == 0,
            res.router.consecutive_lost_frames == 0,
            res.router.stats.total_frames == 0,
            res.last_branch == ExecutionBranch::FastTracking,
            res.observability == ObservabilityState::Observed,
            res.frame_idx == 0,
            res.last_refresh_idx == 0,
    {
        AnatomicalTracker {
            memory: TemporalMemoryBank::default(),
            router: FailureRouter::new(config),
            last_branch: ExecutionBranch::FastTracking,
            observability: ObservabilityState::Observed,
            frame_idx: 0,
            last_refresh_idx: 0,
        }
    }

    /// The nominal time of the next frame, at 33 ms per frame.
    pub fn next_timestamp_ms(&self) -> (t: i64)
        requires
            self.frame_idx * 33 <= i64::MAX,
        ensures
            t == self.frame_idx * 33,
    {
        self.frame_idx as i64 * 33
    }

    /// Begins a frame: updates the memory bank and classifies the occlusion.
    pub fn track_landmarks(&mut self, sighting: Sighting) -> (step: TrackStep)
        requires
            old(self).wf(),
            old(self).frame_idx < usize::MAX,
        ensures
            final(self).wf(),
            final(self).frame_idx == old(self).frame_idx + 1,
            step.state == occlusion_of(old(self).memory.tracked_probe, sighting),
            step.probe == probe_action(old(self).memory.tracked_probe, sighting),
            step.target == target_action(old(self).memory.tracked_target, sighting),
            final(self).memory.state == step.state,
            final(self).memory.tracked_probe == after_action(
                old(self).memory.tracked_probe,
                step.probe,
            ),
            final(self).memory.tracked_target == after_action(
                old(self).memory.tracked_target,
                step.target,
            ),
            final(self).last_refresh_idx == (if step.state == OcclusionState::Visible {
                final(self).frame_idx
            } else {
                old(self).last_refresh_idx
            }),
            final(self).router == old(self).router,
            final(self).last_branch == old(self).last_branch,
            final(self).observability == old(self).observability,
    {
        self.frame_idx += 1;
        let probe: Option<TrackedPoint> = self.memory.tracked_probe;
        let target: Option<TrackedPoint> = self.memory.tracked_target;
        let inside: bool = match probe {
            Some(p) => !sighting.probe_found && sighting.target_found
                && sighting.probe_inside_target && p.frames_occluded < 45,
            None => false,
        };
        let probe_step: PointAction = if sighting.probe_found {
            if probe.is_some() {
                PointAction::Detect
            } else {
                PointAction::Start
            }
        } else if probe.is_some() && sighting.has_flow {
            PointAction::Propagate
        } else if inside {
            PointAction::Age
        } else {
            PointAction::Keep
        };
        let target_step: PointAction = if sighting.target_found {
            if target.is_some() {
                PointAction::Detect
            } else {
                PointAction::Start
            }
        } else if target.is_some() && sighting.has_flow {
            PointAction::Propagate
        } else {
            PointAction::Keep
        };
        let state: OcclusionState = if sighting.probe_found && sighting.target_found {
            self.last_refresh_idx = self.frame_idx;
            OcclusionState::Visible
        } else if inside {
            OcclusionState::OccludedInside
        } else {
            OcclusionState::Lost
        };
        self.memory.tracked_probe = act_on(probe, probe_step);
        self.memory.tracked_target = act_on(target, target_step);
        self.memory.state = state;
        TrackStep { probe: probe_step, target: target_step, state }
    }

    /// Ends a frame whose landmarks have been tracked: routes it, and decides
    /// how well its motion is observed and where its pose comes from.
    pub fn update_pose_adaptive(&mut self, evidence: &FrameEvidence) -> (decision: PoseDecision)
        requires
            old(self).wf(),
            old(self).router.stats.total_frames < old(self).frame_idx,
        ensures
            final(self).wf(),
            final(self).memory == old(self).memory,
            final(self).frame_idx == old(self).frame_idx,
            final(self).last_refresh_idx == old(self).last_refresh_idx,
            ({
                let metrics = frame_metrics(
                    old(self).memory.state,
                    *evidence,
                    (old(self).frame_idx - old(self).last_refresh_idx) as usize,
                );
                let lost = old(self).router.consecutive_lost_frames as int;
                &&& decision.branch == branch_for(
                    old(self).router.config,
                    lost,
                    metrics,
                    evidence.is_scene_cut,
                )
                &&& final(self).router.consecutive_lost_frames == lost_after(
                    old(self).router.config,
                    lost,
                    metrics,
                    evidence.is_scene_cut,
                )
            }),
            old(self).router.stats.counted(decision.branch, final(self).router.stats),
            final(self).router.config == old(self).router.config,
            final(self).router.history_positions@ == kept_unless(
                evidence.is_scene_cut,
                old(self).router.history_positions@,
            ),
            final(self).router.history_velocities@ == kept_unless(
                evidence.is_scene_cut,
                old(self).router.history_velocities@,
            ),
            decision.state == old(self).memory.state,
            decision.observability == observability_of(
                old(self).memory.state,
                evidence.audio_transient,
                decision.branch,
            ),
            decision.pose == pose_rule_of(old(self).memory),
            final(self).last_branch == decision.branch,
            final(self).observability == decision.observability,
    {
        let state: OcclusionState = self.memory.state;
        let metrics = ConfidenceMetrics {
            forward_backward_error: evidence.forward_backward_error,
            acceleration_jerk: evidence.acceleration_jerk,
            landmark_confidence: evidence.landmark_confidence,
            inside_hull: state != OcclusionState::Lost,
            audio_transient_detected: evidence.audio_transient,
            frames_since_refresh: self.frame_idx - self.last_refresh_idx,
        };
        let branch: ExecutionBranch = self.router.route_frame(&metrics, evidence.is_scene_cut);
        self.last_branch = branch;
        let observability: ObservabilityState = match state {
            OcclusionState::Visible => ObservabilityState::Observed,
            OcclusionState::OccludedInside => if evidence.audio_transient {
                ObservabilityState::Observed
            } else {
                ObservabilityState::Inferred
            },
            OcclusionState::Lost => if branch == ExecutionBranch::UnresolvedInterval {
                ObservabilityState::Unresolved
            } else {
                ObservabilityState::Inferred
            },
        };
        self.observability = observability;
        let pose: PoseRule = if self.memory.tracked_probe.is_none()
            || self.memory.tracked_target.is_none() {
            PoseRule::HoldLast
        } else if state == OcclusionState::OccludedInside {
            PoseRule::FromMinimum
        } else {
            PoseRule::FromDistance
        };
        PoseDecision { state, branch, observability, pose }
    }
}

/// What the router is told about a frame.
pub open spec fn frame_metrics(
    state: OcclusionState,
    evidence: FrameEvidence,
    frames_since_refresh: usize,
) -> ConfidenceMetrics {
    ConfidenceMetrics {
        forward_backward_error: evidence.forward_backward_error,
        acceleration_jerk: evidence.acceleration_jerk,
        landmark_confidence: evidence.landmark_confidence,
        inside_hull: state != OcclusionState::Lost,
        audio_transient_detected: evidence.audio_transient,
        frames_since_refresh,
    }
}

/// A probe out of sight counts as inside the target for at most 45 frames in a
/// row: each such frame raises the count that ends it.
pub proof fn lemma_hidden_is_bounded(probe: Option<TrackedPoint>, s: Sighting)
    requires
        occlusion_of(probe, s) == OcclusionState::OccludedInside,
    ensures
        after_action(probe, probe_action(probe, s)) == Some(
            TrackedPoint {
                frames_tracked: probe->0.frames_tracked,
                frames_occluded: (probe->0.frames_occluded + 1) as usize,
            },
        ),
        probe->0.frames_occluded + 1 <= 45,
{
}

/// The probe is the surest detection of class 1, or where there is none the surest of class
/// 0, and the last of those that are equally sure. There is none exactly where neither class
/// was detected.
pub proof fn lemma_probe_is_surest(s: Seq<Detection>, res: Landmarks, k: int)
    requires
        picks_landmarks(s, res),
        0 <= k < s.len(),
    ensures
        res.probe is None ==> s[k].class_id != 0 && s[k].class_id != 1,
        res.probe matches Some(i) ==> {
            &&& i < s.len()
            &&& s[i as int].class_id == 0 || s[i as int].class_id == 1
            &&& s[k].class_id == 1 ==> s[i as int].class_id == 1
            &&& s[k].class_id == s[i as int].class_id ==> s[k].confidence.key
                <= s[i as int].confidence.key
            &&& s[k].class_id == s[i as int].class_id && k > i ==> s[k].confidence.key
                < s[i as int].confidence.key
        },
{
    let preferred = |c: usize| is_probe(c, true);
    let other = |c: usize| is_probe(c, false);
    assert(preferred(s[k].class_id) == (s[k].class_id == 1));
    assert(other(s[k].class_id) == (s[k].class_id == 0));
    if let Some(i) = res.probe {
        assert(preferred(s[i as int].class_id) == (s[i as int].class_id == 1));
        assert(other(s[i as int].class_id) == (s[i as int].class_id == 0));
    }
}

/// The target is the surest detection of the classes 2, 3, 4 and 7, the last of those that
/// are equally sure. There is none exactly where none of these was detected.
pub proof fn lemma_target_is_surest(s: Seq<Detection>, res: Landmarks, k: int)
    requires
        picks_landmarks(s, res),
        0 <= k < s.len(),
        s[k].class_id == 2 || s[k].class_id == 3 || s[k].class_id == 4 || s[k].class_id == 7,
    ensures
        res.target is Some,
        ({
            let i = res.target->0 as int;
            &&& i < s.len()
            &&& s[i].class_id == 2 || s[i].class_id == 3 || s[i].class_id == 4 || s[i].class_id == 7
            &&& s[k].confidence.key <= s[i].confidence.key
            &&& k > i ==> s[k].confidence.key < s[i].confidence.key
        }),
{
    let p = |c: usize| is_target(c);
    assert(p(s[k].class_id));
    if let Some(i) = res.target {
        assert(p(s[i as int].class_id));
    }
}

/// A landmark that was picked is a detection of one of its classes.
pub proof fn lemma_target_is_detected(s: Seq<Detection>, res: Landmarks)
    requires
        picks_landmarks(s, res),
        res.target is Some,
    ensures
        res.target->0 < s.len(),
        ({
            let class = s[res.target->0 as int].class_id;
            class == 2 || class == 3 || class == 4 || class == 7
        }),
{
    let p = |c: usize| is_target(c);
    assert(p(s[res.target->0 as int].class_id));
}

/// A probe that is found has been seen once more and is no longer out of sight. One that is
/// not found has been seen as often as before; another frame passes out of sight where there
/// is a flow to move it by, or where it is inside the target that is seen and has not been
/// out of sight for 45 frames. Without a record there is none until it is found.
pub proof fn lemma_probe_record(probe: Option<TrackedPoint>, s: Sighting)
    requires
        probe matches Some(p) ==> p.frames_tracked < usize::MAX && p.frames_occluded < usize::MAX,
    ensures
        ({
            let after = after_action(probe, probe_action(probe, s));
            &&& after is Some <==> probe is Some || s.probe_found
            &&& s.probe_found ==> after->0.frames_occluded == 0 && after->0.frames_tracked == (
            match probe {
                Some(p) => p.frames_tracked + 1,
                None => 1,
            })
            &&& !s.probe_found && probe is Some ==> {
                let hidden = s.target_found && s.probe_inside_target && probe->0.frames_occluded
                    < 45;
                &&& after->0.frames_tracked == probe->0.frames_tracked
                &&& after->0.frames_occluded == probe->0.frames_occluded + (if s.has_flow
                    || hidden {
                    1int
                } else {
                    0int
                })
            }
        }),
{
}

/// A target that is found has been seen once more and is no longer out of sight; one that is
/// not found has been seen as often as before, and another frame passes out of sight where
/// there is a flow to move it by.
pub proof fn lemma_target_record(target: Option<TrackedPoint>, s: Sighting)
    requires
        target matches Some(p) ==> p.frames_tracked < usize::MAX && p.frames_occluded < usize::MAX,
    ensures
        ({
            let after = after_action(target, target_action(target, s));
            &&& after is Some <==> target is Some || s.target_found
            &&& s.target_found ==> after->0.frames_occluded == 0 && after->0.frames_tracked == (
            match target {
                Some(p) => p.frames_tracked + 1,
                None => 1,
            })
            &&& !s.target_found && target is Some ==> {
                &&& after->0.frames_tracked == target->0.frames_tracked
                &&& after->0.frames_occluded == target->0.frames_occluded + (if s.has_flow {
                    1int
                } else {
                    0int
                })
            }
        }),
{
}

/// The landmarks are visible exactly where both are found. The probe is inside exactly where
/// it has a record of less than 45 frames out of sight, is not found, and lies in the target
/// that is. Everything else is lost.
pub proof fn lemma_occlusion(probe: Option<TrackedPoint>, s: Sighting)
    ensures
        occlusion_of(probe, s) == OcclusionState::Visible <==> s.probe_found && s.target_found,
        occlusion_of(probe, s) == OcclusionState::OccludedInside <==> !s.probe_found
            && s.target_found && s.probe_inside_target && probe is Some && probe->0.frames_occluded
            < 45,
        !s.target_found ==> occlusion_of(probe, s) == OcclusionState::Lost,
{
}

/// A frame is observed where both landmarks are visible, or where a sound is heard while the
/// probe is inside; unresolved where they are lost on the branch of that name; and inferred
/// otherwise. Without a record of both landmarks the pose stays; it comes from the smallest
/// distance only while the probe is inside.
pub proof fn lemma_pose_decided(
    memory: TemporalMemoryBank,
    audio_transient: bool,
    branch: ExecutionBranch,
)
    ensures
        ({
            let observed = observability_of(memory.state, audio_transient, branch);
            &&& observed is Observed <==> memory.state is Visible || (memory.state is OccludedInside
                && audio_transient)
            &&& observed is Unresolved <==> memory.state is Lost && branch is UnresolvedInterval
        }),
        pose_rule_of(memory) is HoldLast <==> memory.tracked_probe is None
            || memory.tracked_target is None,
        pose_rule_of(memory) is FromMinimum <==> memory.tracked_probe is Some
            && memory.tracked_target is Some && memory.state is OccludedInside,
{
}

/// The router is told what was measured of the frame; a probe that is visible or inside the
/// target counts as within the hull.
pub proof fn lemma_metrics_of_frame(state: OcclusionState, evidence: FrameEvidence, since: usize)
    ensures
        ({
            let told = frame_metrics(state, evidence, since);
            &&& told.inside_hull <==> state is Visible || state is OccludedInside
            &&& told.forward_backward_error == evidence.forward_backward_error
            &&& told.acceleration_jerk == evidence.acceleration_jerk
            &&& told.landmark_confidence == evidence.landmark_confidence
            &&& told.audio_transient_detected == evidence.audio_transient
            &&& told.frames_since_refresh == since
        }),
{
}

} // verus!
