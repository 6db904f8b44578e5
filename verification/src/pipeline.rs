//! The adaptive tracking pipeline: its operating profiles and what it decides
//! about each frame.
use crate::hypothesis::{HypothesisEngine, ObservabilityState};
use crate::level::Level;
use crate::point_tracker::{TapPointTracker, TapTrackerConfig};
use crate::router::{
    branch_for, kept_unless, lost_after, ConfidenceMetrics, ExecutionBranch, FailureRouter,
    RouterConfig,
};
use crate::text::{is_ascii_lowered, is_ascii_text, is_ascii_upper, lowercase_of, same_text, to_lowercase};
use vstd::prelude::*;

verus! {

/// The five non-dominated operating profiles on the empirical Pareto curve
#[derive(Debug, Clone, Copy, PartialEq, Eq, Structural)]
pub enum AdaptiveProfile {
    /// High-throughput edge profile: Separable LK Flow + YOLO26-N at refresh points (90-250+ FPS)
    Economy,
    /// Known anatomical domains: TAPNext++ point tracking + RF-DETR-Seg-S/M specialist (60-120 FPS)
    BalancedSpecialist,
    /// Generic unconstrained scenes: SAM 3.1 initialization + TAPNext++ continuous tracking (30-60 FPS)
    GenericDefault,
    /// Maximum 2D fidelity: Generic default + CoWTracker dense repair on uncertain intervals + bidirectional reconciliation
    DenseOffline,
    /// Maximum spatial fidelity: Dense offline + 3D camera ray triangulation resolving monocular depth ambiguity
    GeometryHeavy3D,
}

impl Default for AdaptiveProfile {
    fn default() -> (res: Self)
        ensures
            res == AdaptiveProfile::GenericDefault,
    {
        AdaptiveProfile::GenericDefault
    }
}

/// Frames between two mandatory refreshes under a profile.
pub open spec fn cadence_of(profile: AdaptiveProfile) -> usize {
    match profile {
        AdaptiveProfile::Economy => 60,
        AdaptiveProfile::BalancedSpecialist => 30,
        AdaptiveProfile::GenericDefault => 24,
        AdaptiveProfile::DenseOffline => 16,
        AdaptiveProfile::GeometryHeavy3D => 12,
    }
}

/// Sparse points tracked under a profile.
pub open spec fn point_count_of(profile: AdaptiveProfile) -> usize {
    match profile {
        AdaptiveProfile::Economy => 32,
        AdaptiveProfile::BalancedSpecialist => 64,
        AdaptiveProfile::GenericDefault => 128,
        AdaptiveProfile::DenseOffline => 256,
        AdaptiveProfile::GeometryHeavy3D => 256,
    }
}

proof fn lemma_same_code(a: char, b: char)
    requires
        a as u32 == b as u32,
    ensures
        a == b,
{
}

/// The profile that a lower case word stands for.
pub open spec fn profile_of_word(word: Seq<char>) -> Option<AdaptiveProfile> {
    if word == "economy"@ || word == "fast"@ || word == "yolo26"@ {
        Some(AdaptiveProfile::Economy)
    } else if word == "specialist"@ || word == "balanced"@ || word == "rfdetr"@ {
        Some(AdaptiveProfile::BalancedSpecialist)
    } else if word == "default"@ || word == "generic"@ || word == "sam"@ {
        Some(AdaptiveProfile::GenericDefault)
    } else if word == "dense"@ || word == "cowtracker"@ || word == "offline"@ {
        Some(AdaptiveProfile::DenseOffline)
    } else if word == "3d"@ || word == "geometry"@ || word == "d4rt"@ {
        Some(AdaptiveProfile::GeometryHeavy3D)
    } else {
        None
    }
}

impl AdaptiveProfile {
    pub fn name(&self) -> (name: &'static str)
        ensures
            name@ == (match *self {
                AdaptiveProfile::Economy => "Economy (Flow + YOLO26-N)"@,
                AdaptiveProfile::BalancedSpecialist => "Balanced Specialist (TAPNext++ + RF-DETR)"@,
                AdaptiveProfile::GenericDefault => "Generic Default (SAM 3.1 + TAPNext++)"@,
                AdaptiveProfile::DenseOffline => "Dense Offline (CoWTracker + Bidirectional)"@,
                AdaptiveProfile::GeometryHeavy3D => "Geometry-Heavy 3D (3D Mesh + Ray Solve)"@,
            }),
    {
        match self {
            AdaptiveProfile::Economy => "Economy (Flow + YOLO26-N)",
            AdaptiveProfile::BalancedSpecialist => "Balanced Specialist (TAPNext++ + RF-DETR)",
            AdaptiveProfile::GenericDefault => "Generic Default (SAM 3.1 + TAPNext++)",
            AdaptiveProfile::DenseOffline => "Dense Offline (CoWTracker + Bidirectional)",
            AdaptiveProfile::GeometryHeavy3D => "Geometry-Heavy 3D (3D Mesh + Ray Solve)",
        }
    }

    pub fn short_name(&self) -> (name: &'static str)
        ensures
            name@ == (match *self {
                AdaptiveProfile::Economy => "Economy"@,
                AdaptiveProfile::BalancedSpecialist => "Specialist"@,
                AdaptiveProfile::GenericDefault => "Default"@,
                AdaptiveProfile::DenseOffline => "Dense"@,
                AdaptiveProfile::GeometryHeavy3D => "3D-Geom"@,
            }),
    {
        match self {
            AdaptiveProfile::Economy => "Economy",
            AdaptiveProfile::BalancedSpecialist => "Specialist",
            AdaptiveProfile::GenericDefault => "Default",
            AdaptiveProfile::DenseOffline => "Dense",
            AdaptiveProfile::GeometryHeavy3D => "3D-Geom",
        }
    }

    pub fn refresh_cadence(&self) -> (frames: usize)
        ensures
            frames == cadence_of(*self),
    {
        match self {
            AdaptiveProfile::Economy => 60,
            AdaptiveProfile::BalancedSpecialist => 30,
            AdaptiveProfile::GenericDefault => 24,
            AdaptiveProfile::DenseOffline => 16,
            AdaptiveProfile::GeometryHeavy3D => 12,
        }
    }

    /// How many sparse points the profile tracks.
    pub fn target_point_count(&self) -> (count: usize)
        ensures
            count == point_count_of(*self),
    {
        match self {
            AdaptiveProfile::Economy => 32,
            AdaptiveProfile::BalancedSpecialist => 64,
            AdaptiveProfile::GenericDefault => 128,
            AdaptiveProfile::DenseOffline | AdaptiveProfile::GeometryHeavy3D => 256,
        }
    }

    pub fn uses_dense_repair(&self) -> (res: bool)
        ensures
            res == (*self is DenseOffline || *self is GeometryHeavy3D),
    {
        matches!(self, AdaptiveProfile::DenseOffline | AdaptiveProfile::GeometryHeavy3D)
    }

    pub fn uses_3d_geometry(&self) -> (res: bool)
        ensures
            res == (*self is GeometryHeavy3D),
    {
        matches!(self, AdaptiveProfile::GeometryHeavy3D)
    }

    /// The profile that a word stands for, in upper or lower case.
    pub fn parse_str(s: &str) -> (res: Option<Self>)
        ensures
            res == profile_of_word(lowercase_of(s@)),
            forall|word: Seq<char>|
                is_ascii_text(s@) && #[trigger] is_ascii_lowered(s@, word) ==> res
                    == profile_of_word(word),
    {
        let word: String = to_lowercase(s);
        proof {
            assert forall|w: Seq<char>|
                is_ascii_text(s@) && #[trigger] is_ascii_lowered(s@, w) implies w == word@ by {
                assert forall|i: int| 0 <= i < w.len() implies w[i] == word@[i] by {
                    if is_ascii_upper(s@[i]) {
                        lemma_same_code(w[i], word@[i]);
                    }
                }
                assert(w =~= word@);
            }
        }
        AdaptiveProfile::parse_word(word.as_str())
    }

    /// The profile that a lower case word stands for.
    pub fn parse_word(word: &str) -> (res: Option<Self>)
        ensures
            res == profile_of_word(word@),
    {
        if same_text(word, "economy") || same_text(word, "fast") || same_text(word, "yolo26") {
            Some(AdaptiveProfile::Economy)
        } else if same_text(word, "specialist") || same_text(word, "balanced") || same_text(
            word,
            "rfdetr",
        ) {
            Some(AdaptiveProfile::BalancedSpecialist)
        } else if same_text(word, "default") || same_text(word, "generic") || same_text(
            word,
            "sam",
        ) {
            Some(AdaptiveProfile::GenericDefault)
        } else if same_text(word, "dense") || same_text(word, "cowtracker") || same_text(
            word,
            "offline",
        ) {
            Some(AdaptiveProfile::DenseOffline)
        } else if same_text(word, "3d") || same_text(word, "geometry") || same_text(word, "d4rt") {
            Some(AdaptiveProfile::GeometryHeavy3D)
        } else {
            None
        }
    }
}

/// What is measured of a frame.
#[derive(Debug, Clone, Copy, PartialEq, Eq, Structural)]
pub struct FrameMeasures {
    pub timestamp_ms: i64,
    /// The stroke position that the frame's distance gives, smoothed with the last one
    pub smoothed: Level,
    pub forward_backward_error: Level,
    pub acceleration_jerk: Level,
    /// Mean visibility of the tracked points
    pub landmark_confidence: Level,
    /// Too few points are occluded to leave the hull
    pub inside_hull: bool,
    pub audio_transient: bool,
    pub is_scene_cut: bool,
    /// How many detections the direct detector found, if it ran
    pub direct_count: Option<usize>,
    /// How many detections the other detector found, if it ran
    pub legacy_count: Option<usize>,
}

/// From which detections new points are seeded, and how many.
#[derive(Debug, Clone, Copy, PartialEq, Eq, Structural)]
pub enum SeedPlan {
    Nothing,
    /// Across the first direct detection
    FirstDirect(usize),
    /// Across the first detection of the other detector
    FirstLegacy(usize),
}

/// What is decided about a frame.
#[derive(Debug, Clone, Copy, PartialEq, Eq, Structural)]
pub struct FramePlan {
    pub timestamp_ms: i64,
    /// The stroke position
    pub stroke_pos: Level,
    /// Selected execution branch
    pub branch: ExecutionBranch,
    /// Motion observability state
    pub observability: ObservabilityState,
    pub seed: SeedPlan,
    /// The position stays where it was, and the uncertainty is widened
    pub unresolved: bool,
    /// The pose is adjusted for depth
    pub adjust_depth: bool,
}

/// How many frames lie between two, none where the later one is not later.
pub open spec fn frames_between(earlier: int, later: int) -> usize {
    if later < earlier {
        0
    } else {
        (later - earlier) as usize
    }
}

/// What the router is told about a frame.
pub open spec fn metrics_of(m: FrameMeasures, frames_since_refresh: usize) -> ConfidenceMetrics {
    ConfidenceMetrics {
        forward_backward_error: m.forward_backward_error,
        acceleration_jerk: m.acceleration_jerk,
        landmark_confidence: m.landmark_confidence,
        inside_hull: m.inside_hull,
        audio_transient_detected: m.audio_transient,
        frames_since_refresh,
    }
}

/// The branch that a profile takes where the router chose `routed`: a refresh
/// in place of a dense repair that the profile does not make.
pub open spec fn allowed_branch(profile: AdaptiveProfile, routed: ExecutionBranch) -> ExecutionBranch {
    if routed == ExecutionBranch::DenseRepair && !(profile is DenseOffline
        || profile is GeometryHeavy3D) {
        ExecutionBranch::SpecialistRefresh
    } else {
        routed
    }
}

/// The branch runs a detector.
pub open spec fn refreshes(branch: ExecutionBranch) -> bool {
    branch == ExecutionBranch::SemanticReacquisition || branch == ExecutionBranch::SpecialistRefresh
}

/// How well the motion of a frame is observed on a branch.
pub open spec fn branch_observability(branch: ExecutionBranch, confident: bool) -> ObservabilityState {
    match branch {
        ExecutionBranch::SemanticReacquisition => ObservabilityState::Observed,
        ExecutionBranch::SpecialistRefresh => ObservabilityState::Observed,
        ExecutionBranch::DenseRepair => ObservabilityState::Inferred,
        ExecutionBranch::FastTracking => if confident {
            ObservabilityState::Observed
        } else {
            ObservabilityState::Inferred
        },
        ExecutionBranch::UnresolvedInterval => ObservabilityState::Unresolved,
    }
}

/// The stroke position after a frame: it is held where the motion cannot be observed,
/// and otherwise follows.
pub open spec fn stroke_after(branch: ExecutionBranch, last: Level, smoothed: Level) -> Level {
    if branch == ExecutionBranch::UnresolvedInterval {
        last
    } else {
        smoothed
    }
}

/// What is seeded on a branch.
pub open spec fn seed_plan(branch: ExecutionBranch, m: FrameMeasures, target: usize) -> SeedPlan {
    if !refreshes(branch) {
        SeedPlan::Nothing
    } else {
        match (m.direct_count, m.legacy_count) {
            (Some(d), _) => if d > 0 {
                SeedPlan::FirstDirect((target / 2) as usize)
            } else {
                SeedPlan::Nothing
            },
            (None, Some(l)) => if l > 0 {
                SeedPlan::FirstLegacy((target / 2) as usize)
            } else {
                SeedPlan::Nothing
            },
            (None, None) => SeedPlan::Nothing,
        }
    }
}

/// The Adaptive Fast/Slow Vision-to-Motion Pipeline
#[derive(Debug)]
pub struct AdaptiveMotionPipeline {
    pub profile: AdaptiveProfile,
    pub router: FailureRouter,
    pub point_tracker: TapPointTracker,
    pub hypothesis_engine: HypothesisEngine,
    pub frame_counter: usize,
    pub last_refresh_frame: usize,
    /// The last stroke position
    pub last_position: Level,
    /// The stroke position before the first frame
    pub middle: Level,
}

impl AdaptiveMotionPipeline {
    /// The router is well-formed.
    pub open spec fn wf(&self) -> bool {
        self.router.wf()
    }

    /// A pipeline under a profile; the other settings of router and point
    /// tracker are those given. The stroke position starts in the middle.
    pub fn new(
        profile: AdaptiveProfile,
        router: RouterConfig,
        points: TapTrackerConfig,
        middle: Level,
    ) -> (res: Self)
        ensures
            res.wf(),
            res.profile == profile,
            res.router.config == (RouterConfig { refresh_cadence_k: cadence_of(profile), ..router }),
            res.point_tracker.config == (TapTrackerConfig {
                target_point_count: point_count_of(profile),
                ..points
            }),
            res.router.history_positions.len() == 0,
            res.router.history_velocities.len() == 0,
            res.router.consecutive_lost_frames == 0,
            res.router.stats.total_frames == 0,
            res.point_tracker.trajectories.len() == 0,
            res.point_tracker.next_point_id == 0,
            res.hypothesis_engine.active_hypotheses.len() == 0,
            res.frame_counter == 0,
            res.last_refresh_frame == 0,
            res.last_position == middle,
            res.middle == middle,
    {
        AdaptiveMotionPipeline {
            profile,
            router: FailureRouter::new(
                RouterConfig { refresh_cadence_k: profile.refresh_cadence(), ..router },
            ),
            point_tracker: TapPointTracker::new(
                TapTrackerConfig { target_point_count: profile.target_point_count(), ..points },
            ),
            hypothesis_engine: HypothesisEngine::new(),
            frame_counter: 0,
            last_refresh_frame: 0,
            last_position: middle,
            middle,
        }
    }

    /// Reset pipeline state (e.g. on new clip or scene boundary)
    pub fn reset(&mut self)
        requires
            old(self).wf(),
        ensures
            final(self).wf(),
            final(self).profile == old(self).profile,
            final(self).router.config == old(self).router.config,
            final(self).router.stats == old(self).router.stats,
            final(self).router.history_positions.len() == 0,
            final(self).router.history_velocities.len() == 0,
            final(self).router.consecutive_lost_frames == 0,
            final(self).point_tracker.config == old(self).point_tracker.config,
            final(self).point_tracker.trajectories.len() == 0,
            final(self).point_tracker.next_point_id == 0,
            final(self).hypothesis_engine.active_hypotheses.len() == 0,
            final(self).frame_counter == 0,
            final(self).last_refresh_frame == 0,
            final(self).last_position == old(self).middle,
            final(self).middle == old(self).middle,
    {
        self.router.reset();
        self.point_tracker.clear();
        self.hypothesis_engine.reset();
        self.frame_counter = 0;
        self.last_refresh_frame = 0;
        self.last_position = self.middle;
    }

    /// Change operating profile dynamically
    pub fn set_profile(&mut self, profile: AdaptiveProfile)
        requires
            old(self).wf(),
        ensures
            final(self).wf(),
            final(self).profile == profile,
            final(self).router == (FailureRouter {
                config: RouterConfig {
                    refresh_cadence_k: cadence_of(profile),
                    ..old(self).router.config
                },
                ..old(self).router
            }),
            final(self).point_tracker == (TapPointTracker {
                config: TapTrackerConfig {
                    target_point_count: point_count_of(profile),
                    ..old(self).point_tracker.config
                },
                ..old(self).point_tracker
            }),
            final(self).hypothesis_engine == old(self).hypothesis_engine,
            final(self).frame_counter == old(self).frame_counter,
            final(self).last_refresh_frame == old(self).last_refresh_frame,
            final(self).last_position == old(self).last_position,
            final(self).middle == old(self).middle,
    {
        self.profile = profile;
        self.router.config.refresh_cadence_k = profile.refresh_cadence();
        self.point_tracker.config.target_point_count = profile.target_point_count();
    }

    /// Decides about a single frame: its branch through the fast/slow
    /// hierarchy, how well its motion is observed, where its stroke stands, and what is
    /// seeded.
    /// `confident` is the visibility from which on a fast frame counts as
    /// observed.
    pub fn process_frame(&mut self, measures: &FrameMeasures, confident: Level) -> (plan: FramePlan)
        requires
            old(self).wf(),
            old(self).frame_counter < usize::MAX,
            old(self).router.stats.total_frames < usize::MAX,
        ensures
            final(self).wf(),
            final(self).profile == old(self).profile,
            final(self).frame_counter == old(self).frame_counter + 1,
            ({
                let since = frames_between(
                    old(self).last_refresh_frame as int,
                    old(self).frame_counter + 1,
                );
                let lost = old(self).router.consecutive_lost_frames as int;
                let metrics = metrics_of(*measures, since);
                let routed = branch_for(
                    old(self).router.config,
                    lost,
                    metrics,
                    measures.is_scene_cut,
                );
                &&& plan.branch == allowed_branch(old(self).profile, routed)
                &&& old(self).router.stats.counted(routed, final(self).router.stats)
                &&& final(self).router.consecutive_lost_frames == lost_after(
                    old(self).router.config,
                    lost,
                    metrics,
                    measures.is_scene_cut,
                )
            }),
            final(self).router.config == old(self).router.config,
            final(self).router.history_positions@ == kept_unless(
                measures.is_scene_cut,
                old(self).router.history_positions@,
            ),
            final(self).router.history_velocities@ == kept_unless(
                measures.is_scene_cut,
                old(self).router.history_velocities@,
            ),
            plan.observability == branch_observability(
                plan.branch,
                measures.landmark_confidence.key >= confident.key,
            ),
            plan.seed == seed_plan(
                plan.branch,
                *measures,
                old(self).point_tracker.config.target_point_count,
            ),
            plan.timestamp_ms == measures.timestamp_ms,
            plan.stroke_pos == stroke_after(
                plan.branch,
                old(self).last_position,
                measures.smoothed,
            ),
            final(self).last_position == plan.stroke_pos,
            final(self).middle == old(self).middle,
            plan.unresolved == (plan.branch == ExecutionBranch::UnresolvedInterval),
            plan.adjust_depth == (old(self).profile is GeometryHeavy3D),
            final(self).last_refresh_frame == (if refreshes(plan.branch) {
                final(self).frame_counter
            } else {
                old(self).last_refresh_frame
            }),
            final(self).point_tracker == old(self).point_tracker,
            final(self).hypothesis_engine == old(self).hypothesis_engine,
    {
        self.frame_counter += 1;
        let metrics = ConfidenceMetrics {
            forward_backward_error: measures.forward_backward_error,
            acceleration_jerk: measures.acceleration_jerk,
            landmark_confidence: measures.landmark_confidence,
            inside_hull: measures.inside_hull,
            audio_transient_detected: measures.audio_transient,
            frames_since_refresh: self.frame_counter.saturating_sub(self.last_refresh_frame),
        };
        let mut branch: ExecutionBranch = self.router.route_frame(&metrics, measures.is_scene_cut);
        if branch == ExecutionBranch::DenseRepair && !self.profile.uses_dense_repair() {
            branch = ExecutionBranch::SpecialistRefresh;
        }
        let half: usize = self.point_tracker.config.target_point_count / 2;
        let mut seed: SeedPlan = SeedPlan::Nothing;
        let observability: ObservabilityState = match branch {
            ExecutionBranch::SemanticReacquisition | ExecutionBranch::SpecialistRefresh => {
                self.last_refresh_frame = self.frame_counter;
                match (measures.direct_count, measures.legacy_count) {
                    (Some(d), _) => {
                        if d > 0 {
                            seed = SeedPlan::FirstDirect(half);
                        }
                    },
                    (None, Some(l)) => {
                        if l > 0 {
                            seed = SeedPlan::FirstLegacy(half);
                        }
                    },
                    (None, None) => {},
                }
                ObservabilityState::Observed
            },
            ExecutionBranch::DenseRepair => ObservabilityState::Inferred,
            ExecutionBranch::FastTracking => if !measures.landmark_confidence.below(confident) {
                ObservabilityState::Observed
            } else {
                ObservabilityState::Inferred
            },
            ExecutionBranch::UnresolvedInterval => ObservabilityState::Unresolved,
        };
        let unresolved: bool = observability == ObservabilityState::Unresolved;
        if !unresolved {
            self.last_position = measures.smoothed;
        }
        FramePlan {
            timestamp_ms: measures.timestamp_ms,
            stroke_pos: self.last_position,
            branch,
            observability,
            seed,
            unresolved,
            adjust_depth: self.profile.uses_3d_geometry(),
        }
    }
}

/// A scene cut is always followed by a reacquisition, and a dense repair is made only
/// under a profile that makes them. A frame is unresolved exactly on the branch of that
/// name; its stroke is then held, and in any case it stays within bounds that the last
/// position and the smoothed one keep to.
pub proof fn lemma_frame_decided(
    profile: AdaptiveProfile,
    config: RouterConfig,
    lost: int,
    m: FrameMeasures,
    since: usize,
    confident: bool,
    last: Level,
    low: Level,
    high: Level,
)
    ensures
        ({
            let routed = branch_for(config, lost, metrics_of(m, since), m.is_scene_cut);
            let branch = allowed_branch(profile, routed);
            let observed = branch_observability(branch, confident);
            let stroke = stroke_after(branch, last, m.smoothed);
            &&& m.is_scene_cut ==> branch == ExecutionBranch::SemanticReacquisition
            &&& branch == ExecutionBranch::DenseRepair ==> profile is DenseOffline
                || profile is GeometryHeavy3D
            &&& observed == ObservabilityState::Unresolved <==> branch
                == ExecutionBranch::UnresolvedInterval
            &&& observed == ObservabilityState::Unresolved ==> stroke == last
            &&& low.key <= last.key <= high.key && low.key <= m.smoothed.key <= high.key
                ==> low.key <= stroke.key <= high.key
        }),
{
}

/// A refresh is never more than a cadence away: once as many frames have passed
/// since the last one as the cadence, the frame runs a detector.
pub proof fn lemma_refresh_is_due(
    profile: AdaptiveProfile,
    config: RouterConfig,
    lost: int,
    m: FrameMeasures,
    since: usize,
)
    requires
        since >= config.refresh_cadence_k,
    ensures
        refreshes(
            allowed_branch(profile, branch_for(config, lost, metrics_of(m, since), m.is_scene_cut)),
        ),
{
}

/// Points are seeded exactly on a frame that reacquires or refreshes and has a detection of
/// the detector that ran, the direct one first: half as many as are to be tracked.
pub proof fn lemma_seeding(branch: ExecutionBranch, m: FrameMeasures, target: usize)
    ensures
        ({
            let runs = branch is SemanticReacquisition || branch is SpecialistRefresh;
            let half = (target / 2) as usize;
            let direct = m.direct_count matches Some(d) && d > 0;
            let legacy = m.direct_count is None && (m.legacy_count matches Some(l) && l > 0);
            &&& seed_plan(branch, m, target) == SeedPlan::FirstDirect(half) <==> runs && direct
            &&& seed_plan(branch, m, target) == SeedPlan::FirstLegacy(half) <==> runs && legacy
            &&& seed_plan(branch, m, target) == SeedPlan::Nothing <==> !(runs && (direct || legacy))
        }),
{
}

/// A profile changes the router's choice only where it makes no dense repairs, and then to
/// a refresh. A detector's frame is observed, a repaired one inferred, and a fast one is
/// observed exactly where it is seen well enough; the stroke follows all of them.
pub proof fn lemma_branch_taken(
    profile: AdaptiveProfile,
    routed: ExecutionBranch,
    confident: bool,
    last: Level,
    smoothed: Level,
)
    ensures
        ({
            let branch = allowed_branch(profile, routed);
            let repairs = profile == AdaptiveProfile::DenseOffline || profile
                == AdaptiveProfile::GeometryHeavy3D;
            &&& branch == routed || (routed is DenseRepair && !repairs && branch
                is SpecialistRefresh)
            &&& branch is DenseRepair <==> routed is DenseRepair && repairs
        }),
        branch_observability(routed, confident) is Observed <==> routed is SemanticReacquisition
            || routed is SpecialistRefresh || (routed is FastTracking && confident),
        branch_observability(routed, confident) is Inferred <==> routed is DenseRepair || (
        routed is FastTracking && !confident),
        !(routed is UnresolvedInterval) ==> stroke_after(routed, last, smoothed) == smoothed,
        routed is UnresolvedInterval ==> stroke_after(routed, last, smoothed) == last,
{
}

/// The router is told what was measured of the frame, and how many frames have passed.
pub proof fn lemma_metrics(m: FrameMeasures, earlier: usize, later: usize)
    requires
        earlier <= later,
    ensures
        ({
            let told = metrics_of(m, frames_between(earlier as int, later as int));
            &&& told.frames_since_refresh + earlier == later
            &&& told.forward_backward_error == m.forward_backward_error
            &&& told.acceleration_jerk == m.acceleration_jerk
            &&& told.landmark_confidence == m.landmark_confidence
            &&& told.inside_hull == m.inside_hull
            &&& told.audio_transient_detected == m.audio_transient
        }),
{
}

/// A profile further up tracks no fewer points and refreshes more often.
pub proof fn lemma_profiles_ordered()
    ensures
        cadence_of(AdaptiveProfile::Economy) > cadence_of(AdaptiveProfile::BalancedSpecialist)
            > cadence_of(AdaptiveProfile::GenericDefault) > cadence_of(AdaptiveProfile::DenseOffline)
            > cadence_of(AdaptiveProfile::GeometryHeavy3D) > 0,
        0 < point_count_of(AdaptiveProfile::Economy) < point_count_of(
            AdaptiveProfile::BalancedSpecialist,
        ) < point_count_of(AdaptiveProfile::GenericDefault) < point_count_of(
            AdaptiveProfile::DenseOffline,
        ) <= point_count_of(AdaptiveProfile::GeometryHeavy3D),
{
}

} // verus!
