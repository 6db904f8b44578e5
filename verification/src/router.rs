//! Routes each frame to the branch of the tracker that its reliability calls for.
use crate::level::Level;
use vstd::prelude::*;

verus! {

/// The execution branch selected by the failure router based on confidence metrics.
#[derive(Debug, Clone, Copy, PartialEq, Eq, Structural)]
pub enum ExecutionBranch {
    /// Inexpensive continuous propagation (e.g. TAPNext++ / Lucas-Kanade flow).
    FastTracking,
    /// Fast tracking was uncertain or refresh cadence elapsed; run specialist detector/segmenter.
    SpecialistRefresh,
    /// Severe deformation or occlusion detected; invoke dense correspondence (e.g. CoWTracker).
    DenseRepair,
    /// Complete tracking loss or scene cut; perform open-vocabulary semantic reacquisition (SAM 3.1).
    SemanticReacquisition,
    /// Kinematically unobservable interval; motion is explicitly marked unresolved with uncertainty bounds.
    UnresolvedInterval,
}

impl Default for ExecutionBranch {
    fn default() -> (res: Self)
        ensures
            res == ExecutionBranch::FastTracking,
    {
        ExecutionBranch::FastTracking
    }
}

impl ExecutionBranch {
    pub fn badge_label(&self) -> (label: &'static str)
        ensures
            label@ == (match *self {
                ExecutionBranch::FastTracking => "⚡ FAST (TAPNext++/Flow)"@,
                ExecutionBranch::SpecialistRefresh => "🧠 REFRESH (RF-DETR/YOLO)"@,
                ExecutionBranch::DenseRepair => "🔍 DENSE REPAIR (CoWTracker)"@,
                ExecutionBranch::SemanticReacquisition => "🌟 REACQUISITION (SAM 3.1)"@,
                ExecutionBranch::UnresolvedInterval => "⚠️ UNRESOLVED INTERVAL"@,
            }),
    {
        match self {
            ExecutionBranch::FastTracking => "⚡ FAST (TAPNext++/Flow)",
            ExecutionBranch::SpecialistRefresh => "🧠 REFRESH (RF-DETR/YOLO)",
            ExecutionBranch::DenseRepair => "🔍 DENSE REPAIR (CoWTracker)",
            ExecutionBranch::SemanticReacquisition => "🌟 REACQUISITION (SAM 3.1)",
            ExecutionBranch::UnresolvedInterval => "⚠️ UNRESOLVED INTERVAL",
        }
    }

    pub fn is_fast(&self) -> (res: bool)
        ensures
            res == (*self is FastTracking),
    {
        matches!(self, ExecutionBranch::FastTracking)
    }
}

/// Real-time tracking metrics evaluated on each frame
#[derive(Debug, Clone, Copy, PartialEq, Eq, Structural)]
pub struct ConfidenceMetrics {
    /// Forward-backward cycle consistency error: || x - track_back(track_fwd(x)) ||
    pub forward_backward_error: Level,
    /// Second derivative of position (acceleration magnitude in normalized units / frame^2)
    pub acceleration_jerk: Level,
    /// Detector or point visibility confidence score in [0.0, 1.0]
    pub landmark_confidence: Level,
    /// Whether tracked points remain within the semantic organ bounding hull
    pub inside_hull: bool,
    /// Cross-modal audio impact flag (e.g. from spectral biquad transients)
    pub audio_transient_detected: bool,
    /// Number of consecutive frames since the last full semantic detector execution
    pub frames_since_refresh: usize,
}

/// Thresholds and configuration governing failure router decisions
#[derive(Debug, Clone, Copy, PartialEq, Eq, Structural)]
pub struct RouterConfig {
    /// Maximum allowable forward-backward cycle error before flagging drift
    pub max_fb_error: Level,
    /// Maximum kinematically plausible acceleration before flagging a tracking jump
    pub max_acceleration_jerk: Level,
    /// Confidence floor below which fast tracking is considered degraded
    pub min_confidence_floor: Level,
    /// Maximum frames between mandatory specialist refreshes (cadence k)
    pub refresh_cadence_k: usize,
    /// Hard limit on consecutive occluded/lost frames before triggering semantic reacquisition
    pub max_lost_frames_reacquisition: usize,
}

impl RouterConfig {
    /// The standard cadence and patience, with the given thresholds.
    pub fn with_thresholds(
        max_fb_error: Level,
        max_acceleration_jerk: Level,
        min_confidence_floor: Level,
    ) -> (res: Self)
        ensures
            res == (RouterConfig {
                max_fb_error,
                max_acceleration_jerk,
                min_confidence_floor,
                refresh_cadence_k: 30,
                max_lost_frames_reacquisition: 45,
            }),
    {
        RouterConfig {
            max_fb_error,
            max_acceleration_jerk,
            min_confidence_floor,
            refresh_cadence_k: 30,
            max_lost_frames_reacquisition: 45,
        }
    }
}

/// The raw bits of a pair of coordinates.
#[derive(Debug, Clone, Copy, PartialEq, Eq, Structural)]
pub struct CoordBits {
    pub x: u32,
    pub y: u32,
}

/// How often each branch was taken.
#[derive(Debug, Clone, Copy, PartialEq, Eq, Structural)]
pub struct RouterStats {
    pub total_frames: usize,
    pub fast: usize,
    pub refresh: usize,
    pub dense_repair: usize,
    pub reacquisition: usize,
    pub unresolved: usize,
}

impl RouterStats {
    /// Every frame was counted under exactly one branch.
    pub open spec fn consistent(self) -> bool {
        self.total_frames == self.fast + self.refresh + self.dense_repair + self.reacquisition
            + self.unresolved
    }

    /// How often a branch was taken.
    pub open spec fn of(self, branch: ExecutionBranch) -> usize {
        match branch {
            ExecutionBranch::FastTracking => self.fast,
            ExecutionBranch::SpecialistRefresh => self.refresh,
            ExecutionBranch::DenseRepair => self.dense_repair,
            ExecutionBranch::SemanticReacquisition => self.reacquisition,
            ExecutionBranch::UnresolvedInterval => self.unresolved,
        }
    }

    /// `next` counts one more frame than `self`, under `branch`.
    pub open spec fn counted(self, branch: ExecutionBranch, next: RouterStats) -> bool {
        &&& next.total_frames == self.total_frames + 1
        &&& forall|b: ExecutionBranch| #[trigger]
            next.of(b) == self.of(b) + if b == branch {
                1int
            } else {
                0int
            }
    }
}

/// Either kinematic sign of a tracking failure.
pub open spec fn is_divergent(config: RouterConfig, m: ConfidenceMetrics) -> bool {
    m.acceleration_jerk.key > config.max_acceleration_jerk.key || m.forward_backward_error.key
        > config.max_fb_error.key
}

/// The landmarks are seen poorly or lie outside the hull.
pub open spec fn is_degraded(config: RouterConfig, m: ConfidenceMetrics) -> bool {
    m.landmark_confidence.key < config.min_confidence_floor.key || !m.inside_hull
}

/// The branch of a frame, after `lost` lost frames in a row.
pub open spec fn branch_for(
    config: RouterConfig,
    lost: int,
    m: ConfidenceMetrics,
    is_scene_cut: bool,
) -> ExecutionBranch {
    if is_scene_cut || lost >= config.max_lost_frames_reacquisition {
        ExecutionBranch::SemanticReacquisition
    } else if m.frames_since_refresh >= config.refresh_cadence_k {
        ExecutionBranch::SpecialistRefresh
    } else if is_divergent(config, m) {
        if m.inside_hull {
            ExecutionBranch::DenseRepair
        } else {
            ExecutionBranch::SpecialistRefresh
        }
    } else if is_degraded(config, m) {
        if !m.audio_transient_detected && lost + 1 > 15 {
            ExecutionBranch::UnresolvedInterval
        } else {
            ExecutionBranch::SpecialistRefresh
        }
    } else {
        ExecutionBranch::FastTracking
    }
}

/// How many frames in a row are lost after a frame.
pub open spec fn lost_after(
    config: RouterConfig,
    lost: int,
    m: ConfidenceMetrics,
    is_scene_cut: bool,
) -> int {
    if is_scene_cut || lost >= config.max_lost_frames_reacquisition {
        0
    } else if m.frames_since_refresh >= config.refresh_cadence_k {
        lost
    } else if is_divergent(config, m) {
        if m.inside_hull {
            lost
        } else {
            lost + 1
        }
    } else if is_degraded(config, m) {
        lost + 1
    } else {
        0
    }
}

/// `window` followed by `item`, without its oldest entry where that makes more
/// than ten.
pub open spec fn pushed_window<T>(window: Seq<T>, item: T) -> Seq<T> {
    let longer = window.push(item);
    if longer.len() > 10 {
        longer.skip(1)
    } else {
        longer
    }
}

/// The history behind a frame: forgotten at a scene cut, otherwise kept.
pub open spec fn kept_unless(is_scene_cut: bool, history: Seq<CoordBits>) -> Seq<CoordBits> {
    if is_scene_cut {
        Seq::empty()
    } else {
        history
    }
}

/// The Confidence-Aware Failure Router that governs execution branch transitions.
#[derive(Debug)]
pub struct FailureRouter {
    pub config: RouterConfig,
    pub history_positions: Vec<CoordBits>,
    pub history_velocities: Vec<CoordBits>,
    pub consecutive_lost_frames: usize,
    pub stats: RouterStats,
}

impl FailureRouter {
    /// The counts add up, and the windows hold at most ten entries.
    pub open spec fn wf(&self) -> bool {
        &&& self.stats.consistent()
        &&& self.history_positions.len() <= 10
        &&& self.history_velocities.len() <= 10
    }

    pub fn new(config: RouterConfig) -> (res: Self)
        ensures
            res.wf(),
            res.config == config,
            res.history_positions.len() == 0,
            res.history_velocities.len() == 0,
            res.consecutive_lost_frames == 0,
            res.stats.total_frames == 0,
    {
        FailureRouter {
            config,
            history_positions: Vec::new(),
            history_velocities: Vec::new(),
            consecutive_lost_frames: 0,
            stats: RouterStats {
                total_frames: 0,
                fast: 0,
                refresh: 0,
                dense_repair: 0,
                reacquisition: 0,
                unresolved: 0,
            },
        }
    }

    /// Reset router state on scene transitions
    pub fn reset(&mut self)
        requires
            old(self).wf(),
        ensures
            final(self).wf(),
            final(self).history_positions.len() == 0,
            final(self).history_velocities.len() == 0,
            final(self).consecutive_lost_frames == 0,
            final(self).config == old(self).config,
            final(self).stats == old(self).stats,
    {
        self.history_positions.clear();
        self.history_velocities.clear();
        self.consecutive_lost_frames = 0;
    }

    /// The newest position that the derivatives are taken against.
    pub fn last_position(&self) -> (res: Option<CoordBits>)
        ensures
            res == (if self.history_positions.len() == 0 {
                None::<CoordBits>
            } else {
                Some(self.history_positions@.last())
            }),
    {
        if self.history_positions.len() == 0 {
            None
        } else {
            Some(self.history_positions[self.history_positions.len() - 1])
        }
    }

    /// The newest velocity that the acceleration is taken against.
    pub fn last_velocity(&self) -> (res: Option<CoordBits>)
        ensures
            res == (if self.history_velocities.len() == 0 {
                None::<CoordBits>
            } else {
                Some(self.history_velocities@.last())
            }),
    {
        if self.history_velocities.len() == 0 {
            None
        } else {
            Some(self.history_velocities[self.history_velocities.len() - 1])
        }
    }

    /// Remembers a new position and the velocity that led to it.
    pub fn update_kinematics(&mut self, position: CoordBits, velocity: CoordBits)
        requires
            old(self).wf(),
        ensures
            final(self).wf(),
            final(self).history_positions@ == pushed_window(
                old(self).history_positions@,
                position,
            ),
            final(self).history_velocities@ == pushed_window(
                old(self).history_velocities@,
                velocity,
            ),
            final(self).consecutive_lost_frames == old(self).consecutive_lost_frames,
            final(self).config == old(self).config,
            final(self).stats == old(self).stats,
    {
        push_window(&mut self.history_positions, position);
        push_window(&mut self.history_velocities, velocity);
    }

    /// Route frame to the optimal execution branch according to confidence metrics
    pub fn route_frame(&mut self, metrics: &ConfidenceMetrics, is_scene_cut: bool) -> (branch:
        ExecutionBranch)
        requires
            old(self).wf(),
            old(self).stats.total_frames < usize::MAX,
        ensures
            final(self).wf(),
            branch == branch_for(
                old(self).config,
                old(self).consecutive_lost_frames as int,
                *metrics,
                is_scene_cut,
            ),
            final(self).consecutive_lost_frames == lost_after(
                old(self).config,
                old(self).consecutive_lost_frames as int,
                *metrics,
                is_scene_cut,
            ),
            old(self).stats.counted(branch, final(self).stats),
            final(self).config == old(self).config,
            final(self).history_positions@ == kept_unless(
                is_scene_cut,
                old(self).history_positions@,
            ),
            final(self).history_velocities@ == kept_unless(
                is_scene_cut,
                old(self).history_velocities@,
            ),
    {
        self.stats.total_frames += 1;
        if is_scene_cut {
            self.history_positions.clear();
            self.history_velocities.clear();
            self.consecutive_lost_frames = 0;
            self.stats.reacquisition += 1;
            assert(self.history_positions@ =~= Seq::empty());
            assert(self.history_velocities@ =~= Seq::empty());
            return ExecutionBranch::SemanticReacquisition;
        }
        if self.consecutive_lost_frames >= self.config.max_lost_frames_reacquisition {
            self.consecutive_lost_frames = 0;
            self.stats.reacquisition += 1;
            return ExecutionBranch::SemanticReacquisition;
        }
        if metrics.frames_since_refresh >= self.config.refresh_cadence_k {
            self.stats.refresh += 1;
            return ExecutionBranch::SpecialistRefresh;
        }
        let is_jerk_divergent: bool = metrics.acceleration_jerk.above(
            self.config.max_acceleration_jerk,
        );
        let is_fb_inconsistent: bool = metrics.forward_backward_error.above(
            self.config.max_fb_error,
        );
        let is_confidence_low: bool = metrics.landmark_confidence.below(
            self.config.min_confidence_floor,
        );
        if is_jerk_divergent || is_fb_inconsistent {
            if metrics.inside_hull {
                self.stats.dense_repair += 1;
                ExecutionBranch::DenseRepair
            } else {
                self.consecutive_lost_frames += 1;
                self.stats.refresh += 1;
                ExecutionBranch::SpecialistRefresh
            }
        } else if is_confidence_low || !metrics.inside_hull {
            self.consecutive_lost_frames += 1;
            if metrics.audio_transient_detected {
                self.stats.refresh += 1;
                ExecutionBranch::SpecialistRefresh
            } else if self.consecutive_lost_frames > 15 {
                self.stats.unresolved += 1;
                ExecutionBranch::UnresolvedInterval
            } else {
                self.stats.refresh += 1;
                ExecutionBranch::SpecialistRefresh
            }
        } else {
            self.consecutive_lost_frames = 0;
            self.stats.fast += 1;
            ExecutionBranch::FastTracking
        }
    }

    /// Execution statistics summary
    pub fn execution_stats(&self) -> (res: RouterStats)
        ensures
            res == self.stats,
    {
        self.stats
    }
}

/// Appends to a window of at most ten entries, dropping the oldest.
pub fn push_window<T>(window: &mut Vec<T>, item: T)
    requires
        old(window).len() <= 10,
    ensures
        final(window)@ == pushed_window(old(window)@, item),
        final(window).len() <= 10,
{
    window.push(item);
    if window.len() > 10 {
        let _ = window.remove(0);
        assert(window@ =~= old(window)@.push(item).skip(1));
    }
}

/// Once as many frames in a row are lost as the patience allows, the next frame
/// is a semantic reacquisition, whatever it shows, and the count starts anew.
pub proof fn lemma_lost_frames_reacquire(
    config: RouterConfig,
    lost: int,
    m: ConfidenceMetrics,
    is_scene_cut: bool,
)
    requires
        lost >= config.max_lost_frames_reacquisition,
    ensures
        branch_for(config, lost, m, is_scene_cut) == ExecutionBranch::SemanticReacquisition,
        lost_after(config, lost, m, is_scene_cut) == 0,
{
}

/// The fast path is taken exactly where nothing speaks against it, and it ends
/// every run of lost frames.
pub proof fn lemma_fast_path(config: RouterConfig, lost: int, m: ConfidenceMetrics, cut: bool)
    requires
        0 <= lost,
    ensures
        branch_for(config, lost, m, cut) == ExecutionBranch::FastTracking <==> {
            &&& !cut
            &&& lost < config.max_lost_frames_reacquisition
            &&& m.frames_since_refresh < config.refresh_cadence_k
            &&& !is_divergent(config, m)
            &&& !is_degraded(config, m)
        },
        branch_for(config, lost, m, cut) == ExecutionBranch::FastTracking ==> lost_after(
            config,
            lost,
            m,
            cut,
        ) == 0,
{
}

/// Each branch is taken for its own reasons. A cut or too many lost frames ask for a
/// reacquisition. Before that, a frame with its refresh not yet due that jerks, or that the
/// flow back does not confirm, is repaired inside the hull and refreshed outside; one that
/// is only seen poorly, or from outside the hull, is refreshed, or given up as unresolved
/// after more than fifteen lost frames without an audio transient.
pub proof fn lemma_branch_reasons(
    config: RouterConfig,
    lost: int,
    m: ConfidenceMetrics,
    is_scene_cut: bool,
)
    ensures
        ({
            let branch = branch_for(config, lost, m, is_scene_cut);
            let gone = is_scene_cut || lost >= config.max_lost_frames_reacquisition;
            let due = m.frames_since_refresh >= config.refresh_cadence_k;
            let jerks = m.acceleration_jerk.key > config.max_acceleration_jerk.key;
            let unconfirmed = m.forward_backward_error.key > config.max_fb_error.key;
            let poor = m.landmark_confidence.key < config.min_confidence_floor.key;
            &&& branch == ExecutionBranch::SemanticReacquisition <==> gone
            &&& branch == ExecutionBranch::DenseRepair <==> !gone && !due && (jerks || unconfirmed)
                && m.inside_hull
            &&& branch == ExecutionBranch::UnresolvedInterval <==> !gone && !due && !jerks
                && !unconfirmed && (poor || !m.inside_hull) && !m.audio_transient_detected && lost
                >= 15
            &&& branch == ExecutionBranch::FastTracking <==> !gone && !due && !jerks && !unconfirmed
                && !poor && m.inside_hull
        }),
{
}

/// The count of lost frames starts anew on a reacquisition and on the fast path, stays on a
/// repair and on a refresh that was due, and goes up by one on every other frame.
pub proof fn lemma_lost_frames(
    config: RouterConfig,
    lost: int,
    m: ConfidenceMetrics,
    is_scene_cut: bool,
)
    ensures
        ({
            let after = lost_after(config, lost, m, is_scene_cut);
            match branch_for(config, lost, m, is_scene_cut) {
                ExecutionBranch::SemanticReacquisition => after == 0,
                ExecutionBranch::FastTracking => after == 0,
                ExecutionBranch::DenseRepair => after == lost,
                ExecutionBranch::UnresolvedInterval => after == lost + 1,
                ExecutionBranch::SpecialistRefresh => if m.frames_since_refresh
                    >= config.refresh_cadence_k {
                    after == lost
                } else {
                    after == lost + 1
                },
            }
        }),
{
}

/// A window keeps the ten newest entries in their order, the new one last.
pub proof fn lemma_window_of_ten<T>(window: Seq<T>, item: T)
    requires
        window.len() <= 10,
    ensures
        ({
            let after = pushed_window(window, item);
            let kept = if window.len() < 10 {
                window.len() as int
            } else {
                9
            };
            &&& after.len() == kept + 1
            &&& after.last() == item
            &&& after.take(kept) == window.skip(window.len() - kept)
        }),
{
    let after = pushed_window(window, item);
    let kept = after.len() - 1;
    assert(after.take(kept) =~= window.skip(window.len() - kept));
}

} // verus!
