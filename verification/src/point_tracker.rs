//! Sparse points tracked over a sliding window of frames: where they are
//! seeded, how their trajectories grow and when they are dropped.
use crate::level::Level;
use crate::router::CoordBits;
use vstd::prelude::*;

verus! {

/// One entry of a trajectory's history.
#[derive(Debug, Clone, Copy, PartialEq, Eq, Structural)]
pub struct HistoryPoint {
    pub timestamp_ms: i64,
    pub pos: CoordBits,
}

/// State of an individual sparse tracked point
#[derive(Debug)]
pub struct PointTrajectory {
    pub point_id: usize,
    /// Normalized coordinates (x, y)
    pub current_pos: CoordBits,
    /// Visibility probability
    pub visibility: Level,
    /// Confidence score
    pub confidence: Level,
    /// Trajectory coordinate history
    pub history: Vec<HistoryPoint>,
    /// Semantic anatomical tag (e.g. "probe_tip", "shaft", "orifice_rim", "surface_grid")
    pub tag: String,
}

/// The contents of a [`PointTrajectory`].
#[verifier::ext_equal]
pub struct TrajectoryView {
    pub point_id: int,
    pub current_pos: CoordBits,
    pub visibility: Level,
    pub confidence: Level,
    pub history: Seq<HistoryPoint>,
    pub tag: Seq<char>,
}

impl View for PointTrajectory {
    type V = TrajectoryView;

    open spec fn view(&self) -> TrajectoryView {
        TrajectoryView {
            point_id: self.point_id as int,
            current_pos: self.current_pos,
            visibility: self.visibility,
            confidence: self.confidence,
            history: self.history@,
            tag: self.tag@,
        }
    }
}

/// A trajectory that has just been seeded, with full visibility and confidence.
pub open spec fn seeded(id: int, pos: CoordBits, tag: Seq<char>, full: Level) -> TrajectoryView {
    TrajectoryView {
        point_id: id,
        current_pos: pos,
        visibility: full,
        confidence: full,
        history: Seq::empty(),
        tag,
    }
}

impl PointTrajectory {
    /// A new point; `full` is the level of full visibility and confidence.
    pub fn new(point_id: usize, pos: CoordBits, tag: &str, full: Level) -> (res: Self)
        ensures
            res@ == seeded(point_id as int, pos, tag@, full),
    {
        let res = PointTrajectory {
            point_id,
            current_pos: pos,
            visibility: full,
            confidence: full,
            history: Vec::new(),
            tag: tag.to_owned(),
        };
        assert(res@ =~= seeded(point_id as int, pos, tag@, full));
        res
    }

    /// Check if point is currently visible and confident
    pub fn is_active(&self, min_visibility: Level, min_confidence: Level) -> (res: bool)
        ensures
            res == active(self@, min_visibility, min_confidence),
    {
        !self.visibility.below(min_visibility) && !self.confidence.below(min_confidence)
    }
}

/// Visibility and confidence reach their floors.
pub open spec fn active(t: TrajectoryView, min_visibility: Level, min_confidence: Level) -> bool {
    t.visibility.key >= min_visibility.key && t.confidence.key >= min_confidence.key
}

/// Configuration for the point tracker
#[derive(Debug, Clone, Copy, PartialEq, Eq, Structural)]
pub struct TapTrackerConfig {
    /// Target number of sparse points to maintain simultaneously (default: 64)
    pub target_point_count: usize,
    /// Sliding window length in frames for trajectory smoothing and cycle checking (default: 32)
    pub window_size: usize,
    /// Minimum visibility probability to consider point non-occluded
    pub visibility_threshold: Level,
    /// Maximum allowed forward-backward cycle error before marking point unreliable
    pub max_cycle_error: Level,
    /// Whether to use neural tracking if the model is loaded (default: false)
    pub use_neural: bool,
}

impl TapTrackerConfig {
    /// The standard counts, with the given thresholds.
    pub fn with_thresholds(visibility_threshold: Level, max_cycle_error: Level) -> (res: Self)
        ensures
            res == (TapTrackerConfig {
                target_point_count: 64,
                window_size: 32,
                visibility_threshold,
                max_cycle_error,
                use_neural: false,
            }),
    {
        TapTrackerConfig {
            target_point_count: 64,
            window_size: 32,
            visibility_threshold,
            max_cycle_error,
            use_neural: false,
        }
    }
}

/// What a frame brings for one point.
#[derive(Debug, Clone, Copy, PartialEq, Eq, Structural)]
pub struct PointUpdate {
    pub pos: CoordBits,
    pub visibility: Level,
}

/// `history` followed by `point`, without its oldest entry where that makes
/// more than `size`.
pub open spec fn windowed(history: Seq<HistoryPoint>, point: HistoryPoint, size: nat) -> Seq<
    HistoryPoint,
> {
    let longer = history.push(point);
    if longer.len() > size {
        longer.skip(1)
    } else {
        longer
    }
}

/// A trajectory one frame later.
pub open spec fn advanced(
    t: TrajectoryView,
    update: PointUpdate,
    timestamp_ms: i64,
    window: nat,
) -> TrajectoryView {
    TrajectoryView {
        current_pos: update.pos,
        visibility: update.visibility,
        history: windowed(t.history, HistoryPoint { timestamp_ms, pos: update.pos }, window),
        ..t
    }
}

/// The trajectories one frame later.
pub open spec fn stepped(
    trajectories: Seq<TrajectoryView>,
    updates: Seq<PointUpdate>,
    timestamp_ms: i64,
    window: nat,
) -> Seq<TrajectoryView> {
    Seq::new(
        trajectories.len(),
        |i: int| advanced(trajectories[i], updates[i], timestamp_ms, window),
    )
}

/// A frame keeps the number and order of the points, their ids and tags, and the length
/// of their histories within the window. Whatever holds of every update's place and
/// visibility holds of the points afterwards. No more points are occluded than there
/// are, and none where there are none.
pub proof fn lemma_stepped(
    trajectories: Seq<TrajectoryView>,
    updates: Seq<PointUpdate>,
    timestamp_ms: i64,
    window: nat,
    threshold: Level,
    bounds: spec_fn(CoordBits, Level) -> bool,
)
    requires
        updates.len() == trajectories.len(),
        forall|i: int|
            0 <= i < trajectories.len() ==> (#[trigger] trajectories[i]).history.len() <= window,
        forall|i: int|
            0 <= i < updates.len() ==> bounds((#[trigger] updates[i]).pos, updates[i].visibility),
    ensures
        ({
            let after = stepped(trajectories, updates, timestamp_ms, window);
            &&& after.len() == trajectories.len()
            &&& forall|i: int|
                0 <= i < after.len() ==> {
                    let t = #[trigger] after[i];
                    &&& t.point_id == trajectories[i].point_id
                    &&& t.tag == trajectories[i].tag
                    &&& t.history.len() <= window
                    &&& bounds(t.current_pos, t.visibility)
                }
            &&& occluded_count(updates, threshold, updates.len()) <= after.len()
            &&& after.len() == 0 ==> occluded_count(updates, threshold, updates.len()) == 0
        }),
{
    lemma_occluded_below(updates, threshold, updates.len());
    let after = stepped(trajectories, updates, timestamp_ms, window);
    assert forall|i: int| 0 <= i < after.len() implies {
        let t = #[trigger] after[i];
        &&& t.point_id == trajectories[i].point_id
        &&& t.tag == trajectories[i].tag
        &&& t.history.len() <= window
        &&& bounds(t.current_pos, t.visibility)
    } by {
        assert(trajectories[i].history.len() <= window);
        assert(bounds(updates[i].pos, updates[i].visibility));
    }
}

proof fn lemma_occluded_below(updates: Seq<PointUpdate>, threshold: Level, n: nat)
    ensures
        occluded_count(updates, threshold, n) <= n,
    decreases n,
{
    if n > 0 {
        lemma_occluded_below(updates, threshold, (n - 1) as nat);
    }
}

/// How many of the first `n` updates fall below the visibility threshold.
pub open spec fn occluded_count(updates: Seq<PointUpdate>, threshold: Level, n: nat) -> nat
    decreases n,
{
    if n == 0 {
        0
    } else {
        occluded_count(updates, threshold, (n - 1) as nat) + if updates[n - 1].visibility.key
            < threshold.key {
            1nat
        } else {
            0nat
        }
    }
}

/// The contents of a list of trajectories.
pub open spec fn trajectory_views(s: Seq<PointTrajectory>) -> Seq<TrajectoryView> {
    s.map_values(|t: PointTrajectory| t@)
}

/// Ids increase along the list and stay below the next one.
pub open spec fn ids_fresh(s: Seq<TrajectoryView>, next: int) -> bool {
    &&& forall|i: int, j: int| 0 <= i < j < s.len() ==> s[i].point_id < s[j].point_id
    &&& forall|i: int| 0 <= i < s.len() ==> (#[trigger] s[i]).point_id < next
}

/// The trajectories of newly seeded points, with ids from `next` on.
pub open spec fn seeds(points: Seq<CoordBits>, next: int, tag: Seq<char>, full: Level) -> Seq<
    TrajectoryView,
> {
    Seq::new(points.len(), |k: int| seeded(next + k, points[k], tag, full))
}

/// Sparse point tracking engine
#[derive(Debug)]
pub struct TapPointTracker {
    pub config: TapTrackerConfig,
    pub trajectories: Vec<PointTrajectory>,
    pub next_point_id: usize,
}

impl TapPointTracker {
    pub fn new(config: TapTrackerConfig) -> (res: Self)
        ensures
            res.config == config,
            res.trajectories.len() == 0,
            res.next_point_id == 0,
    {
        TapPointTracker { config, trajectories: Vec::new(), next_point_id: 0 }
    }

    /// Reset all trajectories
    pub fn clear(&mut self)
        ensures
            final(self).config == old(self).config,
            final(self).trajectories.len() == 0,
            final(self).next_point_id == 0,
    {
        self.trajectories.clear();
        self.next_point_id = 0;
    }

    /// Appends a new point at each of the given places.
    pub fn seed(&mut self, points: &Vec<CoordBits>, tag: &str, full: Level)
        requires
            old(self).next_point_id + points.len() <= usize::MAX,
        ensures
            final(self).config == old(self).config,
            final(self).next_point_id == old(self).next_point_id + points.len(),
            trajectory_views(final(self).trajectories@) == trajectory_views(
                old(self).trajectories@,
            ) + seeds(points@, old(self).next_point_id as int, tag@, full),
            ids_fresh(
                trajectory_views(old(self).trajectories@),
                old(self).next_point_id as int,
            ) ==> ids_fresh(
                trajectory_views(final(self).trajectories@),
                final(self).next_point_id as int,
            ),
    {
        let mut k: usize = 0;
        let ghost before = trajectory_views(self.trajectories@);
        let ghost all = seeds(points@, self.next_point_id as int, tag@, full);
        assert(before =~= before + all.take(0));
        while k < points.len()
            invariant
                k <= points.len(),
                self.config == old(self).config,
                self.next_point_id == old(self).next_point_id + k,
                old(self).next_point_id + points.len() <= usize::MAX,
                all == seeds(points@, old(self).next_point_id as int, tag@, full),
                trajectory_views(self.trajectories@) == before + all.take(k as int),
            decreases points.len() - k,
        {
            let ghost prior = self.trajectories@;
            self.trajectories.push(
                PointTrajectory::new(self.next_point_id, points[k], tag, full),
            );
            proof {
                assert(trajectory_views(self.trajectories@) =~= trajectory_views(prior).push(
                    all[k as int],
                ));
                assert(before + all.take(k + 1) =~= (before + all.take(k as int)).push(
                    all[k as int],
                ));
            }
            self.next_point_id += 1;
            k += 1;
        }
        assert(all.take(k as int) =~= all);
    }

    /// Advance point trajectories by one frame: `updates[i]` is where point `i`
    /// moved and how visible it is there. Returns how many points are occluded.
    pub fn step_frame(&mut self, updates: &Vec<PointUpdate>, timestamp_ms: i64) -> (occluded: usize)
        requires
            updates.len() == old(self).trajectories.len(),
        ensures
            final(self).config == old(self).config,
            final(self).next_point_id == old(self).next_point_id,
            occluded == occluded_count(
                updates@,
                old(self).config.visibility_threshold,
                updates@.len(),
            ),
            trajectory_views(final(self).trajectories@) == stepped(
                trajectory_views(old(self).trajectories@),
                updates@,
                timestamp_ms,
                old(self).config.window_size as nat,
            ),
    {
        let mut occluded: usize = 0;
        let n: usize = self.trajectories.len();
        let mut i: usize = 0;
        while i < n
            invariant
                i <= n,
                n == updates.len(),
                n == self.trajectories.len(),
                n == old(self).trajectories.len(),
                self.config == old(self).config,
                self.next_point_id == old(self).next_point_id,
                occluded <= i,
                occluded == occluded_count(
                    updates@,
                    self.config.visibility_threshold,
                    i as nat,
                ),
                forall|k: int|
                    0 <= k < n ==> (#[trigger] self.trajectories@[k])@ == (if k < i {
                        advanced(
                            old(self).trajectories@[k]@,
                            updates@[k],
                            timestamp_ms,
                            self.config.window_size as nat,
                        )
                    } else {
                        old(self).trajectories@[k]@
                    }),
            decreases n - i,
        {
            let update: PointUpdate = updates[i];
            let window: usize = self.config.window_size;
            if update.visibility.below(self.config.visibility_threshold) {
                occluded += 1;
            }
            let ghost prior = self.trajectories@[i as int]@;
            let t: &mut PointTrajectory = &mut self.trajectories[i];
            t.current_pos = update.pos;
            t.visibility = update.visibility;
            t.history.push(HistoryPoint { timestamp_ms, pos: update.pos });
            if t.history.len() > window {
                let _ = t.history.remove(0);
            }
            assert(t.history@ =~= windowed(
                prior.history,
                HistoryPoint { timestamp_ms, pos: update.pos },
                window as nat,
            ));
            assert(t@ =~= advanced(prior, update, timestamp_ms, window as nat));
            i += 1;
        }
        occluded
    }

    /// Prune dead trajectories, those not above `floor` in visibility and in
    /// confidence. Returns how many points have to be seeded: what is missing
    /// to the target where less than half of it is left and there is a box to
    /// seed from, otherwise none.
    pub fn prune_and_reseed(&mut self, floor: Level, has_reseed_box: bool) -> (deficit: usize)
        ensures
            final(self).config == old(self).config,
            final(self).next_point_id == old(self).next_point_id,
            trajectory_views(final(self).trajectories@) == trajectory_views(
                old(self).trajectories@,
            ).filter(|t: TrajectoryView| alive(t, floor)),
            trajectory_views(final(self).trajectories@) == pruned(
                trajectory_views(old(self).trajectories@),
                floor,
            ),
            deficit == (if has_reseed_box && final(self).trajectories.len() < old(
                self,
            ).config.target_point_count / 2 {
                old(self).config.target_point_count - final(self).trajectories.len()
            } else {
                0
            }),
    {
        let ghost before = trajectory_views(self.trajectories@);
        let ghost keep = |t: TrajectoryView| alive(t, floor);
        let mut i: usize = 0;
        let ghost mut seen: int = 0;
        proof {
            reveal(Seq::filter);
            assert(before.take(0).filter(keep) =~= Seq::empty());
            assert(trajectory_views(self.trajectories@) =~= before.take(0).filter(keep)
                + before.skip(0));
        }
        while i < self.trajectories.len()
            invariant
                self.config == old(self).config,
                self.next_point_id == old(self).next_point_id,
                keep == (|t: TrajectoryView| alive(t, floor)),
                before == trajectory_views(old(self).trajectories@),
                i <= self.trajectories.len(),
                0 <= seen <= before.len(),
                before.take(seen).filter(keep).len() == i,
                trajectory_views(self.trajectories@) == before.take(seen).filter(keep)
                    + before.skip(seen),
            decreases self.trajectories.len() - i,
        {
            let ghost views = trajectory_views(self.trajectories@);
            let ghost head = before.take(seen).filter(keep);
            let live: bool = self.trajectories[i].visibility.above(floor)
                && self.trajectories[i].confidence.above(floor);
            proof {
                reveal(Seq::filter);
                assert(views[i as int] == before.skip(seen)[0]);
                assert(before[seen] == views[i as int]);
                assert(before.take(seen + 1).drop_last() =~= before.take(seen));
                assert(before.take(seen + 1).last() == before[seen]);
            }
            if live {
                i += 1;
                assert(before.take(seen + 1).filter(keep) + before.skip(seen + 1) =~= views);
            } else {
                let _ = self.trajectories.remove(i);
                assert(trajectory_views(self.trajectories@) =~= views.remove(i as int));
                assert(before.take(seen + 1).filter(keep) + before.skip(seen + 1)
                    =~= views.remove(i as int));
            }
            proof {
                seen = seen + 1;
            }
        }
        proof {
            assert(before.skip(seen).len() == 0);
            assert(before.take(seen) =~= before);
            assert(trajectory_views(self.trajectories@) =~= before.filter(keep));
        }
        let left: usize = self.trajectories.len();
        if has_reseed_box && left < self.config.target_point_count / 2 {
            self.config.target_point_count - left
        } else {
            0
        }
    }
}

/// Both visibility and confidence are above the floor.
pub open spec fn alive(t: TrajectoryView, floor: Level) -> bool {
    t.visibility.key > floor.key && t.confidence.key > floor.key
}

/// The trajectories that are alive, in their order.
pub open spec fn pruned(s: Seq<TrajectoryView>, floor: Level) -> Seq<TrajectoryView> {
    s.filter(|t: TrajectoryView| alive(t, floor))
}

/// The cells of a square grid of the given side, row by row, at most `count`.
pub open spec fn grid_cells(side: nat, count: nat) -> Seq<(int, int)> {
    Seq::new(
        if count < side * side {
            count
        } else {
            side * side
        },
        |k: int| (k % side as int, k / side as int),
    )
}

/// The bright pixels among the even columns below `nx` of row `y`.
pub open spec fn row_candidates(mask: Seq<u8>, width: int, y: int, nx: nat) -> Seq<(int, int)>
    decreases nx,
{
    if nx == 0 {
        Seq::empty()
    } else {
        let x = nx - 1;
        let left = row_candidates(mask, width, y, (nx - 1) as nat);
        if x % 2 == 0 && mask[y * width + x] > 100 {
            left.push((x, y))
        } else {
            left
        }
    }
}

/// The bright pixels at even places of the rows below `ny`, row by row.
pub open spec fn mask_candidates(mask: Seq<u8>, width: nat, ny: nat) -> Seq<(int, int)>
    decreases ny,
{
    if ny == 0 {
        Seq::empty()
    } else {
        let above = mask_candidates(mask, width, (ny - 1) as nat);
        if (ny - 1) % 2 == 0 {
            above + row_candidates(mask, width as int, ny - 1, width)
        } else {
            above
        }
    }
}

/// Every `step`-th entry from the first on, at most `count`.
pub open spec fn thinned(s: Seq<(int, int)>, step: nat, count: nat) -> Seq<(int, int)> {
    let n = (s.len() + step - 1) / step as int;
    Seq::new(
        if count < n {
            count
        } else {
            n as nat
        },
        |k: int| s[k * step],
    )
}

/// How far apart seeds are taken from `n` candidates.
pub open spec fn seed_step(n: nat, count: nat) -> nat {
    if n / count < 1 {
        1
    } else {
        n / count
    }
}

/// The even pixels of the image lie inside the mask.
pub open spec fn mask_covers(mask_len: int, width: int, height: int) -> bool {
    forall|x: int, y: int|
        #![trigger y * width + x]
        0 <= x < width && 0 <= y < height && x % 2 == 0 && y % 2 == 0 ==> y * width + x < mask_len
}

/// The contents of a list of pixels.
pub open spec fn pixel_views(s: Seq<(usize, usize)>) -> Seq<(int, int)> {
    s.map_values(|p: (usize, usize)| (p.0 as int, p.1 as int))
}

impl TapPointTracker {
    /// The cells of a square grid in which `count` points are seeded, row by row.
    pub fn seed_from_bbox(side: usize, count: usize) -> (cells: Vec<(usize, usize)>)
        requires
            side * side <= usize::MAX,
        ensures
            cells.len() == grid_cells(side as nat, count as nat).len(),
            forall|k: int|
                0 <= k < cells.len() ==> ((#[trigger] cells@[k]).0 as int, cells@[k].1 as int)
                    == grid_cells(side as nat, count as nat)[k],
    {
        let mut cells: Vec<(usize, usize)> = Vec::new();
        let total: usize = side * side;
        let most: usize = if count < total {
            count
        } else {
            total
        };
        let mut gx: usize = 0;
        let mut gy: usize = 0;
        let mut k: usize = 0;
        assert(0 * side == 0) by (nonlinear_arith);
        while k < most
            invariant
                k <= most,
                most <= side * side,
                cells.len() == k,
                k == gy * side + gx,
                side > 0 ==> gx < side,
                forall|j: int|
                    0 <= j < k ==> (#[trigger] cells@[j]).0 == j % (side as int) && cells@[j].1 == j / (
                    side as int),
            decreases most - k,
        {
            proof {
                assert(side > 0) by (nonlinear_arith)
                    requires
                        side * side > 0,
                        side >= 0,
                ;
                vstd::arithmetic::div_mod::lemma_fundamental_div_mod_converse(
                    k as int,
                    side as int,
                    gy as int,
                    gx as int,
                );
                assert(gy < side) by (nonlinear_arith)
                    requires
                        gy * side + gx < side * side,
                        gx >= 0,
                        side > 0,
                ;
            }
            cells.push((gx, gy));
            k += 1;
            gx += 1;
            if gx == side {
                assert((gy + 1) * side == gy * side + side) by (nonlinear_arith);
                gx = 0;
                gy += 1;
            }
        }
        cells
    }

    /// The pixels, as column and row, at which points are seeded within the bright
    /// pixels of a mask.
    pub fn seed_from_mask(mask: &Vec<u8>, width: usize, height: usize, count: usize) -> (pixels: Vec<
        (usize, usize),
    >)
        requires
            mask.len() == 0 || mask_covers(mask.len() as int, width as int, height as int),
            mask.len() > 0 && count == 0 ==> mask_candidates(mask@, width as nat, height as nat).len()
                == 0,
        ensures
            ({
                let candidates = mask_candidates(mask@, width as nat, height as nat);
                if mask.len() == 0 || width == 0 || height == 0 || candidates.len() == 0 {
                    pixels.len() == 0
                } else {
                    pixel_views(pixels@) == thinned(
                        candidates,
                        seed_step(candidates.len(), count as nat),
                        count as nat,
                    )
                }
            }),
    {
        let mut pixels: Vec<(usize, usize)> = Vec::new();
        if mask.len() == 0 || width == 0 || height == 0 {
            return pixels;
        }
        let candidates: Vec<(usize, usize)> = collect_candidates(mask, width, height);
        let n: usize = candidates.len();
        let ghost views = pixel_views(candidates@);
        if n == 0 {
            return pixels;
        }
        let step: usize = if n / count < 1 {
            1
        } else {
            n / count
        };
        let ghost chosen = thinned(views, step as nat, count as nat);
        let mut i: usize = 0;
        let mut k: usize = 0;
        assert(0 * step == 0) by (nonlinear_arith);
        while i < n && k < count
            invariant
                step >= 1,
                n == views.len(),
                views == pixel_views(candidates@),
                n == candidates.len(),
                chosen == thinned(views, step as nat, count as nat),
                k <= count,
                i == k * step || (i == n && n <= k * step),
                i <= n,
                (k - 1) * step < n,
                pixels.len() == k,
                forall|j: int|
                    0 <= j < k ==> ((#[trigger] pixels@[j]).0 as int, pixels@[j].1 as int) == views[j
                        * step],
            decreases count - k,
        {
            proof {
                assert(i == k * step);
                assert(views[i as int] == (candidates@[i as int].0 as int, candidates@[i as int].1 as int));
                assert((k + 1) * step == k * step + step) by (nonlinear_arith);
            }
            pixels.push(candidates[i]);
            k += 1;
            i = if step < n - i {
                i + step
            } else {
                n
            };
        }
        proof {
            assert(chosen.len() == k) by {
                let m = (n + step - 1) / step as int;
                assert(k - 1 < m && (i < n || m <= k)) by {
                    vstd::arithmetic::div_mod::lemma_fundamental_div_mod(n + step - 1, step as int);
                    let r = (n + step - 1) % step as int;
                    assert(n + step - 1 == step * m + r);
                    assert(0 <= r < step);
                    assert(k - 1 < m) by (nonlinear_arith)
                        requires
                            (k - 1) * step < n,
                            n + step - 1 == step * m + r,
                            0 <= r < step,
                            step >= 1,
                    ;
                    if i >= n {
                        assert(m <= k) by (nonlinear_arith)
                            requires
                                n <= k * step,
                                n + step - 1 == step * m + r,
                                0 <= r < step,
                                step >= 1,
                        ;
                    }
                }
            }
            assert(pixel_views(pixels@) =~= chosen);
        }
        pixels
    }
}

fn collect_candidates(mask: &Vec<u8>, width: usize, height: usize) -> (candidates: Vec<
    (usize, usize),
>)
    requires
        mask_covers(mask.len() as int, width as int, height as int),
        width > 0,
    ensures
        pixel_views(candidates@) == mask_candidates(mask@, width as nat, height as nat),
{
    let mut candidates: Vec<(usize, usize)> = Vec::new();
    let mut y: usize = 0;
    assert(pixel_views(candidates@) =~= Seq::empty());
    while y < height
        invariant
            y <= height,
            width > 0,
            mask_covers(mask.len() as int, width as int, height as int),
            pixel_views(candidates@) == mask_candidates(mask@, width as nat, y as nat),
        decreases height - y,
    {
        if y % 2 == 0 {
            let ghost above = pixel_views(candidates@);
            let mut x: usize = 0;
            assert(above + row_candidates(mask@, width as int, y as int, 0) =~= above);
            while x < width
                invariant
                    x <= width,
                    y < height,
                    y % 2 == 0,
                    mask_covers(mask.len() as int, width as int, height as int),
                    pixel_views(candidates@) == above + row_candidates(
                        mask@,
                        width as int,
                        y as int,
                        x as nat,
                    ),
                decreases width - x,
            {
                if x % 2 == 0 {
                    assert(y * width + x < mask.len());
                    assert(0 <= y * width) by (nonlinear_arith)
                        requires
                            y >= 0,
                            width >= 0,
                    ;
                    let value: u8 = mask[y * width + x];
                    if value > 100 {
                        let ghost prior = candidates@;
                        candidates.push((x, y));
                        assert(pixel_views(candidates@) =~= pixel_views(prior).push(
                            (x as int, y as int),
                        ));
                        assert(pixel_views(candidates@) =~= above + row_candidates(
                            mask@,
                            width as int,
                            y as int,
                            (x + 1) as nat,
                        ));
                    }
                }
                x += 1;
            }
        }
        y += 1;
    }
    candidates
}

/// After a frame a point stands where the frame has put it, with the visibility seen there;
/// its confidence, id and tag stay. The new place is the last of its history, behind the
/// older ones in their order, of which only as many as the window lacks are forgotten.
pub proof fn lemma_step_of_point(
    trajectories: Seq<TrajectoryView>,
    updates: Seq<PointUpdate>,
    timestamp_ms: i64,
    window: nat,
    i: int,
)
    requires
        updates.len() == trajectories.len(),
        0 <= i < trajectories.len(),
        trajectories[i].history.len() <= window,
        window > 0,
    ensures
        ({
            let before = trajectories[i];
            let after = stepped(trajectories, updates, timestamp_ms, window)[i];
            let kept = if before.history.len() < window {
                before.history.len() as int
            } else {
                window - 1
            };
            &&& after.current_pos == updates[i].pos
            &&& after.visibility == updates[i].visibility
            &&& after.confidence == before.confidence
            &&& after.point_id == before.point_id
            &&& after.tag == before.tag
            &&& after.history.len() == kept + 1
            &&& after.history.last().timestamp_ms == timestamp_ms
            &&& after.history.last().pos == updates[i].pos
            &&& after.history.take(kept) == before.history.skip(before.history.len() - kept)
        }),
{
    let before = trajectories[i];
    let after = stepped(trajectories, updates, timestamp_ms, window)[i];
    let kept = after.history.len() - 1;
    assert(after.history.take(kept) =~= before.history.skip(before.history.len() - kept));
}

/// The points among the first `n` that a frame shows too faintly.
pub open spec fn faint_points(updates: Seq<PointUpdate>, threshold: Level, n: nat) -> Set<int> {
    Set::new(|i: int| 0 <= i < n && updates[i].visibility.key < threshold.key)
}

/// As many points count as occluded as are seen below the threshold.
pub proof fn lemma_occluded_are_faint(updates: Seq<PointUpdate>, threshold: Level, n: nat)
    ensures
        faint_points(updates, threshold, n).finite(),
        occluded_count(updates, threshold, n) == faint_points(updates, threshold, n).len(),
    decreases n,
{
    let all = faint_points(updates, threshold, n);
    if n == 0 {
        assert(all =~= Set::empty());
    } else {
        let fewer = faint_points(updates, threshold, (n - 1) as nat);
        lemma_occluded_are_faint(updates, threshold, (n - 1) as nat);
        if updates[n - 1].visibility.key < threshold.key {
            assert(all =~= fewer.insert(n - 1));
        } else {
            assert(all =~= fewer);
        }
    }
}

/// The points above the floor both in visibility and in confidence stay, in their order,
/// and no others; without one below or at it, all stay.
pub proof fn lemma_pruned(s: Seq<TrajectoryView>, floor: Level)
    ensures
        forall|t: TrajectoryView|
            #[trigger] pruned(s, floor).contains(t) <==> s.contains(t) && t.visibility.key
                > floor.key && t.confidence.key > floor.key,
        forall|next: int| #[trigger] ids_fresh(s, next) ==> ids_fresh(pruned(s, floor), next),
        (forall|i: int|
            0 <= i < s.len() ==> (#[trigger] s[i]).visibility.key > floor.key && s[i].confidence.key
                > floor.key) ==> pruned(s, floor) == s,
    decreases s.len(),
{
    reveal(Seq::filter);
    let r = pruned(s, floor);
    if s.len() == 0 {
        assert(r =~= s);
    } else {
        let d = s.drop_last();
        let head = pruned(d, floor);
        lemma_pruned(d, floor);
        let last = s.last();
        let kept = last.visibility.key > floor.key && last.confidence.key > floor.key;
        assert(r == if kept {
            head.push(last)
        } else {
            head
        });
        assert forall|t: TrajectoryView| #[trigger] r.contains(t) <==> s.contains(t)
            && t.visibility.key > floor.key && t.confidence.key > floor.key by {
            assert(s =~= d.push(last));
            if d.contains(t) {
                let k = choose|k: int| 0 <= k < d.len() && d[k] == t;
                assert(s[k] == t);
            }
            if s.contains(t) && t != last {
                let k = choose|k: int| 0 <= k < s.len() && s[k] == t;
                assert(d[k] == t);
            }
            if head.contains(t) {
                let k = choose|k: int| 0 <= k < head.len() && head[k] == t;
                assert(r[k] == t);
            }
            if kept {
                assert(r.last() == last);
                assert(s[s.len() - 1] == last);
                if r.contains(t) && t != last {
                    let k = choose|k: int| 0 <= k < r.len() && r[k] == t;
                    assert(head[k] == t);
                }
            }
        }
        assert forall|next: int| #[trigger] ids_fresh(s, next) implies ids_fresh(r, next) by {
            assert(ids_fresh(d, next));
            assert forall|j: int, k: int| 0 <= j < k < r.len() implies r[j].point_id
                < r[k].point_id by {
                if kept && k == head.len() {
                    assert(head.contains(head[j]));
                    let m = choose|m: int| 0 <= m < d.len() && d[m] == head[j];
                    assert(s[m].point_id < s[s.len() - 1].point_id);
                }
            }
        }
        if forall|i: int|
            0 <= i < s.len() ==> (#[trigger] s[i]).visibility.key > floor.key && s[i].confidence.key
                > floor.key {
            assert forall|i: int| 0 <= i < d.len() implies (#[trigger] d[i]).visibility.key
                > floor.key && d[i].confidence.key > floor.key by {
                assert(d[i] == s[i]);
            }
            assert(s[s.len() - 1] == last);
            assert(r =~= s);
        }
    }
}

/// The cells of a grid lie in it, come row by row, and are as many as wanted where the grid
/// has them.
pub proof fn lemma_grid_cells(side: nat, count: nat, k: int)
    requires
        0 <= k < count,
        k < side * side,
    ensures
        count <= side * side ==> grid_cells(side, count).len() == count,
        count > side * side ==> grid_cells(side, count).len() == side * side,
        0 <= grid_cells(side, count)[k].0 < side,
        0 <= grid_cells(side, count)[k].1 < side,
        grid_cells(side, count)[k].1 * side + grid_cells(side, count)[k].0 == k,
{
    let n = side as int;
    assert(n > 0) by (nonlinear_arith)
        requires
            n * n > 0,
            n >= 0,
    ;
    vstd::arithmetic::div_mod::lemma_fundamental_div_mod(k, n);
    let q = k / n;
    assert(n * q == q * n) by (nonlinear_arith);
    assert(q < n) by (nonlinear_arith)
        requires
            n * q <= k,
            k < n * n,
            n > 0,
    ;
    vstd::arithmetic::div_mod::lemma_div_pos_is_pos(k, n);
}

/// The candidates of a mask are its pixels brighter than 100 in even columns of even rows:
/// all of them and no others.
pub proof fn lemma_mask_candidates(mask: Seq<u8>, width: nat, ny: nat, x: int, y: int)
    ensures
        mask_candidates(mask, width, ny).contains((x, y)) <==> 0 <= x < width && 0 <= y < ny && x % 2
            == 0 && y % 2 == 0 && mask[y * width + x] > 100,
    decreases ny,
{
    let all = mask_candidates(mask, width, ny);
    if ny > 0 {
        let above = mask_candidates(mask, width, (ny - 1) as nat);
        let row = row_candidates(mask, width as int, ny - 1, width);
        lemma_mask_candidates(mask, width, (ny - 1) as nat, x, y);
        lemma_row_candidates(mask, width as int, ny - 1, width, x, y);
        if (ny - 1) % 2 == 0 {
            if above.contains((x, y)) {
                let k = choose|k: int| 0 <= k < above.len() && above[k] == (x, y);
                assert(all[k] == (x, y));
            }
            if row.contains((x, y)) {
                let k = choose|k: int| 0 <= k < row.len() && row[k] == (x, y);
                assert(all[above.len() + k] == (x, y));
            }
            if all.contains((x, y)) {
                let k = choose|k: int| 0 <= k < all.len() && all[k] == (x, y);
                if k < above.len() {
                    assert(above[k] == (x, y));
                } else {
                    assert(row[k - above.len()] == (x, y));
                }
            }
        }
    }
}

proof fn lemma_row_candidates(mask: Seq<u8>, width: int, row: int, nx: nat, x: int, y: int)
    ensures
        row_candidates(mask, width, row, nx).contains((x, y)) <==> 0 <= x < nx && y == row && x % 2
            == 0 && mask[row * width + x] > 100,
    decreases nx,
{
    let all = row_candidates(mask, width, row, nx);
    if nx > 0 {
        let left = row_candidates(mask, width, row, (nx - 1) as nat);
        lemma_row_candidates(mask, width, row, (nx - 1) as nat, x, y);
        if (nx - 1) % 2 == 0 && mask[row * width + (nx - 1)] > 100 {
            if left.contains((x, y)) {
                let k = choose|k: int| 0 <= k < left.len() && left[k] == (x, y);
                assert(all[k] == (x, y));
            }
            assert(all[left.len() as int] == (nx - 1, row));
            if all.contains((x, y)) {
                let k = choose|k: int| 0 <= k < all.len() && all[k] == (x, y);
                if k < left.len() {
                    assert(left[k] == (x, y));
                }
            }
        }
    }
}

/// From `n` candidates as many seeds are taken as wanted, or all where there are fewer,
/// from the first on at one distance `step`, the widest at which that many fit.
pub proof fn lemma_thinned(s: Seq<(int, int)>, count: nat) -> (step: int)
    requires
        s.len() > 0,
        count > 0,
    ensures
        ({
            let seeds = thinned(s, seed_step(s.len(), count), count);
            &&& s.len() >= count ==> seeds.len() == count && count * step <= s.len() < count * (step
                + 1)
            &&& s.len() < count ==> seeds.len() == s.len() && step == 1
            &&& step >= 1
            &&& forall|k: int|
                0 <= k < seeds.len() ==> #[trigger] seeds[k] == s[k * step] && 0 <= k * step
                    < s.len()
        }),
{
    let n = s.len() as int;
    let c = count as int;
    let step = seed_step(s.len(), count) as int;
    let seeds = thinned(s, seed_step(s.len(), count), count);
    let m = (n + step - 1) / step;
    vstd::arithmetic::div_mod::lemma_fundamental_div_mod(n, c);
    let q = n / c;
    assert(n == c * q + n % c);
    if n >= c {
        assert(q >= 1) by (nonlinear_arith)
            requires
                n == c * q + n % c,
                0 <= n % c < c,
                n >= c,
                c > 0,
        ;
        assert(c * (q + 1) == c * q + c) by (nonlinear_arith);
        vstd::arithmetic::div_mod::lemma_fundamental_div_mod(n + q - 1, q);
        assert(m >= c) by (nonlinear_arith)
            requires
                n + q - 1 == q * m + (n + q - 1) % q,
                0 <= (n + q - 1) % q < q,
                c * q <= n,
                q >= 1,
        ;
        assert(step == q);
        assert(seeds.len() == c);
    } else {
        assert(q == 0) by (nonlinear_arith)
            requires
                n == c * q + n % c,
                0 <= n % c < c,
                0 < n < c,
        ;
        assert(step == 1);
        vstd::arithmetic::div_mod::lemma_div_basics(n);
        assert(seeds.len() == n);
    }
    assert forall|k: int| 0 <= k < seeds.len() implies #[trigger] seeds[k] == s[k * step] && 0
        <= k * step < n by {
        if n >= c {
            assert(0 <= k * step < n) by (nonlinear_arith)
                requires
                    0 <= k < c,
                    c * step <= n,
                    step >= 1,
            ;
        } else {
            assert(k * step == k);
        }
    }
    step
}

} // verus!
