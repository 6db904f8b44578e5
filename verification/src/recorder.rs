//! Recording of live motion: takes, their samples, and the keyframes that a take
//! is simplified to.
use crate::funscript::{outside, remove_range, sanitized, Action, Funscript};
use crate::level::Level;
use crate::signal::{merged_push, push_merged};
use crate::timeline::{increasing, insert_index, lemma_increasing_unique};
use vstd::prelude::*;

verus! {

/// A sample of a gesture: when it was taken, its position by order, and its
/// position as a keyframe.
#[derive(Debug, Clone, Copy, PartialEq, Eq, Structural)]
pub struct RawSample {
    pub at: i64,
    pub level: Level,
    pub pos: i32,
}

/// State of the live gestural recorder
#[derive(Debug)]
pub struct LiveRecorderState {
    /// Whether recording is armed (will record when playback is active)
    pub is_armed: bool,
    /// Whether a recording take is actively capturing samples
    pub is_recording_active: bool,
    /// Current live position, by order
    pub live_level: Level,
    /// Current live position, as a keyframe's
    pub live_pos: i32,
    /// Raw gestural samples collected during the current take
    pub raw_samples: Vec<RawSample>,
    /// Last sampled video timestamp in milliseconds
    pub last_sample_ms: i64,
    /// Minimum interval between captured samples in milliseconds (default: 25ms / 40Hz)
    pub sample_interval_ms: i64,
    /// If true, only records while primary mouse button is held/dragged
    pub require_mouse_drag: bool,
    /// If true, inverts Y mapping (top = 0, bottom = 100)
    pub invert_y: bool,
}

/// A sample is due: none was taken yet, or enough time lies between.
pub open spec fn sample_due(last: i64, interval: i64, t: i64) -> bool {
    last < 0 || t - last >= interval || last - t >= interval
}

/// `s`, which is in order of time, with `x` put behind all that are not later.
pub open spec fn sample_inserted(s: Seq<RawSample>, x: RawSample) -> Seq<RawSample>
    decreases s.len(),
{
    if s.len() == 0 || s.last().at <= x.at {
        s.push(x)
    } else {
        sample_inserted(s.drop_last(), x).push(s.last())
    }
}

/// The samples in order of time; those of one time keep their order.
pub open spec fn samples_sorted(s: Seq<RawSample>) -> Seq<RawSample>
    decreases s.len(),
{
    if s.len() == 0 {
        s
    } else {
        sample_inserted(samples_sorted(s.drop_last()), s.last())
    }
}

proof fn lemma_sample_inserted_at(s: Seq<RawSample>, x: RawSample, pos: int)
    requires
        0 <= pos <= s.len(),
        pos > 0 ==> s[pos - 1].at <= x.at,
        forall|i: int| pos <= i < s.len() ==> (#[trigger] s[i]).at > x.at,
    ensures
        sample_inserted(s, x) == s.insert(pos, x),
    decreases s.len(),
{
    if s.len() == 0 || s.last().at <= x.at {
        if pos < s.len() {
            assert(s[s.len() - 1].at > x.at);
        }
        assert(s.insert(pos, x) =~= s.push(x));
    } else {
        assert(pos < s.len());
        lemma_sample_inserted_at(s.drop_last(), x, pos);
        assert(s.drop_last().insert(pos, x).push(s.last()) =~= s.insert(pos, x));
    }
}

/// Times never decrease along the samples.
pub open spec fn samples_in_order(s: Seq<RawSample>) -> bool {
    forall|i: int, j: int| 0 <= i <= j < s.len() ==> s[i].at <= s[j].at
}

proof fn lemma_sample_inserted_below(s: Seq<RawSample>, x: RawSample, t: i64)
    requires
        x.at <= t,
        forall|i: int| 0 <= i < s.len() ==> (#[trigger] s[i]).at <= t,
    ensures
        forall|i: int|
            0 <= i < sample_inserted(s, x).len() ==> (#[trigger] sample_inserted(s, x)[i]).at <= t,
        sample_inserted(s, x).len() == s.len() + 1,
    decreases s.len(),
{
    let u = sample_inserted(s, x);
    if s.len() > 0 && s.last().at > x.at {
        let d = s.drop_last();
        lemma_sample_inserted_below(d, x, t);
        assert forall|i: int| 0 <= i < u.len() implies (#[trigger] u[i]).at <= t by {
            if i < u.len() - 1 {
                assert(u[i] == sample_inserted(d, x)[i]);
            } else {
                assert(u[i] == s[s.len() - 1]);
            }
        }
    } else {
        assert forall|i: int| 0 <= i < u.len() implies (#[trigger] u[i]).at <= t by {
            if i < u.len() - 1 {
                assert(u[i] == s[i]);
            }
        }
    }
}

/// Sorting puts the samples in order of time and keeps each of them.
pub proof fn lemma_samples_sorted(s: Seq<RawSample>)
    ensures
        samples_in_order(samples_sorted(s)),
        samples_sorted(s).to_multiset() == s.to_multiset(),
        samples_sorted(s).len() == s.len(),
    decreases s.len(),
{
    broadcast use vstd::seq_lib::group_to_multiset_ensures;

    if s.len() > 0 {
        lemma_samples_sorted(s.drop_last());
        lemma_sample_inserted(samples_sorted(s.drop_last()), s.last());
        assert(s =~= s.drop_last().push(s.last()));
    }
}

proof fn lemma_sample_inserted(s: Seq<RawSample>, x: RawSample)
    requires
        samples_in_order(s),
    ensures
        samples_in_order(sample_inserted(s, x)),
        sample_inserted(s, x).to_multiset() == s.to_multiset().insert(x),
        sample_inserted(s, x).len() == s.len() + 1,
    decreases s.len(),
{
    broadcast use vstd::seq_lib::group_to_multiset_ensures;

    let u = sample_inserted(s, x);
    if s.len() > 0 && s.last().at > x.at {
        let d = s.drop_last();
        lemma_sample_inserted(d, x);
        lemma_sample_inserted_below(d, x, s.last().at);
        let w = sample_inserted(d, x);
        assert(s =~= d.push(s.last()));
        assert(w.to_multiset().insert(s.last()) =~= s.to_multiset().insert(x));
        assert forall|i: int, j: int| 0 <= i <= j < u.len() implies u[i].at <= u[j].at by {
            if i < w.len() {
                assert(u[i] == w[i]);
            }
            if j < w.len() {
                assert(u[j] == w[j]);
            }
        }
    } else {
        assert forall|i: int, j: int| 0 <= i <= j < u.len() implies u[i].at <= u[j].at by {
            if j == s.len() && i < s.len() {
                assert(s[i].at <= s[s.len() - 1].at);
            }
        }
    }
}

/// The samples in order of time.
pub fn sort_samples(samples: &Vec<RawSample>) -> (res: Vec<RawSample>)
    ensures
        res@ == samples_sorted(samples@),
{
    let mut res: Vec<RawSample> = Vec::new();
    let mut i: usize = 0;
    while i < samples.len()
        invariant
            i <= samples.len(),
            res@ == samples_sorted(samples@.take(i as int)),
        decreases samples.len() - i,
    {
        let x: RawSample = samples[i];
        assert(samples@.take(i + 1).drop_last() =~= samples@.take(i as int));
        let mut pos: usize = res.len();
        while pos > 0 && res[pos - 1].at > x.at
            invariant
                pos <= res.len(),
                forall|k: int| pos <= k < res.len() ==> (#[trigger] res@[k]).at > x.at,
            decreases pos,
        {
            pos -= 1;
        }
        proof {
            lemma_sample_inserted_at(res@, x, pos as int);
        }
        res.insert(pos, x);
        i += 1;
    }
    assert(samples@.take(i as int) =~= samples@);
    res
}

/// How the search for turning points stands: the samples found, the direction of
/// the motion (0 while there is none yet), and the furthest sample in it.
pub struct TurnState {
    pub keys: Seq<usize>,
    pub dir: int,
    pub last: usize,
}

/// The search after the samples below `n`; the motion takes a direction where it
/// is `far` from the furthest sample.
pub open spec fn turn_state(
    s: Seq<RawSample>,
    far: spec_fn(Level, Level) -> bool,
    n: nat,
) -> TurnState
    decreases n,
{
    if n <= 1 {
        TurnState { keys: seq![0usize], dir: 0, last: 0 }
    } else {
        let t = turn_state(s, far, (n - 1) as nat);
        let i = n - 1;
        let from = s[t.last as int].level;
        let to = s[i].level;
        if far(to, from) {
            let dir: int = if to.key > from.key {
                1
            } else {
                -1
            };
            TurnState {
                keys: if t.dir != 0 && dir != t.dir {
                    t.keys.push(t.last)
                } else {
                    t.keys
                },
                dir,
                last: i as usize,
            }
        } else if (t.dir == 1 && to.key > from.key) || (t.dir == -1 && to.key < from.key) {
            TurnState { last: i as usize, ..t }
        } else {
            t
        }
    }
}

/// The first sample, those at which the motion turns, and the last one.
pub open spec fn turning_points(s: Seq<RawSample>, far: spec_fn(Level, Level) -> bool) -> Seq<
    usize,
> {
    let t = turn_state(s, far, s.len());
    let found = if t.last != 0 && t.last != s.len() - 1 {
        t.keys.push(t.last)
    } else {
        t.keys
    };
    if found.last() != s.len() - 1 {
        found.push((s.len() - 1) as usize)
    } else {
        found
    }
}

proof fn lemma_turn_state(s: Seq<RawSample>, far: spec_fn(Level, Level) -> bool, n: nat)
    requires
        1 <= n <= s.len() <= usize::MAX,
    ensures
        ({
            let t = turn_state(s, far, n);
            &&& increasing(t.keys)
            &&& t.keys.len() > 0
            &&& t.keys[0] == 0
            &&& t.last < n
            &&& t.dir == 0 ==> t.last == 0 && t.keys == seq![0usize]
            &&& t.dir != 0 ==> t.keys.last() < t.last
        }),
    decreases n,
{
    if n > 1 {
        lemma_turn_state(s, far, (n - 1) as nat);
    }
}

/// The turning points begin with the first sample, end with the last one, and are
/// in order without repetition.
pub proof fn lemma_turning_points(s: Seq<RawSample>, far: spec_fn(Level, Level) -> bool)
    requires
        2 <= s.len() <= usize::MAX,
    ensures
        ({
            let keys = turning_points(s, far);
            &&& increasing(keys)
            &&& keys.len() >= 2
            &&& keys[0] == 0
            &&& keys.last() == s.len() - 1
            &&& forall|i: int| 0 <= i < keys.len() ==> #[trigger] keys[i] < s.len()
        }),
{
    lemma_turn_state(s, far, s.len());
    let keys = turning_points(s, far);
    assert forall|i: int| 0 <= i < keys.len() implies #[trigger] keys[i] < s.len() by {
        if i < keys.len() - 1 {
            assert(keys[i] < keys[keys.len() - 1]);
        }
    }
}

/// What lies further out on the same side of a position is far from it too.
pub open spec fn grows_outward(far: spec_fn(Level, Level) -> bool) -> bool {
    forall|a: Level, b: Level, c: Level|
        (c.key <= a.key <= b.key || b.key <= a.key <= c.key) && #[trigger] far(a, c)
            ==> #[trigger] far(b, c)
}

/// Sample `b` is the highest or the lowest from sample `a` to it.
pub open spec fn is_furthest_since(s: Seq<RawSample>, a: int, b: int) -> bool {
    ||| forall|j: int| a <= j <= b ==> (#[trigger] s[j]).level.key <= s[b].level.key
    ||| forall|j: int| a <= j <= b ==> (#[trigger] s[j]).level.key >= s[b].level.key
}

/// The search always stands at the furthest sample of the motion under way: since the
/// last turning point none lies further in its direction, and none that came after it is
/// far from it. While there is no direction yet none is far from the first sample. Each
/// turning point found is the highest or the lowest sample since the one before it.
pub proof fn lemma_turns_at_extremes(s: Seq<RawSample>, far: spec_fn(Level, Level) -> bool, n: nat)
    requires
        1 <= n <= s.len() <= usize::MAX,
        grows_outward(far),
    ensures
        ({
            let t = turn_state(s, far, n);
            &&& t.dir == 0 || t.dir == 1 || t.dir == -1
            &&& t.dir == 0 ==> forall|j: int|
                0 < j < n ==> !far((#[trigger] s[j]).level, s[0].level)
            &&& t.dir == 1 ==> forall|j: int|
                t.keys.last() <= j < n ==> (#[trigger] s[j]).level.key <= s[t.last as int].level.key
            &&& t.dir == -1 ==> forall|j: int|
                t.keys.last() <= j < n ==> (#[trigger] s[j]).level.key >= s[t.last as int].level.key
            &&& forall|j: int|
                t.last < j < n ==> !far((#[trigger] s[j]).level, s[t.last as int].level)
            &&& forall|k: int|
                0 < k < t.keys.len() ==> is_furthest_since(
                    s,
                    t.keys[k - 1] as int,
                    #[trigger] t.keys[k] as int,
                )
        }),
    decreases n,
{
    lemma_turn_state(s, far, n);
    if n > 1 {
        lemma_turns_at_extremes(s, far, (n - 1) as nat);
        lemma_turn_state(s, far, (n - 1) as nat);
        let p = turn_state(s, far, (n - 1) as nat);
        let t = turn_state(s, far, n);
        let to = s[n - 1].level;
        let from = s[p.last as int].level;
        if far(to, from) {
            assert forall|j: int| p.last < j < n - 1 implies !far((#[trigger] s[j]).level, from) && (
            to.key > from.key ==> s[j].level.key <= to.key) && (to.key <= from.key
                ==> s[j].level.key >= to.key) by {
                if to.key > from.key && s[j].level.key > to.key {
                    assert(far(s[j].level, from));
                }
                if to.key <= from.key && s[j].level.key < to.key {
                    assert(far(s[j].level, from));
                }
            }
            if p.dir != 0 && t.dir != p.dir {
                assert(is_furthest_since(s, p.keys.last() as int, p.last as int));
                assert(t.keys.last() == p.last);
                assert forall|k: int| 0 < k < t.keys.len() implies is_furthest_since(
                    s,
                    t.keys[k - 1] as int,
                    #[trigger] t.keys[k] as int,
                ) by {
                    if k < p.keys.len() {
                        assert(t.keys[k] == p.keys[k] && t.keys[k - 1] == p.keys[k - 1]);
                    }
                }
            }
        }
    }
}

/// Each turning point but the ends is the highest or the lowest sample since the one before
/// it, and no turn is missed: there is one from which on no sample is far from it.
pub proof fn lemma_turns_are_complete(s: Seq<RawSample>, far: spec_fn(Level, Level) -> bool) -> (
    last: usize)
    requires
        2 <= s.len() <= usize::MAX,
        grows_outward(far),
    ensures
        ({
            let keys = turning_points(s, far);
            &&& forall|k: int|
                0 < k < keys.len() - 1 ==> is_furthest_since(
                    s,
                    keys[k - 1] as int,
                    #[trigger] keys[k] as int,
                )
            &&& keys.contains(last)
            &&& forall|j: int| last < j < s.len() ==> !far((#[trigger] s[j]).level, s[last as int].level)
        }),
{
    lemma_turns_at_extremes(s, far, s.len());
    lemma_turn_state(s, far, s.len());
    let t = turn_state(s, far, s.len());
    let keys = turning_points(s, far);
    let n = t.keys.len() as int;
    assert forall|k: int| 0 < k < keys.len() - 1 implies is_furthest_since(
        s,
        keys[k - 1] as int,
        #[trigger] keys[k] as int,
    ) by {
        assert(keys[k - 1] == t.keys[k - 1]);
        if k < n {
            assert(keys[k] == t.keys[k]);
        } else {
            assert(keys[k] == t.last);
            assert(t.keys[n - 1] == t.keys.last());
        }
    }
    if t.last == 0 {
        assert(keys[0] == 0);
    } else if t.last == s.len() - 1 {
        assert(keys[keys.len() - 1] == t.last);
    } else {
        assert(keys[n] == t.last);
    }
    t.last
}

/// A line through the kept points stays within `epsilon` of every sample: one that is
/// passed over lies no further from the line between its two kept neighbours.
pub proof fn lemma_line_is_near(
    s: Seq<RawSample>,
    dist: spec_fn(RawSample, RawSample, RawSample) -> Level,
    zero: Level,
    epsilon: Level,
    start: int,
    end: int,
    k: int,
    m: int,
)
    requires
        0 <= start <= end < s.len() <= usize::MAX,
        zero.key <= epsilon.key,
        0 <= k < line_points(s, dist, zero, epsilon, start, end).len() - 1,
        line_points(s, dist, zero, epsilon, start, end)[k] < m < line_points(
            s,
            dist,
            zero,
            epsilon,
            start,
            end,
        )[k + 1],
    ensures
        ({
            let p = line_points(s, dist, zero, epsilon, start, end);
            dist(s[m], s[p[k] as int], s[p[k + 1] as int]).key <= epsilon.key
        }),
    decreases end - start,
{
    let p = line_points(s, dist, zero, epsilon, start, end);
    if end > start {
        let best = farthest(s, dist, zero, start, end, end);
        lemma_farthest(s, dist, zero, start, end, end);
        if best.0.key > epsilon.key && start < best.1 < end {
            let a = line_points(s, dist, zero, epsilon, start, best.1);
            let b = line_points(s, dist, zero, epsilon, best.1, end);
            lemma_line_points(s, dist, zero, epsilon, start, best.1);
            lemma_line_points(s, dist, zero, epsilon, best.1, end);
            assert(p == a.drop_last() + b);
            let cut = a.len() - 1;
            if k + 1 < cut {
                assert(p[k] == a[k] && p[k + 1] == a[k + 1]);
                lemma_line_is_near(s, dist, zero, epsilon, start, best.1, k, m);
            } else if k + 1 == cut {
                assert(p[k] == a[k] && p[k + 1] == b[0] && a[cut] == best.1);
                lemma_line_is_near(s, dist, zero, epsilon, start, best.1, k, m);
            } else {
                assert(p[k] == b[k - cut] && p[k + 1] == b[k - cut + 1]);
                lemma_line_is_near(s, dist, zero, epsilon, best.1, end, k - cut, m);
            }
        } else {
            lemma_farthest_bounds(s, dist, zero, start, end, end, m);
        }
    }
}

proof fn lemma_farthest_bounds(
    s: Seq<RawSample>,
    dist: spec_fn(RawSample, RawSample, RawSample) -> Level,
    zero: Level,
    start: int,
    end: int,
    n: int,
    m: int,
)
    requires
        start < m < n,
    ensures
        dist(s[m], s[start], s[end]).key <= farthest(s, dist, zero, start, end, n).0.key,
    decreases n - start,
{
    if m < n - 1 {
        lemma_farthest_bounds(s, dist, zero, start, end, n - 1, m);
    }
}

/// A line takes in no point without need: each between its ends lies further than
/// `epsilon` from the line between two samples beside it.
pub proof fn lemma_line_points_needed(
    s: Seq<RawSample>,
    dist: spec_fn(RawSample, RawSample, RawSample) -> Level,
    zero: Level,
    epsilon: Level,
    start: int,
    end: int,
    k: int,
) -> (beside: (int, int))
    requires
        0 <= start <= end < s.len() <= usize::MAX,
        zero.key <= epsilon.key,
        0 < k < line_points(s, dist, zero, epsilon, start, end).len() - 1,
    ensures
        ({
            let p = line_points(s, dist, zero, epsilon, start, end);
            &&& start <= beside.0 < p[k] < beside.1 <= end
            &&& dist(s[p[k] as int], s[beside.0], s[beside.1]).key > epsilon.key
        }),
    decreases end - start,
{
    let p = line_points(s, dist, zero, epsilon, start, end);
    let best = farthest(s, dist, zero, start, end, end);
    lemma_farthest(s, dist, zero, start, end, end);
    lemma_farthest_reached(s, dist, zero, start, end, end);
    assert(best.0.key > epsilon.key && start < best.1 < end);
    let a = line_points(s, dist, zero, epsilon, start, best.1);
    let b = line_points(s, dist, zero, epsilon, best.1, end);
    lemma_line_points(s, dist, zero, epsilon, start, best.1);
    lemma_line_points(s, dist, zero, epsilon, best.1, end);
    assert(p == a.drop_last() + b);
    let cut = a.len() - 1;
    if k < cut {
        assert(p[k] == a[k]);
        lemma_line_points_needed(s, dist, zero, epsilon, start, best.1, k)
    } else if k == cut {
        assert(p[k] == b[0]);
        (start, end)
    } else {
        assert(p[k] == b[k - cut]);
        lemma_line_points_needed(s, dist, zero, epsilon, best.1, end, k - cut)
    }
}

proof fn lemma_farthest_reached(
    s: Seq<RawSample>,
    dist: spec_fn(RawSample, RawSample, RawSample) -> Level,
    zero: Level,
    start: int,
    end: int,
    n: int,
)
    ensures
        ({
            let best = farthest(s, dist, zero, start, end, n);
            best.0.key > zero.key ==> best.0 == dist(s[best.1], s[start], s[end])
        }),
    decreases n - start,
{
    if n > start + 1 {
        lemma_farthest_reached(s, dist, zero, start, end, n - 1);
    }
}

/// Whenever `far` answers, it answers as `g` does.
pub open spec fn decides_far<F: Fn(Level, Level) -> bool>(
    far: &F,
    g: spec_fn(Level, Level) -> bool,
) -> bool {
    forall|a: Level, b: Level, x: bool| #[trigger] call_ensures(far, (a, b), x) ==> x == g(a, b)
}

/// Whenever `dist` answers, it answers as `g` does.
pub open spec fn measures<D: Fn(RawSample, RawSample, RawSample) -> Level>(
    dist: &D,
    g: spec_fn(RawSample, RawSample, RawSample) -> Level,
) -> bool {
    forall|p: RawSample, a: RawSample, b: RawSample, x: Level| #[trigger]
        call_ensures(dist, (p, a, b), x) ==> x == g(p, a, b)
}

/// The turning points of a take's samples. `far` says whether two positions lie far
/// enough apart to give the motion a direction.
pub fn find_turning_points<F: Fn(Level, Level) -> bool>(
    samples: &Vec<RawSample>,
    far: &F,
) -> (keys: Vec<usize>)
    requires
        samples.len() >= 2,
        forall|a: Level, b: Level| #[trigger] call_requires(far, (a, b)),
        forall|a: Level, b: Level, x: bool| #[trigger]
            call_ensures(far, (a, b), x) ==> x == call_ensures(far, (a, b), true),
    ensures
        keys@ == turning_points(
            samples@,
            |a: Level, b: Level| call_ensures(far, (a, b), true),
        ),
        forall|g: spec_fn(Level, Level) -> bool| #[trigger]
            decides_far(far, g) ==> keys@ == turning_points(samples@, g),
{
    let ghost is_far = |a: Level, b: Level| call_ensures(far, (a, b), true);
    let n: usize = samples.len();
    let mut keys: Vec<usize> = Vec::new();
    keys.push(0);
    assert(keys@ =~= seq![0usize]);
    let mut dir: i8 = 0;
    let mut last: usize = 0;
    let mut i: usize = 1;
    while i < n
        invariant
            1 <= i <= n,
            n == samples.len(),
            last < i,
            is_far == (|a: Level, b: Level| call_ensures(far, (a, b), true)),
            forall|a: Level, b: Level| #[trigger] call_requires(far, (a, b)),
            forall|a: Level, b: Level, x: bool| #[trigger]
                call_ensures(far, (a, b), x) ==> x == call_ensures(far, (a, b), true),
            turn_state(samples@, is_far, i as nat) == (TurnState {
                keys: keys@,
                dir: dir as int,
                last,
            }),
            forall|g: spec_fn(Level, Level) -> bool| #[trigger]
                decides_far(far, g) ==> turn_state(samples@, g, i as nat) == (TurnState {
                    keys: keys@,
                    dir: dir as int,
                    last,
                }),
        decreases n - i,
    {
        let from: Level = samples[last].level;
        let to: Level = samples[i].level;
        let moved: bool = far(to, from);
        assert(moved == is_far(to, from));
        if moved {
            let new_dir: i8 = if to.above(from) {
                1
            } else {
                -1
            };
            if dir != 0 && new_dir != dir {
                keys.push(last);
            }
            dir = new_dir;
            last = i;
        } else if (dir == 1 && to.above(from)) || (dir == -1 && to.below(from)) {
            last = i;
        }
        i += 1;
    }
    proof {
        lemma_turn_state(samples@, is_far, n as nat);
    }
    if last != 0 && last != n - 1 {
        keys.push(last);
    }
    let len: usize = keys.len();
    if keys[len - 1] != n - 1 {
        keys.push(n - 1);
    }
    keys
}

/// The distance furthest from the line between two samples, of those from behind
/// `start` to below `n`, with the first sample that has it.
pub open spec fn farthest(
    s: Seq<RawSample>,
    dist: spec_fn(RawSample, RawSample, RawSample) -> Level,
    zero: Level,
    start: int,
    end: int,
    n: int,
) -> (Level, int)
    decreases n - start,
{
    if n <= start + 1 {
        (zero, start)
    } else {
        let best = farthest(s, dist, zero, start, end, n - 1);
        let d = dist(s[n - 1], s[start], s[end]);
        if d.key > best.0.key {
            (d, n - 1)
        } else {
            best
        }
    }
}

/// The samples from `start` to `end` that a line through them needs to stay
/// within `epsilon` of all.
pub open spec fn line_points(
    s: Seq<RawSample>,
    dist: spec_fn(RawSample, RawSample, RawSample) -> Level,
    zero: Level,
    epsilon: Level,
    start: int,
    end: int,
) -> Seq<usize>
    decreases end - start,
{
    if end <= start {
        seq![start as usize]
    } else {
        let best = farthest(s, dist, zero, start, end, end);
        if best.0.key > epsilon.key && start < best.1 < end {
            line_points(s, dist, zero, epsilon, start, best.1).drop_last() + line_points(
                s,
                dist,
                zero,
                epsilon,
                best.1,
                end,
            )
        } else {
            seq![start as usize, end as usize]
        }
    }
}

proof fn lemma_farthest(
    s: Seq<RawSample>,
    dist: spec_fn(RawSample, RawSample, RawSample) -> Level,
    zero: Level,
    start: int,
    end: int,
    n: int,
)
    ensures
        ({
            let best = farthest(s, dist, zero, start, end, n);
            best.0.key >= zero.key && (best.0.key > zero.key ==> start < best.1 < n)
        }),
    decreases n - start,
{
    if n > start + 1 {
        lemma_farthest(s, dist, zero, start, end, n - 1);
    }
}

/// The points of a line are in order, and the first and last sample are among
/// them.
pub proof fn lemma_line_points(
    s: Seq<RawSample>,
    dist: spec_fn(RawSample, RawSample, RawSample) -> Level,
    zero: Level,
    epsilon: Level,
    start: int,
    end: int,
)
    requires
        0 <= start <= end <= usize::MAX,
    ensures
        ({
            let p = line_points(s, dist, zero, epsilon, start, end);
            &&& increasing(p)
            &&& p.len() > 0
            &&& p[0] == start
            &&& p.last() == end
            &&& forall|i: int| 0 <= i < p.len() ==> start <= #[trigger] p[i] <= end
        }),
    decreases end - start,
{
    let p = line_points(s, dist, zero, epsilon, start, end);
    if end > start {
        let best = farthest(s, dist, zero, start, end, end);
        if best.0.key > epsilon.key && start < best.1 < end {
            lemma_line_points(s, dist, zero, epsilon, start, best.1);
            lemma_line_points(s, dist, zero, epsilon, best.1, end);
            let a = line_points(s, dist, zero, epsilon, start, best.1);
            let b = line_points(s, dist, zero, epsilon, best.1, end);
            assert(a.len() >= 2) by {
                if a.len() == 1 {
                    assert(a[0] == a.last());
                }
            }
            assert forall|i: int| 0 <= i < p.len() implies start <= #[trigger] p[i] <= end by {
                if i < a.len() - 1 {
                    assert(p[i] == a[i]);
                } else {
                    assert(p[i] == b[i - (a.len() - 1)]);
                }
            }
            assert forall|i: int, j: int| 0 <= i < j < p.len() implies p[i] < p[j] by {
                if i < a.len() - 1 {
                    assert(a[i] < a[a.len() - 1]);
                }
                if j >= a.len() - 1 {
                    assert(b[j - (a.len() - 1)] >= best.1);
                }
            }
        }
    }
}

/// 2D Ramer-Douglas-Peucker line simplification: the samples from `start` to
/// `end` that are kept, where `dist(p, a, b)` is the distance of `p` from the line
/// through `a` and `b`.
pub fn rdp_simplify<D: Fn(RawSample, RawSample, RawSample) -> Level>(
    samples: &Vec<RawSample>,
    start: usize,
    end: usize,
    dist: &D,
    zero: Level,
    epsilon: Level,
) -> (kept: Vec<usize>)
    requires
        start <= end < samples.len(),
        zero.key <= epsilon.key,
        forall|p: RawSample, a: RawSample, b: RawSample| #[trigger]
            call_requires(dist, (p, a, b)),
        forall|p: RawSample, a: RawSample, b: RawSample, x: Level, y: Level| #[trigger]
            call_ensures(dist, (p, a, b), x) && #[trigger] call_ensures(dist, (p, a, b), y) ==> x
                == y,
    ensures
        kept@ == line_points(
            samples@,
            |p: RawSample, a: RawSample, b: RawSample|
                choose|x: Level| call_ensures(dist, (p, a, b), x),
            zero,
            epsilon,
            start as int,
            end as int,
        ),
        forall|g: spec_fn(RawSample, RawSample, RawSample) -> Level| #[trigger]
            measures(dist, g) ==> kept@ == line_points(
                samples@,
                g,
                zero,
                epsilon,
                start as int,
                end as int,
            ),
    decreases end - start,
{
    let ghost f = |p: RawSample, a: RawSample, b: RawSample|
        choose|x: Level| call_ensures(dist, (p, a, b), x);
    if end == start {
        let mut kept: Vec<usize> = Vec::new();
        kept.push(start);
        assert(kept@ =~= seq![start]);
        return kept;
    }
    let mut dmax: Level = zero;
    let mut index: usize = start;
    let mut i: usize = start + 1;
    while i < end
        invariant
            start + 1 <= i <= end,
            end < samples.len(),
            forall|p: RawSample, a: RawSample, b: RawSample| #[trigger]
                call_requires(dist, (p, a, b)),
            forall|p: RawSample, a: RawSample, b: RawSample, x: Level, y: Level| #[trigger]
                call_ensures(dist, (p, a, b), x) && #[trigger] call_ensures(dist, (p, a, b), y)
                    ==> x == y,
            f == (|p: RawSample, a: RawSample, b: RawSample|
                choose|x: Level| call_ensures(dist, (p, a, b), x)),
            farthest(samples@, f, zero, start as int, end as int, i as int) == (
                dmax,
                index as int,
            ),
            forall|g: spec_fn(RawSample, RawSample, RawSample) -> Level| #[trigger]
                measures(dist, g) ==> farthest(
                    samples@,
                    g,
                    zero,
                    start as int,
                    end as int,
                    i as int,
                ) == (dmax, index as int),
        decreases end - i,
    {
        let d: Level = dist(samples[i], samples[start], samples[end]);
        assert(d == f(samples@[i as int], samples@[start as int], samples@[end as int]));
        if d.above(dmax) {
            index = i;
            dmax = d;
        }
        i += 1;
    }
    proof {
        lemma_farthest(samples@, f, zero, start as int, end as int, end as int);
    }
    if dmax.above(epsilon) {
        let mut first: Vec<usize> = rdp_simplify(samples, start, index, dist, zero, epsilon);
        let second: Vec<usize> = rdp_simplify(samples, index, end, dist, zero, epsilon);
        proof {
            lemma_line_points(samples@, f, zero, epsilon, start as int, index as int);
        }
        let ghost a = first@;
        first.pop();
        assert(first@ =~= a.drop_last());
        let mut k: usize = 0;
        while k < second.len()
            invariant
                k <= second.len(),
                first@ == a.drop_last() + second@.take(k as int),
            decreases second.len() - k,
        {
            first.push(second[k]);
            assert(second@.take(k + 1) =~= second@.take(k as int).push(second@[k as int]));
            k += 1;
        }
        assert(second@.take(k as int) =~= second@);
        first
    } else {
        let mut kept: Vec<usize> = Vec::new();
        kept.push(start);
        kept.push(end);
        assert(kept@ =~= seq![start, end]);
        kept
    }
}

/// The first sample from `start` to `end` that was taken when sample `k` was.
pub open spec fn first_at_time(s: Seq<RawSample>, start: int, k: int) -> int
    decreases k - start,
{
    if start < k && s[start].at != s[k].at {
        first_at_time(s, start + 1, k)
    } else {
        start
    }
}

/// The samples kept between two turning points.
pub open spec fn segment_points(
    s: Seq<RawSample>,
    dist: spec_fn(RawSample, RawSample, RawSample) -> Level,
    zero: Level,
    epsilon: Level,
    start: usize,
    end: usize,
) -> Seq<usize> {
    if end > start + 1 {
        line_points(s, dist, zero, epsilon, start as int, end as int).map_values(
            |k: usize| first_at_time(s, start as int, k as int) as usize,
        )
    } else {
        seq![start, end]
    }
}

/// The samples kept between the first `k` pairs of turning points.
pub open spec fn points_between(
    s: Seq<RawSample>,
    dist: spec_fn(RawSample, RawSample, RawSample) -> Level,
    zero: Level,
    epsilon: Level,
    keys: Seq<usize>,
    k: nat,
) -> Seq<usize>
    decreases k,
{
    if k == 0 {
        Seq::empty()
    } else {
        points_between(s, dist, zero, epsilon, keys, (k - 1) as nat) + segment_points(
            s,
            dist,
            zero,
            epsilon,
            keys[k - 1],
            keys[k as int],
        )
    }
}

/// `s`, which increases, with `x` among its entries.
pub open spec fn member_inserted(s: Seq<usize>, x: usize) -> Seq<usize>
    decreases s.len(),
{
    if s.len() == 0 || s.last() < x {
        s.push(x)
    } else if s.last() == x {
        s
    } else {
        member_inserted(s.drop_last(), x).push(s.last())
    }
}

/// The entries of `s` in order, each once.
pub open spec fn members_sorted(s: Seq<usize>) -> Seq<usize>
    decreases s.len(),
{
    if s.len() == 0 {
        s
    } else {
        member_inserted(members_sorted(s.drop_last()), s.last())
    }
}

proof fn lemma_member_inserted(s: Seq<usize>, x: usize)
    requires
        increasing(s),
    ensures
        increasing(member_inserted(s, x)),
        forall|y: usize| #[trigger]
            member_inserted(s, x).contains(y) <==> s.contains(y) || y == x,
    decreases s.len(),
{
    let u = member_inserted(s, x);
    if s.len() == 0 || s.last() < x {
        assert forall|i: int, j: int| 0 <= i < j < u.len() implies u[i] < u[j] by {
            if j == s.len() && i < s.len() - 1 {
                assert(s[i] < s[s.len() - 1]);
            }
        }
        assert forall|y: usize| #[trigger] u.contains(y) == (s.contains(y) || y == x) by {
            assert(u[u.len() - 1] == x);
            if s.contains(y) {
                let i = choose|i: int| 0 <= i < s.len() && s[i] == y;
                assert(u[i] == y);
            }
        }
    } else if s.last() == x {
        assert(s[s.len() - 1] == x);
    } else {
        let d = s.drop_last();
        lemma_member_inserted(d, x);
        let w = member_inserted(d, x);
        assert forall|i: int| 0 <= i < w.len() implies #[trigger] w[i] < s.last() by {
            assert(w.contains(w[i]));
            if d.contains(w[i]) {
                let k = choose|k: int| 0 <= k < d.len() && d[k] == w[i];
                assert(s[k] < s[s.len() - 1]);
            }
        }
        assert forall|i: int, j: int| 0 <= i < j < u.len() implies u[i] < u[j] by {
            assert(u[i] == w[i]);
            if j < w.len() {
                assert(u[j] == w[j]);
            }
        }
        assert forall|y: usize| #[trigger] u.contains(y) == (s.contains(y) || y == x) by {
            assert(u[u.len() - 1] == s.last());
            if w.contains(y) {
                let k = choose|k: int| 0 <= k < w.len() && w[k] == y;
                assert(u[k] == y);
            }
            if s.contains(y) {
                let k = choose|k: int| 0 <= k < s.len() && s[k] == y;
                if k < d.len() {
                    assert(d[k] == y);
                }
            }
            if d.contains(y) {
                let k = choose|k: int| 0 <= k < d.len() && d[k] == y;
                assert(s[k] == y);
            }
            if u.contains(y) {
                let k = choose|k: int| 0 <= k < u.len() && u[k] == y;
                if k < w.len() {
                    assert(w[k] == y);
                } else {
                    assert(s[s.len() - 1] == y);
                }
            }
        }
    }
}

/// Sorting keeps every entry, in order and once.
pub proof fn lemma_members_sorted(s: Seq<usize>)
    ensures
        increasing(members_sorted(s)),
        forall|y: usize| #[trigger] members_sorted(s).contains(y) <==> s.contains(y),
    decreases s.len(),
{
    if s.len() > 0 {
        let d = s.drop_last();
        lemma_members_sorted(d);
        lemma_member_inserted(members_sorted(d), s.last());
        assert forall|y: usize| #[trigger] members_sorted(s).contains(y) == s.contains(y) by {
            if s.contains(y) {
                let k = choose|k: int| 0 <= k < s.len() && s[k] == y;
                if k < d.len() {
                    assert(d[k] == y);
                }
            }
            if d.contains(y) {
                let k = choose|k: int| 0 <= k < d.len() && d[k] == y;
                assert(s[k] == y);
            }
            assert(s[s.len() - 1] == s.last());
        }
    }
}

fn sort_members(v: &Vec<usize>) -> (res: Vec<usize>)
    ensures
        res@ == members_sorted(v@),
{
    let mut res: Vec<usize> = Vec::new();
    let mut i: usize = 0;
    while i < v.len()
        invariant
            i <= v.len(),
            res@ == members_sorted(v@.take(i as int)),
        decreases v.len() - i,
    {
        assert(v@.take(i + 1).drop_last() =~= v@.take(i as int));
        let ghost before = res@;
        proof {
            lemma_members_sorted(v@.take(i as int));
            lemma_member_inserted(before, v@[i as int]);
        }
        insert_index(&mut res, v[i]);
        proof {
            let want = member_inserted(before, v@[i as int]);
            assert forall|x: usize| res@.contains(x) <==> want.contains(x) by {}
            lemma_increasing_unique(res@, want);
        }
        i += 1;
    }
    assert(v@.take(i as int) =~= v@);
    res
}

/// The keyframes of the first `k` of the kept samples.
pub open spec fn keyframes_of(s: Seq<RawSample>, indices: Seq<usize>, k: nat) -> Seq<Action>
    decreases k,
{
    if k == 0 {
        Seq::empty()
    } else {
        let x = s[indices[k - 1] as int];
        merged_push(keyframes_of(s, indices, (k - 1) as nat), Action { at: x.at, pos: x.pos })
    }
}

/// The samples of a take that become keyframes.
pub open spec fn kept_samples(
    s: Seq<RawSample>,
    far: spec_fn(Level, Level) -> bool,
    dist: spec_fn(RawSample, RawSample, RawSample) -> Level,
    zero: Level,
    epsilon: Level,
) -> Seq<usize> {
    let keys = turning_points(s, far);
    members_sorted(points_between(s, dist, zero, epsilon, keys, (keys.len() - 1) as nat))
}

/// The keyframes that a take's samples are simplified to.
pub open spec fn simplified(
    s: Seq<RawSample>,
    far: spec_fn(Level, Level) -> bool,
    dist: spec_fn(RawSample, RawSample, RawSample) -> Level,
    zero: Level,
    epsilon: Level,
) -> Seq<Action> {
    if s.len() == 0 {
        Seq::empty()
    } else if s.len() == 1 {
        seq![Action { at: s[0].at, pos: s[0].pos }]
    } else {
        let kept = kept_samples(s, far, dist, zero, epsilon);
        keyframes_of(s, kept, kept.len())
    }
}

proof fn lemma_first_at_time(s: Seq<RawSample>, start: int, k: int)
    requires
        start <= k < s.len(),
    ensures
        start <= first_at_time(s, start, k) <= k,
        s[first_at_time(s, start, k)].at == s[k].at,
    decreases k - start,
{
    if start < k && s[start].at != s[k].at {
        lemma_first_at_time(s, start + 1, k);
    }
}

fn find_first_at_time(samples: &Vec<RawSample>, start: usize, k: usize) -> (res: usize)
    requires
        start <= k < samples.len(),
    ensures
        res == first_at_time(samples@, start as int, k as int),
{
    let mut i: usize = start;
    while i < k && samples[i].at != samples[k].at
        invariant
            start <= i <= k < samples.len(),
            first_at_time(samples@, start as int, k as int) == first_at_time(
                samples@,
                i as int,
                k as int,
            ),
        decreases k - i,
    {
        i += 1;
    }
    i
}

proof fn lemma_points_below(
    s: Seq<RawSample>,
    dist: spec_fn(RawSample, RawSample, RawSample) -> Level,
    zero: Level,
    epsilon: Level,
    keys: Seq<usize>,
    k: nat,
)
    requires
        s.len() <= usize::MAX,
        increasing(keys),
        k < keys.len(),
        forall|i: int| 0 <= i < keys.len() ==> #[trigger] keys[i] < s.len(),
    ensures
        forall|i: int|
            0 <= i < points_between(s, dist, zero, epsilon, keys, k).len() ==> #[trigger]
                points_between(s, dist, zero, epsilon, keys, k)[i] < s.len(),
    decreases k,
{
    if k > 0 {
        let start = keys[k - 1];
        let end = keys[k as int];
        assert(start < end);
        let p = points_between(s, dist, zero, epsilon, keys, (k - 1) as nat);
        let q = segment_points(s, dist, zero, epsilon, start, end);
        lemma_points_below(s, dist, zero, epsilon, keys, (k - 1) as nat);
        assert forall|i: int| 0 <= i < q.len() implies #[trigger] q[i] < s.len() by {
            if end > start + 1 {
                let line = line_points(s, dist, zero, epsilon, start as int, end as int);
                lemma_line_points(s, dist, zero, epsilon, start as int, end as int);
                assert(start <= line[i] <= end);
                lemma_first_at_time(s, start as int, line[i] as int);
            }
        }
        assert forall|i: int| 0 <= i < (p + q).len() implies #[trigger] (p + q)[i] < s.len() by {
            if i >= p.len() {
                assert((p + q)[i] == q[i - p.len()]);
            }
        }
    }
}

fn push_segment<D: Fn(RawSample, RawSample, RawSample) -> Level>(
    points: &mut Vec<usize>,
    samples: &Vec<RawSample>,
    start: usize,
    end: usize,
    dist: &D,
    zero: Level,
    epsilon: Level,
)
    requires
        start < end < samples.len(),
        zero.key <= epsilon.key,
        forall|p: RawSample, a: RawSample, b: RawSample| #[trigger]
            call_requires(dist, (p, a, b)),
        forall|p: RawSample, a: RawSample, b: RawSample, x: Level, y: Level| #[trigger]
            call_ensures(dist, (p, a, b), x) && #[trigger] call_ensures(dist, (p, a, b), y) ==> x
                == y,
    ensures
        final(points)@ == old(points)@ + segment_points(
            samples@,
            |p: RawSample, a: RawSample, b: RawSample|
                choose|x: Level| call_ensures(dist, (p, a, b), x),
            zero,
            epsilon,
            start,
            end,
        ),
        forall|g: spec_fn(RawSample, RawSample, RawSample) -> Level| #[trigger]
            measures(dist, g) ==> final(points)@ == old(points)@ + segment_points(
                samples@,
                g,
                zero,
                epsilon,
                start,
                end,
            ),
{
    let ghost f = |p: RawSample, a: RawSample, b: RawSample|
        choose|x: Level| call_ensures(dist, (p, a, b), x);
    if end > start + 1 {
        let line: Vec<usize> = rdp_simplify(samples, start, end, dist, zero, epsilon);
        let ghost mapped = segment_points(samples@, f, zero, epsilon, start, end);
        proof {
            lemma_line_points(samples@, f, zero, epsilon, start as int, end as int);
        }
        let mut k: usize = 0;
        while k < line.len()
            invariant
                k <= line.len(),
                end < samples.len(),
                forall|i: int| 0 <= i < line.len() ==> start <= #[trigger] line@[i] <= end,
                mapped == line@.map_values(
                    |k: usize| first_at_time(samples@, start as int, k as int) as usize,
                ),
                points@ == old(points)@ + mapped.take(k as int),
            decreases line.len() - k,
        {
            let at: usize = line[k];
            points.push(find_first_at_time(samples, start, at));
            assert(mapped.take(k + 1) =~= mapped.take(k as int).push(mapped[k as int]));
            k += 1;
        }
        assert(mapped.take(k as int) =~= mapped);
    } else {
        points.push(start);
        points.push(end);
        assert(points@ =~= old(points)@ + seq![start, end]);
    }
}

proof fn lemma_keyframes_of(s: Seq<RawSample>, indices: Seq<usize>, k: nat)
    requires
        samples_in_order(s),
        increasing(indices),
        1 <= k <= indices.len(),
        forall|i: int| 0 <= i < indices.len() ==> #[trigger] indices[i] < s.len(),
    ensures
        ({
            let a = keyframes_of(s, indices, k);
            &&& a.len() > 0
            &&& a[0].at == s[indices[0] as int].at
            &&& a.last().at == s[indices[k - 1] as int].at
            &&& forall|i: int, j: int| 0 <= i < j < a.len() ==> a[i].at < a[j].at
        }),
    decreases k,
{
    reveal_with_fuel(keyframes_of, 2);
    if k > 1 {
        lemma_keyframes_of(s, indices, (k - 1) as nat);
        let b = keyframes_of(s, indices, (k - 1) as nat);
        let a = keyframes_of(s, indices, k);
        assert(indices[k - 2] < indices[k - 1]);
        assert(s[indices[k - 2] as int].at <= s[indices[k - 1] as int].at);
        assert forall|i: int, j: int| 0 <= i < j < a.len() implies a[i].at < a[j].at by {
            assert(a[i] == b[i]);
            if j < a.len() - 1 {
                assert(a[j] == b[j]);
            } else if i < b.len() - 1 {
                assert(b[i].at < b[b.len() - 1].at);
            }
        }
    }
}

proof fn lemma_ends_kept(
    s: Seq<RawSample>,
    dist: spec_fn(RawSample, RawSample, RawSample) -> Level,
    zero: Level,
    epsilon: Level,
    keys: Seq<usize>,
    k: nat,
) -> (last: usize)
    requires
        s.len() <= usize::MAX,
        increasing(keys),
        keys[0] == 0,
        1 <= k < keys.len(),
        forall|i: int| 0 <= i < keys.len() ==> #[trigger] keys[i] < s.len(),
    ensures
        points_between(s, dist, zero, epsilon, keys, k).contains(0),
        points_between(s, dist, zero, epsilon, keys, k).contains(last),
        last < s.len(),
        s[last as int].at == s[keys[k as int] as int].at,
    decreases k,
{
    let start = keys[k - 1];
    let end = keys[k as int];
    assert(start < end);
    let p = points_between(s, dist, zero, epsilon, keys, (k - 1) as nat);
    let q = segment_points(s, dist, zero, epsilon, start, end);
    let line = line_points(s, dist, zero, epsilon, start as int, end as int);
    lemma_line_points(s, dist, zero, epsilon, start as int, end as int);
    let all = points_between(s, dist, zero, epsilon, keys, k);
    assert(all == p + q);
    if k > 1 {
        let before = lemma_ends_kept(s, dist, zero, epsilon, keys, (k - 1) as nat);
        let i = choose|i: int| 0 <= i < p.len() && p[i] == 0;
        assert(all[i] == 0);
    } else {
        assert(p.len() == 0);
        assert(q[0] == 0);
        assert(all[0] == 0);
    }
    assert(all[all.len() - 1] == q[q.len() - 1]);
    if end > start + 1 {
        lemma_first_at_time(s, start as int, end as int);
        assert(q[q.len() - 1] == first_at_time(s, start as int, end as int));
    }
    q[q.len() - 1]
}

/// A take's keyframes follow each other in time; the first stands at the first
/// sample's time and the last at the last sample's.
pub proof fn lemma_take_keyframes(
    s: Seq<RawSample>,
    far: spec_fn(Level, Level) -> bool,
    dist: spec_fn(RawSample, RawSample, RawSample) -> Level,
    zero: Level,
    epsilon: Level,
)
    requires
        samples_in_order(s),
        1 <= s.len() <= usize::MAX,
    ensures
        ({
            let a = simplified(s, far, dist, zero, epsilon);
            &&& a.len() > 0
            &&& a[0].at == s[0].at
            &&& a.last().at == s.last().at
            &&& forall|i: int, j: int| 0 <= i < j < a.len() ==> a[i].at < a[j].at
        }),
{
    if s.len() > 1 {
        let keys = turning_points(s, far);
        let k = (keys.len() - 1) as nat;
        let points = points_between(s, dist, zero, epsilon, keys, k);
        let kept = kept_samples(s, far, dist, zero, epsilon);
        lemma_turning_points(s, far);
        lemma_points_below(s, dist, zero, epsilon, keys, k);
        lemma_members_sorted(points);
        let last = lemma_ends_kept(s, dist, zero, epsilon, keys, k);
        assert(kept.contains(0) && kept.contains(last));
        let i = choose|i: int| 0 <= i < kept.len() && kept[i] == 0;
        let j = choose|j: int| 0 <= j < kept.len() && kept[j] == last;
        if i > 0 {
            assert(kept[0] < kept[i]);
        }
        if j < kept.len() - 1 {
            assert(kept[j] < kept[kept.len() - 1]);
        }
        assert forall|i: int| 0 <= i < kept.len() implies #[trigger] kept[i] < s.len() by {
            assert(kept.contains(kept[i]));
            let m = choose|m: int| 0 <= m < points.len() && points[m] == kept[i];
            assert(points[m] < s.len());
        }
        lemma_keyframes_of(s, kept, kept.len());
        assert(s[last as int].at <= s[kept[kept.len() - 1] as int].at);
        assert(s[kept[kept.len() - 1] as int].at <= s[s.len() - 1].at);
    }
}

/// The keyframes of a take are samples of it, and every turning point of the motion has one
/// at its time.
pub proof fn lemma_take_samples(
    s: Seq<RawSample>,
    far: spec_fn(Level, Level) -> bool,
    dist: spec_fn(RawSample, RawSample, RawSample) -> Level,
    zero: Level,
    epsilon: Level,
    m: int,
) -> (place: int)
    requires
        samples_in_order(s),
        2 <= s.len() <= usize::MAX,
        0 <= m < turning_points(s, far).len(),
    ensures
        ({
            let a = simplified(s, far, dist, zero, epsilon);
            let key = turning_points(s, far)[m];
            &&& 0 <= place < a.len()
            &&& a[place].at == s[key as int].at
            &&& forall|k: int|
                0 <= k < a.len() ==> exists|i: int|
                    0 <= i < s.len() && (#[trigger] a[k]).at == (#[trigger] s[i]).at && a[k].pos
                        == s[i].pos
        }),
{
    let keys = turning_points(s, far);
    let n = (keys.len() - 1) as nat;
    let points = points_between(s, dist, zero, epsilon, keys, n);
    let kept = kept_samples(s, far, dist, zero, epsilon);
    lemma_turning_points(s, far);
    lemma_points_below(s, dist, zero, epsilon, keys, n);
    lemma_members_sorted(points);
    assert forall|i: int| 0 <= i < kept.len() implies #[trigger] kept[i] < s.len() by {
        assert(kept.contains(kept[i]));
        let j = choose|j: int| 0 <= j < points.len() && points[j] == kept[i];
        assert(points[j] < s.len());
    }
    lemma_keyframes_are_samples(s, kept, kept.len());
    let last = if m == 0 {
        let e = lemma_ends_kept(s, dist, zero, epsilon, keys, n);
        0usize
    } else {
        lemma_turn_kept(s, dist, zero, epsilon, keys, n, m)
    };
    assert(points.contains(last));
    assert(kept.contains(last));
    let i = choose|i: int| 0 <= i < kept.len() && kept[i] == last;
    lemma_sample_keyframe(s, kept, kept.len(), i)
}

proof fn lemma_turn_kept(
    s: Seq<RawSample>,
    dist: spec_fn(RawSample, RawSample, RawSample) -> Level,
    zero: Level,
    epsilon: Level,
    keys: Seq<usize>,
    n: nat,
    m: int,
) -> (last: usize)
    requires
        s.len() <= usize::MAX,
        increasing(keys),
        keys[0] == 0,
        1 <= m <= n < keys.len(),
        forall|i: int| 0 <= i < keys.len() ==> #[trigger] keys[i] < s.len(),
    ensures
        points_between(s, dist, zero, epsilon, keys, n).contains(last),
        last < s.len(),
        s[last as int].at == s[keys[m] as int].at,
    decreases n,
{
    if m == n {
        lemma_ends_kept(s, dist, zero, epsilon, keys, n)
    } else {
        let last = lemma_turn_kept(s, dist, zero, epsilon, keys, (n - 1) as nat, m);
        let p = points_between(s, dist, zero, epsilon, keys, (n - 1) as nat);
        let i = choose|i: int| 0 <= i < p.len() && p[i] == last;
        assert(points_between(s, dist, zero, epsilon, keys, n)[i] == last);
        last
    }
}

proof fn lemma_keyframes_are_samples(s: Seq<RawSample>, indices: Seq<usize>, n: nat)
    requires
        n <= indices.len(),
        forall|i: int| 0 <= i < indices.len() ==> #[trigger] indices[i] < s.len(),
    ensures
        ({
            let a = keyframes_of(s, indices, n);
            forall|k: int|
                0 <= k < a.len() ==> exists|i: int|
                    0 <= i < s.len() && (#[trigger] a[k]).at == (#[trigger] s[i]).at && a[k].pos
                        == s[i].pos
        }),
    decreases n,
{
    if n > 0 {
        lemma_keyframes_are_samples(s, indices, (n - 1) as nat);
        let b = keyframes_of(s, indices, (n - 1) as nat);
        let a = keyframes_of(s, indices, n);
        let m = indices[n - 1] as int;
        assert forall|k: int| 0 <= k < a.len() implies exists|i: int|
            0 <= i < s.len() && (#[trigger] a[k]).at == (#[trigger] s[i]).at && a[k].pos
                == s[i].pos by {
            if k == a.len() - 1 {
                assert(a[k].at == s[m].at && a[k].pos == s[m].pos);
            } else {
                assert(a[k] == b[k]);
            }
        }
    }
}

proof fn lemma_sample_keyframe(s: Seq<RawSample>, indices: Seq<usize>, n: nat, i: int) -> (k: int)
    requires
        0 <= i < n <= indices.len(),
    ensures
        0 <= k < keyframes_of(s, indices, n).len(),
        keyframes_of(s, indices, n)[k].at == s[indices[i] as int].at,
    decreases n,
{
    let a = keyframes_of(s, indices, n);
    if i == n - 1 {
        a.len() - 1
    } else {
        let k = lemma_sample_keyframe(s, indices, (n - 1) as nat, i);
        let b = keyframes_of(s, indices, (n - 1) as nat);
        if k < b.len() - 1 {
            assert(a[k] == b[k]);
        } else {
            assert(a[b.len() - 1].at == b[k].at);
        }
        k
    }
}

impl LiveRecorderState {
    /// A recorder at rest; the live position is the middle, whose order is given.
    pub fn new(middle: Level) -> (res: Self)
        ensures
            !res.is_armed,
            !res.is_recording_active,
            res.live_level == middle,
            res.live_pos == 50,
            res.raw_samples.len() == 0,
            res.last_sample_ms == -1,
            res.sample_interval_ms == 25,
            !res.require_mouse_drag,
            !res.invert_y,
    {
        LiveRecorderState {
            is_armed: false,
            is_recording_active: false,
            live_level: middle,
            live_pos: 50,
            raw_samples: Vec::new(),
            last_sample_ms: -1,
            sample_interval_ms: 25,
            require_mouse_drag: false,
            invert_y: false,
        }
    }

    /// Toggle arm/disarm recording state
    pub fn toggle_armed(&mut self) -> (armed: bool)
        ensures
            armed == !old(self).is_armed,
            *final(self) == (LiveRecorderState {
                is_armed: armed,
                is_recording_active: armed && old(self).is_recording_active,
                ..*old(self)
            }),
    {
        self.is_armed = !self.is_armed;
        if !self.is_armed {
            self.is_recording_active = false;
        }
        self.is_armed
    }

    /// Arm recording
    pub fn arm(&mut self)
        ensures
            *final(self) == (LiveRecorderState { is_armed: true, ..*old(self) }),
    {
        self.is_armed = true;
    }

    /// Disarm recording
    pub fn disarm(&mut self)
        ensures
            *final(self) == (LiveRecorderState {
                is_armed: false,
                is_recording_active: false,
                ..*old(self)
            }),
    {
        self.is_armed = false;
        self.is_recording_active = false;
    }

    /// Begin a new recording take starting at timestamp `start_time_ms`
    pub fn start_take(&mut self, start_time_ms: i64)
        ensures
            final(self).raw_samples@ == seq![
                RawSample {
                    at: start_time_ms,
                    level: old(self).live_level,
                    pos: old(self).live_pos,
                },
            ],
            *final(self) == (LiveRecorderState {
                raw_samples: final(self).raw_samples,
                is_recording_active: true,
                last_sample_ms: start_time_ms,
                ..*old(self)
            }),
    {
        self.raw_samples.clear();
        self.is_recording_active = true;
        self.last_sample_ms = start_time_ms;
        self.raw_samples.push(
            RawSample { at: start_time_ms, level: self.live_level, pos: self.live_pos },
        );
        assert(self.raw_samples@ =~= seq![
            RawSample { at: start_time_ms, level: old(self).live_level, pos: old(self).live_pos },
        ]);
    }

    /// Update live position and record sample if interval elapsed. The position is
    /// given by order and as a keyframe's, clamped to its range.
    pub fn sample(&mut self, time_ms: i64, level: Level, pos: i32)
        ensures
            final(self).live_level == level,
            final(self).live_pos == pos,
            ({
                let due = old(self).is_recording_active && sample_due(
                    old(self).last_sample_ms,
                    old(self).sample_interval_ms,
                    time_ms,
                );
                &&& final(self).raw_samples@ == (if due {
                    old(self).raw_samples@.push(RawSample { at: time_ms, level, pos })
                } else {
                    old(self).raw_samples@
                })
                &&& *final(self) == (LiveRecorderState {
                    live_level: level,
                    live_pos: pos,
                    raw_samples: final(self).raw_samples,
                    last_sample_ms: if due {
                        time_ms
                    } else {
                        old(self).last_sample_ms
                    },
                    ..*old(self)
                })
            }),
    {
        self.live_level = level;
        self.live_pos = pos;
        if !self.is_recording_active {
            return;
        }
        let diff: i128 = time_ms as i128 - self.last_sample_ms as i128;
        let size: i128 = if diff < 0 {
            -diff
        } else {
            diff
        };
        if self.last_sample_ms < 0 || size >= self.sample_interval_ms as i128 {
            self.raw_samples.push(RawSample { at: time_ms, level, pos });
            self.last_sample_ms = time_ms;
        }
    }

    /// Finalize current take, extract inflections and RDP-simplified keyframes.
    ///
    /// Returns the first and last time with the keyframes, or `None` if no samples
    /// were taken. The samples are left in order of time.
    pub fn finish_take<
        F: Fn(Level, Level) -> bool,
        D: Fn(RawSample, RawSample, RawSample) -> Level,
    >(&mut self, far: &F, dist: &D, zero: Level, epsilon: Level) -> (take: Option<
        (i64, i64, Vec<Action>),
    >)
        requires
            zero.key <= epsilon.key,
            forall|a: Level, b: Level| #[trigger] call_requires(far, (a, b)),
            forall|a: Level, b: Level, x: bool| #[trigger]
                call_ensures(far, (a, b), x) ==> x == call_ensures(far, (a, b), true),
            forall|p: RawSample, a: RawSample, b: RawSample| #[trigger]
                call_requires(dist, (p, a, b)),
            forall|p: RawSample, a: RawSample, b: RawSample, x: Level, y: Level| #[trigger]
                call_ensures(dist, (p, a, b), x) && #[trigger] call_ensures(dist, (p, a, b), y)
                    ==> x == y,
        ensures
            ({
                let s = old(self).raw_samples@;
                let sorted = samples_sorted(s);
                let taken = s.len() > 0 && old(self).is_recording_active;
                &&& final(self).raw_samples@ == (if taken {
                    sorted
                } else {
                    s
                })
                &&& take is Some <==> taken
                &&& taken ==> {
                    let (start, end, actions) = take->0;
                    &&& start == sorted[0].at
                    &&& end == sorted.last().at
                    &&& actions@ == simplified(
                        sorted,
                        |a: Level, b: Level| call_ensures(far, (a, b), true),
                        |p: RawSample, a: RawSample, b: RawSample|
                            choose|x: Level| call_ensures(dist, (p, a, b), x),
                        zero,
                        epsilon,
                    )
                    &&& forall|
                        g: spec_fn(Level, Level) -> bool,
                        d: spec_fn(RawSample, RawSample, RawSample) -> Level,
                    | #[trigger]
                        decides_far(far, g) && #[trigger] measures(dist, d) ==> actions@
                            == simplified(sorted, g, d, zero, epsilon)
                }
                &&& *final(self) == (LiveRecorderState {
                    is_recording_active: false,
                    raw_samples: final(self).raw_samples,
                    ..*old(self)
                })
            }),
    {
        if self.raw_samples.len() == 0 || !self.is_recording_active {
            self.is_recording_active = false;
            return None;
        }
        self.is_recording_active = false;
        let sorted: Vec<RawSample> = sort_samples(&self.raw_samples);
        proof {
            lemma_samples_sorted(self.raw_samples@);
        }
        let n: usize = sorted.len();
        let start: i64 = sorted[0].at;
        let end: i64 = sorted[n - 1].at;
        let actions: Vec<Action> = Self::simplify_samples(&sorted, far, dist, zero, epsilon);
        self.raw_samples = sorted;
        Some((start, end, actions))
    }

    /// Simplify raw gestural samples into clean funscript actions. `far` says
    /// whether two positions lie at least the turning tolerance apart; `dist(p, a, b)`
    /// is the distance of `p` from the line through `a` and `b`, and one above
    /// `epsilon` keeps a sample.
    pub fn simplify_samples<
        F: Fn(Level, Level) -> bool,
        D: Fn(RawSample, RawSample, RawSample) -> Level,
    >(samples: &Vec<RawSample>, far: &F, dist: &D, zero: Level, epsilon: Level) -> (actions: Vec<
        Action,
    >)
        requires
            zero.key <= epsilon.key,
            forall|a: Level, b: Level| #[trigger] call_requires(far, (a, b)),
            forall|a: Level, b: Level, x: bool| #[trigger]
                call_ensures(far, (a, b), x) ==> x == call_ensures(far, (a, b), true),
            forall|p: RawSample, a: RawSample, b: RawSample| #[trigger]
                call_requires(dist, (p, a, b)),
            forall|p: RawSample, a: RawSample, b: RawSample, x: Level, y: Level| #[trigger]
                call_ensures(dist, (p, a, b), x) && #[trigger] call_ensures(dist, (p, a, b), y)
                    ==> x == y,
        ensures
            actions@ == simplified(
                samples@,
                |a: Level, b: Level| call_ensures(far, (a, b), true),
                |p: RawSample, a: RawSample, b: RawSample|
                    choose|x: Level| call_ensures(dist, (p, a, b), x),
                zero,
                epsilon,
            ),
            forall|
                g: spec_fn(Level, Level) -> bool,
                d: spec_fn(RawSample, RawSample, RawSample) -> Level,
            | #[trigger]
                decides_far(far, g) && #[trigger] measures(dist, d) ==> actions@ == simplified(
                    samples@,
                    g,
                    d,
                    zero,
                    epsilon,
                ),
    {
        let ghost is_far = |a: Level, b: Level| call_ensures(far, (a, b), true);
        let ghost f = |p: RawSample, a: RawSample, b: RawSample|
            choose|x: Level| call_ensures(dist, (p, a, b), x);
        let mut actions: Vec<Action> = Vec::new();
        if samples.len() == 0 {
            return actions;
        }
        if samples.len() == 1 {
            actions.push(Action { at: samples[0].at, pos: samples[0].pos });
            assert(actions@ =~= seq![Action { at: samples@[0].at, pos: samples@[0].pos }]);
            return actions;
        }
        let keys: Vec<usize> = find_turning_points(samples, far);
        proof {
            lemma_turning_points(samples@, is_far);
        }
        let mut points: Vec<usize> = Vec::new();
        let mut k: usize = 0;
        while k < keys.len() - 1
            invariant
                k <= keys.len() - 1,
                increasing(keys@),
                forall|i: int| 0 <= i < keys.len() ==> #[trigger] keys@[i] < samples.len(),
                zero.key <= epsilon.key,
                forall|p: RawSample, a: RawSample, b: RawSample| #[trigger]
                    call_requires(dist, (p, a, b)),
                forall|p: RawSample, a: RawSample, b: RawSample, x: Level, y: Level| #[trigger]
                    call_ensures(dist, (p, a, b), x) && #[trigger] call_ensures(
                        dist,
                        (p, a, b),
                        y,
                    ) ==> x == y,
                f == (|p: RawSample, a: RawSample, b: RawSample|
                    choose|x: Level| call_ensures(dist, (p, a, b), x)),
                points@ == points_between(samples@, f, zero, epsilon, keys@, k as nat),
                forall|d: spec_fn(RawSample, RawSample, RawSample) -> Level| #[trigger]
                    measures(dist, d) ==> points@ == points_between(
                        samples@,
                        d,
                        zero,
                        epsilon,
                        keys@,
                        k as nat,
                    ),
            decreases keys.len() - k,
        {
            assert(keys@[k as int] < keys@[k + 1]);
            push_segment(&mut points, samples, keys[k], keys[k + 1], dist, zero, epsilon);
            k += 1;
        }
        let kept: Vec<usize> = sort_members(&points);
        proof {
            lemma_points_below(samples@, f, zero, epsilon, keys@, k as nat);
            lemma_members_sorted(points@);
        }
        assert forall|i: int| 0 <= i < kept.len() implies #[trigger] kept@[i] < samples.len() by {
            assert(kept@.contains(kept@[i]));
            let j = choose|j: int| 0 <= j < points.len() && points@[j] == kept@[i];
            assert(points@[j] < samples.len());
        }
        let mut i: usize = 0;
        while i < kept.len()
            invariant
                i <= kept.len(),
                forall|i: int| 0 <= i < kept.len() ==> #[trigger] kept@[i] < samples.len(),
                actions@ == keyframes_of(samples@, kept@, i as nat),
            decreases kept.len() - i,
        {
            let x: RawSample = samples[kept[i]];
            push_merged(&mut actions, Action { at: x.at, pos: x.pos });
            i += 1;
        }
        actions
    }

    /// Splice recorded take into an existing funscript, replacing any prior actions in [start_ms, end_ms]
    pub fn splice_take_into_script(
        script: &mut Funscript,
        start_ms: i64,
        end_ms: i64,
        take_actions: &Vec<Action>,
    )
        ensures
            final(script).version == old(script).version,
            final(script).metadata == old(script).metadata,
            take_actions.len() == 0 ==> final(script).actions == old(script).actions,
            take_actions.len() > 0 ==> final(script).actions@ == sanitized(
                outside(old(script).actions@, start_ms, end_ms) + take_actions@,
            ),
    {
        if take_actions.len() == 0 {
            return;
        }
        let mut kept: Vec<Action> = remove_range(&script.actions, start_ms, end_ms);
        let mut i: usize = 0;
        while i < take_actions.len()
            invariant
                i <= take_actions.len(),
                script == old(script),
                kept@ == outside(script.actions@, start_ms, end_ms) + take_actions@.take(
                    i as int,
                ),
            decreases take_actions.len() - i,
        {
            kept.push(take_actions[i]);
            assert(take_actions@.take(i + 1) =~= take_actions@.take(i as int).push(
                take_actions@[i as int],
            ));
            i += 1;
        }
        assert(take_actions@.take(i as int) =~= take_actions@);
        script.actions = kept;
        script.sanitize();
    }
}

/// The first sample is due at once, and another one exactly once the interval has passed
/// since the last, forward or back.
pub proof fn lemma_sample_due(last: i64, interval: i64, t: i64)
    ensures
        last < 0 ==> sample_due(last, interval, t),
        last >= 0 && t >= last && interval > 0 ==> (sample_due(last, interval, t) <==> t >= last
            + interval),
        last >= 0 && t < last && interval > 0 ==> (sample_due(last, interval, t) <==> t <= last
            - interval),
{
}

} // verus!
