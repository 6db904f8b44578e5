//! Jerk-limited smoothing of scripts: where the blend zones around the corners
//! of a script lie, and the densified script that samples them.
use crate::funscript::{
    brackets, lemma_sanitized_time, lemma_time_of_sanitized, sampled_at, sanitized, strictly_timed,
    Action, Funscript, PositionSample,
};
use crate::text::decimal;
use vstd::prelude::*;

verus! {

/// S-Curve smoothing presets
#[derive(Debug, Clone, Copy, PartialEq, Eq, Structural)]
pub enum SCurvePreset {
    Off,
    Balanced,
    Protective,
}

/// The blend radius of a preset.
pub open spec fn blend_of(preset: SCurvePreset) -> i64 {
    match preset {
        SCurvePreset::Off => 0,
        SCurvePreset::Balanced => 35,
        SCurvePreset::Protective => 75,
    }
}

/// The label of a preset.
pub open spec fn preset_label(preset: SCurvePreset) -> Seq<char> {
    match preset {
        SCurvePreset::Off => "Off (Raw Linear)"@,
        SCurvePreset::Balanced => "Balanced (±35ms Blend)"@,
        SCurvePreset::Protective => "Protective (±75ms Blend)"@,
    }
}

impl SCurvePreset {
    pub const ALL: [SCurvePreset; 3] = [
        SCurvePreset::Off,
        SCurvePreset::Balanced,
        SCurvePreset::Protective,
    ];

    pub fn display_name(&self) -> (name: &'static str)
        ensures
            name@ == preset_label(*self),
    {
        match self {
            SCurvePreset::Off => "Off (Raw Linear)",
            SCurvePreset::Balanced => "Balanced (±35ms Blend)",
            SCurvePreset::Protective => "Protective (±75ms Blend)",
        }
    }

    pub fn blend_radius_ms(&self) -> (radius: i64)
        ensures
            radius == blend_of(*self),
    {
        match self {
            SCurvePreset::Off => 0,
            SCurvePreset::Balanced => 35,
            SCurvePreset::Protective => 75,
        }
    }
}

/// Where the smoothed curve stands at some moment.
#[derive(Debug, Clone, Copy, PartialEq, Eq, Structural)]
pub enum CurveSample {
    /// The script has no keyframe: the middle position.
    Middle,
    /// Exactly this position.
    Hold(i32),
    /// On the straight line from one keyframe to the next.
    Line { from: Action, to: Action },
    /// In the blend zone of `delta` milliseconds either side of the corner `curr`.
    Blend { prev: Action, curr: Action, next: Action, delta: i64 },
}

/// Half the zone around corner `i`: the radius, but at most half of either
/// neighbouring gap, and at least one millisecond.
pub open spec fn zone_delta(s: Seq<Action>, i: int, radius: int) -> int {
    let before = (s[i].at - s[i - 1].at) / 2;
    let after = (s[i + 1].at - s[i].at) / 2;
    let most = if before < after {
        before
    } else {
        after
    };
    let delta = if radius < most {
        radius
    } else {
        most
    };
    if delta < 1 {
        1
    } else {
        delta
    }
}

/// Keyframe `i` is a corner, and `t` lies in its blend zone.
pub open spec fn in_zone(s: Seq<Action>, i: int, radius: int, t: int) -> bool {
    &&& 0 < i < s.len() - 1
    &&& s[i].at - zone_delta(s, i, radius) <= t <= s[i].at + zone_delta(s, i, radius)
}

/// The blend zone sample at corner `i`.
pub open spec fn blend_at(s: Seq<Action>, i: int, radius: int) -> CurveSample {
    CurveSample::Blend {
        prev: s[i - 1],
        curr: s[i],
        next: s[i + 1],
        delta: zone_delta(s, i, radius) as i64,
    }
}

/// The curve at `t`, which lies in the segment that starts at keyframe `i`.
pub open spec fn segment_sample(s: Seq<Action>, i: int, radius: int, t: int) -> CurveSample {
    if radius > 0 && in_zone(s, i, radius, t) {
        blend_at(s, i, radius)
    } else if radius > 0 && in_zone(s, i + 1, radius, t) {
        blend_at(s, i + 1, radius)
    } else {
        CurveSample::Line { from: s[i], to: s[i + 1] }
    }
}

/// `t` lies in the segment that starts at keyframe `i`.
pub open spec fn in_segment(s: Seq<Action>, i: int, t: int) -> bool {
    0 <= i < s.len() - 1 && s[i].at <= t < s[i + 1].at
}

/// `res` is where the smoothed curve of `s` stands at `t`.
pub open spec fn curve_sampled(s: Seq<Action>, t: int, radius: int, res: CurveSample) -> bool {
    if s.len() == 0 {
        res == CurveSample::Middle
    } else if s.len() == 1 || t <= s[0].at {
        res == CurveSample::Hold(s[0].pos)
    } else if t >= s.last().at {
        res == CurveSample::Hold(s.last().pos)
    } else {
        exists|i: int| #[trigger] in_segment(s, i, t) && res == segment_sample(s, i, radius, t)
    }
}

/// In a strictly timed script the curve has one value at each time.
pub proof fn lemma_curve_unique(s: Seq<Action>, t: int, radius: int, a: CurveSample, b: CurveSample)
    requires
        strictly_timed(s),
        curve_sampled(s, t, radius, a),
        curve_sampled(s, t, radius, b),
    ensures
        a == b,
{
    if s.len() > 1 && s[0].at < t && t < s.last().at {
        let i = choose|i: int| #[trigger] in_segment(s, i, t) && a == segment_sample(s, i, radius, t);
        let j = choose|j: int| #[trigger] in_segment(s, j, t) && b == segment_sample(s, j, radius, t);
        if i < j {
            assert(s[i + 1].at <= s[j].at);
        } else if j < i {
            assert(s[j + 1].at <= s[i].at);
        }
    }
}

/// A position as a numerator and a denominator.
pub struct Fraction {
    pub num: int,
    pub den: int,
}

/// Both fractions are the same number.
pub open spec fn same_number(a: Fraction, b: Fraction) -> bool {
    a.den > 0 && b.den > 0 && a.num * b.den == b.num * a.den
}

/// The position at `t` on the straight line between two keyframes.
pub open spec fn on_line(from: Action, to: Action, t: int) -> Fraction {
    Fraction {
        num: from.pos * (to.at - from.at) + (t - from.at) * (to.pos - from.pos),
        den: to.at - from.at,
    }
}

/// The position that a sample of an unsmoothed curve stands for.
pub open spec fn curve_position(sample: CurveSample, t: int) -> Option<Fraction> {
    match sample {
        CurveSample::Hold(pos) => Some(Fraction { num: pos as int, den: 1 }),
        CurveSample::Line { from, to } => Some(on_line(from, to, t)),
        _ => None,
    }
}

/// The position that a sample of a script stands for.
pub open spec fn script_position(sample: PositionSample, t: int) -> Option<Fraction> {
    match sample {
        PositionSample::Hold(pos) => Some(Fraction { num: pos as int, den: 1 }),
        PositionSample::Between { prev, next } => Some(on_line(prev, next, t)),
        PositionSample::Rest => None,
    }
}

/// Without a blend radius the curve is the script itself: at every time both stand at
/// the same position. They differ only where there is no keyframe: the curve is then in
/// the middle, and the script at rest.
pub proof fn lemma_unblended_curve(
    s: Seq<Action>,
    t: i64,
    radius: int,
    curve: CurveSample,
    script: PositionSample,
)
    requires
        strictly_timed(s),
        radius <= 0,
        curve_sampled(s, t as int, radius, curve),
        sampled_at(s, t, script),
    ensures
        s.len() == 0 ==> curve == CurveSample::Middle && script == PositionSample::Rest,
        s.len() > 0 ==> {
            let a = curve_position(curve, t as int);
            let b = script_position(script, t as int);
            a is Some && b is Some && same_number(a->0, b->0)
        },
{
    if s.len() > 1 && s[0].at < t && t < s.last().at {
        let i = choose|i: int| #[trigger]
            in_segment(s, i, t as int) && curve == segment_sample(s, i, radius, t as int);
        let j = choose|j: int| #[trigger]
            brackets(s, t, j) && script == (if s[j].at == t {
                PositionSample::Hold(s[j].pos)
            } else {
                PositionSample::Between { prev: s[j - 1], next: s[j] }
            });
        assert(s[i].at < s[i + 1].at);
        if s[j].at == t {
            assert(j == i) by {
                if j < i {
                    assert(s[j].at < s[i].at);
                } else if j > i {
                    assert(s[i + 1].at <= s[j].at);
                }
            }
            let f = on_line(s[i], s[i + 1], t as int);
            assert((t - s[i].at) * (s[i + 1].pos - s[i].pos) == 0) by (nonlinear_arith)
                requires
                    t == s[i].at,
            ;
            assert(f.num * 1 == s[j].pos * f.den);
        } else {
            assert(j == i + 1) by {
                if j <= i {
                    assert(s[j].at <= s[i].at);
                } else if j > i + 1 {
                    assert(s[i + 1].at <= s[j - 1].at);
                }
            }
        }
    }
}

fn zone_half_width(prev: Action, curr: Action, next: Action, radius: i64) -> (delta: i64)
    ensures
        delta == zone_delta(seq![prev, curr, next], 1, radius as int),
        delta >= 1,
{
    let before: i128 = curr.at as i128 - prev.at as i128;
    let after: i128 = next.at as i128 - curr.at as i128;
    let gap: i128 = if before < after {
        before
    } else {
        after
    };
    if gap < 2 || radius < 1 {
        return 1;
    }
    let most: i128 = gap / 2;
    if (radius as i128) < most {
        radius
    } else {
        most as i64
    }
}

fn within(t: i64, center: i64, delta: i64) -> (res: bool)
    ensures
        res == (center - delta <= t <= center + delta),
{
    center as i128 - delta as i128 <= t as i128 && t as i128 <= center as i128 + delta as i128
}

/// Where the smoothed curve stands at any arbitrary timecode.
pub fn eval_scurve(actions: &Vec<Action>, target_ms: i64, blend_radius_ms: i64) -> (res: CurveSample)
    ensures
        curve_sampled(actions@, target_ms as int, blend_radius_ms as int, res),
{
    let n: usize = actions.len();
    let ghost s = actions@;
    let ghost r = blend_radius_ms as int;
    if n == 0 {
        return CurveSample::Middle;
    }
    if n == 1 || target_ms <= actions[0].at {
        return CurveSample::Hold(actions[0].pos);
    }
    if target_ms >= actions[n - 1].at {
        return CurveSample::Hold(actions[n - 1].pos);
    }
    let mut idx: usize = 0;
    let mut end: usize = n - 1;
    while end - idx > 1
        invariant
            idx < end < n,
            n == actions.len(),
            actions@[idx as int].at <= target_ms < actions@[end as int].at,
        decreases end - idx,
    {
        let mid: usize = idx + (end - idx) / 2;
        if actions[mid].at <= target_ms {
            idx = mid;
        } else {
            end = mid;
        }
    }
    assert(in_segment(s, idx as int, target_ms as int));
    if blend_radius_ms <= 0 {
        return CurveSample::Line { from: actions[idx], to: actions[idx + 1] };
    }
    if idx > 0 {
        let prev: Action = actions[idx - 1];
        let curr: Action = actions[idx];
        let next: Action = actions[idx + 1];
        let delta: i64 = zone_half_width(prev, curr, next, blend_radius_ms);
        assert(delta == zone_delta(s, idx as int, r));
        if within(target_ms, curr.at, delta) {
            return CurveSample::Blend { prev, curr, next, delta };
        }
    }
    if idx + 1 < n - 1 {
        let prev: Action = actions[idx];
        let curr: Action = actions[idx + 1];
        let next: Action = actions[idx + 2];
        let delta: i64 = zone_half_width(prev, curr, next, blend_radius_ms);
        assert(delta == zone_delta(s, idx + 1, r));
        if within(target_ms, curr.at, delta) {
            return CurveSample::Blend { prev, curr, next, delta };
        }
    }
    CurveSample::Line { from: actions[idx], to: actions[idx + 1] }
}

/// Every tenth millisecond of a zone, from its start on.
pub open spec fn zone_times(center: int, delta: int) -> Seq<i64> {
    Seq::new((2 * delta / 10 + 1) as nat, |k: int| (center - delta + 10 * k) as i64)
}

/// The sampled times of the zones around the corners before keyframe `n`.
pub open spec fn sample_times_before(s: Seq<Action>, radius: int, n: nat) -> Seq<i64>
    decreases n,
{
    if n <= 1 {
        Seq::empty()
    } else {
        sample_times_before(s, radius, (n - 1) as nat) + zone_times(
            s[n - 1].at as int,
            zone_delta(s, n - 1, radius),
        )
    }
}

/// The times at which smoothing samples the curve.
pub open spec fn sample_times(s: Seq<Action>, radius: int) -> Seq<i64> {
    if s.len() < 3 || radius <= 0 {
        Seq::empty()
    } else {
        sample_times_before(s, radius, (s.len() - 1) as nat)
    }
}

/// The zones, with one step past their end, lie in the range of a timestamp.
pub open spec fn zones_fit(s: Seq<Action>, radius: int) -> bool {
    forall|i: int|
        0 < i < s.len() - 1 ==> {
            &&& i64::MIN <= (#[trigger] s[i]).at - zone_delta(s, i, radius)
            &&& s[i].at + zone_delta(s, i, radius) + 10 <= i64::MAX
        }
}

/// The times at which smoothing samples the curve: each blend zone every 10 ms.
pub fn curve_sample_times(script: &Funscript, blend_radius_ms: i64) -> (times: Vec<i64>)
    requires
        script.actions.len() >= 3 && blend_radius_ms > 0 ==> zones_fit(
            script.actions@,
            blend_radius_ms as int,
        ),
    ensures
        times@ == sample_times(script.actions@, blend_radius_ms as int),
{
    let mut times: Vec<i64> = Vec::new();
    let n: usize = script.actions.len();
    if n < 3 || blend_radius_ms <= 0 {
        return times;
    }
    let ghost s = script.actions@;
    let ghost r = blend_radius_ms as int;
    let mut i: usize = 1;
    while i < n - 1
        invariant
            1 <= i <= n - 1,
            n == s.len(),
            n >= 3,
            s == script.actions@,
            r == blend_radius_ms,
            zones_fit(s, r),
            times@ == sample_times_before(s, r, i as nat),
        decreases n - i,
    {
        let curr: Action = script.actions[i];
        let delta: i64 = zone_half_width(
            script.actions[i - 1],
            curr,
            script.actions[i + 1],
            blend_radius_ms,
        );
        assert(delta == zone_delta(s, i as int, r));
        assert(i64::MIN <= s[i as int].at - zone_delta(s, i as int, r));
        let ghost zone = zone_times(curr.at as int, delta as int);
        let t_start: i64 = curr.at - delta;
        let t_end: i64 = curr.at + delta;
        let mut t: i64 = t_start;
        let ghost mut k: int = 0;
        assert(zone.take(0) =~= Seq::empty());
        assert(times@ =~= sample_times_before(s, r, i as nat) + zone.take(0));
        while t <= t_end
            invariant
                t_end + 10 <= i64::MAX,
                t_start <= t,
                0 <= k <= zone.len(),
                t == t_start + 10 * k,
                t_end - t_start == 2 * delta,
                t_start == curr.at - delta,
                zone == zone_times(curr.at as int, delta as int),
                times@ == sample_times_before(s, r, i as nat) + zone.take(k),
            decreases t_end + 10 - t,
        {
            times.push(t);
            proof {
                assert(k < zone.len());
                assert(zone[k] == t);
                assert(zone.take(k + 1) =~= zone.take(k).push(t));
                assert(times@ =~= sample_times_before(s, r, i as nat) + zone.take(k + 1));
                k = k + 1;
            }
            t += 10;
        }
        proof {
            assert(k == zone.len());
            assert(zone.take(k) =~= zone);
        }
        i += 1;
    }
    times
}

/// The keyframes of the smoothed script before they are sanitized: the first,
/// the sampled zones, the last.
pub open spec fn densified(s: Seq<Action>, times: Seq<i64>, samples: Seq<i32>) -> Seq<Action> {
    seq![s[0]] + Seq::new(times.len(), |k: int| Action { at: times[k], pos: samples[k] }) + seq![
        s.last(),
    ]
}

/// Convert a Funscript into an S-curve smoothed funscript by densifying
/// transition zones. `samples` holds the rounded position of the curve at each
/// of the [`curve_sample_times`].
pub fn smooth_funscript(script: &Funscript, blend_radius_ms: i64, samples: &Vec<i32>) -> (res:
    Funscript)
    requires
        script.actions.len() >= 3 && blend_radius_ms > 0 ==> zones_fit(
            script.actions@,
            blend_radius_ms as int,
        ),
        samples.len() == sample_times(script.actions@, blend_radius_ms as int).len(),
    ensures
        script.actions.len() < 3 || blend_radius_ms <= 0 ==> res@ == script@,
        script.actions.len() >= 3 && blend_radius_ms > 0 ==> {
            &&& res.version@ == "1.0"@
            &&& res.metadata is None
            &&& res.actions@ == sanitized(
                densified(
                    script.actions@,
                    sample_times(script.actions@, blend_radius_ms as int),
                    samples@,
                ),
            )
        },
{
    if script.actions.len() < 3 || blend_radius_ms <= 0 {
        return script.clone();
    }
    let times: Vec<i64> = curve_sample_times(script, blend_radius_ms);
    let ghost dense = densified(script.actions@, times@, samples@);
    let mut smoothed: Vec<Action> = Vec::new();
    smoothed.push(script.actions[0]);
    let mut k: usize = 0;
    while k < times.len()
        invariant
            k <= times.len(),
            times.len() == samples.len(),
            script.actions.len() >= 3,
            dense == densified(script.actions@, times@, samples@),
            smoothed@ == dense.take(k + 1),
        decreases times.len() - k,
    {
        smoothed.push(Action { at: times[k], pos: samples[k] });
        assert(smoothed@ =~= dense.take(k + 2));
        k += 1;
    }
    smoothed.push(script.actions[script.actions.len() - 1]);
    assert(smoothed@ =~= dense);
    let mut res: Funscript = Funscript::new(smoothed);
    res.sanitize();
    res
}

/// The radius, but at most half of the shorter gap beside corner `i` and at least a
/// millisecond.
proof fn lemma_zone_width(s: Seq<Action>, i: int, radius: int)
    requires
        strictly_timed(s),
        radius > 0,
        0 < i < s.len() - 1,
    ensures
        ({
            let d = zone_delta(s, i, radius);
            let before = s[i].at - s[i - 1].at;
            let after = s[i + 1].at - s[i].at;
            &&& 1 <= d <= radius
            &&& d == 1 || (2 * d <= before && 2 * d <= after)
            &&& d == radius || 2 * (d + 1) > before || 2 * (d + 1) > after
            &&& s[i - 1].at <= s[i].at - d
            &&& s[i].at + d <= s[i + 1].at
        }),
{
    assert(s[i - 1].at < s[i].at);
    assert(s[i].at < s[i + 1].at);
}

proof fn lemma_corner_sampled(s: Seq<Action>, radius: int, n: nat, i: int, k: int)
    requires
        strictly_timed(s),
        radius > 0,
        0 < i < n < s.len(),
        0 <= k,
        10 * k <= 2 * zone_delta(s, i, radius),
    ensures
        sample_times_before(s, radius, n).contains(
            (s[i].at - zone_delta(s, i, radius) + 10 * k) as i64,
        ),
    decreases n,
{
    let b = sample_times_before(s, radius, (n - 1) as nat);
    let z = zone_times(s[n - 1].at as int, zone_delta(s, n - 1, radius));
    let a = sample_times_before(s, radius, n);
    let t = (s[i].at - zone_delta(s, i, radius) + 10 * k) as i64;
    if i < n - 1 {
        lemma_corner_sampled(s, radius, (n - 1) as nat, i, k);
        let j = choose|j: int| 0 <= j < b.len() && b[j] == t;
        assert(a[j] == t);
    } else {
        assert(k < z.len());
        assert(z[k] == t);
        assert(a[b.len() + k] == t);
    }
}

/// Every corner is smoothed: around each keyframe between the ends the curve is sampled
/// every ten milliseconds from `d` before it to `d` behind it, where `d` is the radius, or
/// half the shorter gap to its neighbours where that is less, and at least one.
pub proof fn lemma_every_corner_sampled(s: Seq<Action>, radius: int, i: int, k: int)
    requires
        s.len() >= 3,
        strictly_timed(s),
        radius > 0,
        0 < i < s.len() - 1,
        0 <= k,
    ensures
        ({
            let before = s[i].at - s[i - 1].at;
            let after = s[i + 1].at - s[i].at;
            let gap = if before < after {
                before
            } else {
                after
            };
            let d = if gap < 2 {
                1
            } else if gap / 2 < radius {
                gap / 2
            } else {
                radius
            };
            10 * k <= 2 * d ==> sample_times(s, radius).contains(
                (s[i].at - d + 10 * k) as i64,
            )
        }),
{
    assert(s[i - 1].at < s[i].at);
    assert(s[i].at < s[i + 1].at);
    if 10 * k <= 2 * zone_delta(s, i, radius) {
        lemma_corner_sampled(s, radius, (s.len() - 1) as nat, i, k);
    }
}

/// The curve is sampled nowhere but around corners, between the keyframes beside them,
/// and without a radius or a corner not at all.
pub proof fn lemma_only_corners_sampled(s: Seq<Action>, radius: int, k: int)
    requires
        strictly_timed(s),
        0 <= k < sample_times(s, radius).len(),
    ensures
        s.len() >= 3 && radius > 0,
        exists|i: int|
            {
                &&& 0 < i < s.len() - 1
                &&& (#[trigger] s[i]).at - radius <= sample_times(s, radius)[k] <= s[i].at + radius
                &&& s[i - 1].at <= sample_times(s, radius)[k] <= s[i + 1].at
            },
{
    lemma_sampled_near(s, radius, (s.len() - 1) as nat, k);
}

proof fn lemma_sampled_near(s: Seq<Action>, radius: int, n: nat, k: int)
    requires
        strictly_timed(s),
        radius > 0,
        n < s.len(),
        0 <= k < sample_times_before(s, radius, n).len(),
    ensures
        exists|i: int|
            {
                &&& 0 < i < s.len() - 1
                &&& (#[trigger] s[i]).at - radius <= sample_times_before(s, radius, n)[k]
                    <= s[i].at + radius
                &&& s[i - 1].at <= sample_times_before(s, radius, n)[k] <= s[i + 1].at
            },
    decreases n,
{
    if n > 1 {
        let b = sample_times_before(s, radius, (n - 1) as nat);
        let a = sample_times_before(s, radius, n);
        if k < b.len() {
            lemma_sampled_near(s, radius, (n - 1) as nat, k);
            assert(a[k] == b[k]);
        } else {
            let i = n - 1;
            let d = zone_delta(s, i, radius);
            lemma_zone_width(s, i, radius);
            let z = zone_times(s[i].at as int, d);
            assert(a[k] == z[k - b.len()]);
            let j = k - b.len();
            assert(10 * j <= 2 * d);
            assert(a[k] == s[i].at - d + 10 * j);
        }
    }
}

/// Near a corner the curve is blended and elsewhere it is the straight line between the
/// two keyframes that enclose the time. A blend is that of a corner no further away than
/// the radius and than either of its neighbours; and within `d` of a corner, where `d` is
/// the radius or half the shorter gap beside it, the curve is blended.
pub proof fn lemma_blended_near_corners(
    s: Seq<Action>,
    t: i64,
    radius: int,
    res: CurveSample,
)
    requires
        s.len() >= 2,
        strictly_timed(s),
        radius > 0,
        s[0].at < t < s.last().at,
        curve_sampled(s, t as int, radius, res),
    ensures
        match res {
            CurveSample::Blend { prev, curr, next, delta } => exists|i: int|
                {
                    &&& 0 < i < s.len() - 1
                    &&& prev == s[i - 1] && curr == (#[trigger] s[i]) && next == s[i + 1]
                    &&& 1 <= delta <= radius
                    &&& s[i].at - delta <= t <= s[i].at + delta
                    &&& s[i - 1].at <= s[i].at - delta && s[i].at + delta <= s[i + 1].at
                },
            CurveSample::Line { from, to } => exists|i: int|
                {
                    &&& 0 < i < s.len()
                    &&& from == s[i - 1] && to == (#[trigger] s[i])
                    &&& s[i - 1].at <= t < s[i].at
                    &&& forall|c: int|
                        0 < c < s.len() - 1 && -radius <= t - (#[trigger] s[c]).at <= radius ==> 2
                            * (t - s[c].at) > s[c + 1].at - s[c].at || 2 * (t - s[c].at) > s[c].at
                            - s[c - 1].at || 2 * (s[c].at - t) > s[c + 1].at - s[c].at || 2 * (
                        s[c].at - t) > s[c].at - s[c - 1].at
                },
            _ => false,
        },
{
    let i = choose|i: int| #[trigger]
        in_segment(s, i, t as int) && res == segment_sample(s, i, radius, t as int);
    if in_zone(s, i, radius, t as int) {
        lemma_zone_width(s, i, radius);
        assert(zone_delta(s, i, radius) as i64 == zone_delta(s, i, radius));
        assert(res == blend_at(s, i, radius));
        assert(s[i] == s[i]);
    } else if in_zone(s, i + 1, radius, t as int) {
        lemma_zone_width(s, i + 1, radius);
        assert(zone_delta(s, i + 1, radius) as i64 == zone_delta(s, i + 1, radius));
        assert(res == blend_at(s, i + 1, radius));
        let c = i + 1;
        assert(s[c] == s[i + 1]);
    } else {
        assert forall|c: int|
            0 < c < s.len() - 1 && -radius <= t - (#[trigger] s[c]).at <= radius implies 2 * (t
            - s[c].at) > s[c + 1].at - s[c].at || 2 * (t - s[c].at) > s[c].at - s[c - 1].at || 2 * (
        s[c].at - t) > s[c + 1].at - s[c].at || 2 * (s[c].at - t) > s[c].at - s[c - 1].at by {
            assert(s[c - 1].at < s[c].at);
            assert(s[c].at < s[c + 1].at);
            if c == i || c == i + 1 {
                assert(!in_zone(s, c, radius, t as int));
            } else if c < i {
                assert(s[c + 1].at <= s[i].at);
            } else {
                assert(s[i + 1].at <= s[c - 1].at);
            }
        }
        let c = i + 1;
        assert(s[c] == s[i + 1]);
    }
}

/// A smoothed script has a keyframe at the time of the script's first and of its last one,
/// and one at every time that was sampled, with the position sampled there last.
pub proof fn lemma_smoothed_keyframes(
    s: Seq<Action>,
    times: Seq<i64>,
    samples: Seq<i32>,
    j: int,
) -> (places: (int, int, int))
    requires
        s.len() >= 2,
        times.len() == samples.len(),
        0 <= j < times.len(),
    ensures
        ({
            let r = sanitized(densified(s, times, samples));
            let (first, last, at) = places;
            &&& 0 <= first < r.len() && r[first].at == s[0].at
            &&& 0 <= last < r.len() && r[last].at == s.last().at
            &&& 0 <= s.last().pos <= 100 ==> r[last].pos == s.last().pos
            &&& 0 <= at < r.len() && r[at].at == times[j]
            &&& 0 <= samples[j] <= 100 && times[j] != s.last().at && (forall|k: int|
                j < k < times.len() ==> #[trigger] times[k] != times[j]) ==> r[at].pos == samples[j]
        }),
{
    let d = densified(s, times, samples);
    let n = times.len() as int;
    assert(d.len() == n + 2);
    assert(d[0] == s[0] && d[n + 1] == s.last());
    assert(d[j + 1] == (Action { at: times[j], pos: samples[j] }));
    if forall|k: int| j < k < n ==> #[trigger] times[k] != times[j] {
        assert forall|k: int| j + 1 < k < d.len() && times[j] != s.last().at implies (
        #[trigger] d[k]).at != d[j + 1].at by {
            if k < n + 1 {
                assert(d[k].at == times[k - 1]);
            }
        }
    }
    (
        lemma_sanitized_time(d, 0),
        lemma_sanitized_time(d, n + 1),
        lemma_sanitized_time(d, j + 1),
    )
}

/// A smoothed script has no keyframe at another time.
pub proof fn lemma_smoothed_times(s: Seq<Action>, times: Seq<i64>, samples: Seq<i32>, k: int)
    requires
        s.len() >= 2,
        times.len() == samples.len(),
        0 <= k < sanitized(densified(s, times, samples)).len(),
    ensures
        ({
            let t = sanitized(densified(s, times, samples))[k].at;
            t == s[0].at || t == s.last().at || times.contains(t)
        }),
{
    let d = densified(s, times, samples);
    let i = lemma_time_of_sanitized(d, k);
    if 0 < i < times.len() + 1 {
        assert(d[i].at == times[i - 1]);
    }
}

/// The label of a preset that blends names its radius in milliseconds; the one that is off
/// blends nothing.
pub proof fn lemma_label_names_radius(preset: SCurvePreset)
    ensures
        preset is Off <==> blend_of(preset) == 0,
        blend_of(preset) >= 0,
        preset is Balanced ==> preset_label(preset) == "Balanced (±"@ + decimal(
            blend_of(preset) as nat,
        ) + "ms Blend)"@,
        preset is Protective ==> preset_label(preset) == "Protective (±"@ + decimal(
            blend_of(preset) as nat,
        ) + "ms Blend)"@,
{
    reveal_strlit("Balanced (±");
    reveal_strlit("Protective (±");
    reveal_strlit("ms Blend)");
    reveal_strlit("Balanced (±35ms Blend)");
    reveal_strlit("Protective (±75ms Blend)");
    reveal_with_fuel(decimal, 3);
    let n = decimal(blend_of(preset) as nat);
    if preset is Balanced {
        assert(n =~= seq!['3', '5']);
        assert(preset_label(preset) =~= "Balanced (±"@ + n + "ms Blend)"@);
    } else if preset is Protective {
        assert(n =~= seq!['7', '5']);
        assert(preset_label(preset) =~= "Protective (±"@ + n + "ms Blend)"@);
    }
}

} // verus!
