//! Snapping to the loud moments of an audio waveform.
use crate::level::Level;
use crate::spectral::{FrequencyBand, FFT_SIZE};
use vstd::prelude::*;

verus! {

/// Bin `b` is a local maximum of the waveform.
pub open spec fn is_local_max(v: Seq<Level>, b: int) -> bool {
    v[b].key > v[b - 1].key && v[b].key >= v[b + 1].key
}

/// How far two times lie apart.
pub open spec fn time_apart(a: i64, b: i64) -> int {
    if a < b {
        b - a
    } else {
        a - b
    }
}

/// Bin `b` holds a transient within reach of `time_ms`: a local maximum that reaches
/// the floor.
pub open spec fn is_candidate(
    v: Seq<Level>,
    times: Seq<i64>,
    time_ms: i64,
    max_dist_ms: i64,
    floor: Level,
    b: int,
) -> bool {
    is_local_max(v, b) && v[b].key >= floor.key && time_apart(times[b], time_ms) <= max_dist_ms
}

/// Bin `b` holds the nearest transient of the bins from `start` to before `end`, the
/// first among those equally near.
pub open spec fn is_nearest(
    v: Seq<Level>,
    times: Seq<i64>,
    time_ms: i64,
    max_dist_ms: i64,
    floor: Level,
    start: int,
    end: int,
    b: int,
) -> bool {
    let near = time_apart(times[b], time_ms);
    &&& start <= b < end
    &&& is_candidate(v, times, time_ms, max_dist_ms, floor, b)
    &&& forall|c: int|
        start <= c < end && #[trigger] is_candidate(v, times, time_ms, max_dist_ms, floor, c)
            ==> near <= time_apart(times[c], time_ms) && (c < b ==> near < time_apart(
            times[c],
            time_ms,
        ))
}

/// `found` is the time of the nearest transient of the bins from `start` to before
/// `end`; there is none where no bin holds a transient within reach.
pub open spec fn nearest_found(
    v: Seq<Level>,
    times: Seq<i64>,
    time_ms: i64,
    max_dist_ms: i64,
    floor: Level,
    start: int,
    end: int,
    found: Option<i64>,
) -> bool {
    match found {
        Some(t) => exists|b: int| #[trigger]
            is_nearest(v, times, time_ms, max_dist_ms, floor, start, end, b) && t == times[b],
        None => forall|b: int|
            start <= b < end ==> !#[trigger] is_candidate(
                v,
                times,
                time_ms,
                max_dist_ms,
                floor,
                b,
            ),
    }
}

/// The first bin of a search.
pub open spec fn first_bin(center: int, radius: int) -> int {
    if center - radius < 1 {
        1
    } else {
        center - radius
    }
}

/// The bin behind the last one of a search.
pub open spec fn bin_after(center: int, radius: int, n: int) -> int {
    let last = if n < 2 {
        0
    } else {
        n - 2
    };
    (if center + radius < last {
        center + radius
    } else {
        last
    }) + 1
}

/// Find the nearest acoustic transient/peak within a search radius (for magnetic
/// snapping). `levels` are the amplitudes of the bins and `times` when they are;
/// the search covers `radius_bins` either side of `center_bin`, and `floor` is
/// the least amplitude of a transient.
pub fn find_nearest_transient(
    levels: &Vec<Level>,
    times: &Vec<i64>,
    time_ms: i64,
    max_dist_ms: i64,
    center_bin: usize,
    radius_bins: usize,
    floor: Level,
) -> (res: Option<i64>)
    requires
        times.len() == levels.len(),
    ensures
        if levels.len() == 0 || time_ms < 0 || max_dist_ms <= 0 {
            res is None
        } else {
            nearest_found(
                levels@,
                times@,
                time_ms,
                max_dist_ms,
                floor,
                first_bin(center_bin as int, radius_bins as int),
                bin_after(center_bin as int, radius_bins as int, levels.len() as int),
                res,
            )
        },
{
    let n: usize = levels.len();
    if n == 0 || time_ms < 0 || max_dist_ms <= 0 {
        return None;
    }
    let start: usize = if center_bin <= radius_bins {
        1
    } else {
        center_bin - radius_bins
    };
    let last: usize = if n < 2 {
        0
    } else {
        n - 2
    };
    let end: usize = if center_bin >= last || radius_bins >= last - center_bin {
        last + 1
    } else {
        center_bin + radius_bins + 1
    };
    let ghost v = levels@;
    let ghost t = times@;
    assert(start == first_bin(center_bin as int, radius_bins as int));
    assert(end == bin_after(center_bin as int, radius_bins as int, n as int));
    let mut best: Option<usize> = None;
    let mut best_dist: i128 = 0;
    if start >= end {
        return None;
    }
    let mut b: usize = start;
    while b < end
        invariant
            1 <= start <= b <= end,
            end <= n - 1,
            n == levels.len(),
            n == times.len(),
            v == levels@,
            t == times@,
            match best {
                Some(k) => {
                    &&& best_dist == time_apart(t[k as int], time_ms)
                    &&& is_nearest(
                        v,
                        t,
                        time_ms,
                        max_dist_ms,
                        floor,
                        start as int,
                        b as int,
                        k as int,
                    )
                },
                None => forall|c: int|
                    start <= c < b ==> !#[trigger] is_candidate(
                        v,
                        t,
                        time_ms,
                        max_dist_ms,
                        floor,
                        c,
                    ),
            },
        decreases end - b,
    {
        let val: Level = levels[b];
        let diff: i128 = times[b] as i128 - time_ms as i128;
        let dist: i128 = if diff < 0 {
            -diff
        } else {
            diff
        };
        if val.above(levels[b - 1]) && !val.below(levels[b + 1]) && !val.below(floor) && dist
            <= max_dist_ms as i128 && (best.is_none() || dist < best_dist) {
            best = Some(b);
            best_dist = dist;
        }
        b += 1;
    }
    match best {
        Some(k) => Some(times[k]),
        None => None,
    }
}

/// There is only one nearest transient, so the time found is fixed.
pub proof fn lemma_nearest_unique(
    v: Seq<Level>,
    times: Seq<i64>,
    time_ms: i64,
    max_dist_ms: i64,
    floor: Level,
    start: int,
    end: int,
    a: Option<i64>,
    b: Option<i64>,
)
    requires
        nearest_found(v, times, time_ms, max_dist_ms, floor, start, end, a),
        nearest_found(v, times, time_ms, max_dist_ms, floor, start, end, b),
    ensures
        a == b,
        a matches Some(t) ==> time_apart(t, time_ms) <= max_dist_ms,
{
}

/// The bin of a waveform of `bins` bins that a time falls into; none before the
/// start or behind the end. `bin` is the place that the bin rate gives.
pub fn bin_at(bins: usize, time_ms: i64, bin: usize) -> (res: Option<usize>)
    ensures
        res == (if time_ms >= 0 && bin < bins {
            Some(bin)
        } else {
            None
        }),
{
    if time_ms >= 0 && bin < bins {
        Some(bin)
    } else {
        None
    }
}

/// What a query for a band's level at a time is answered with.
#[derive(Debug, Clone, Copy, PartialEq, Eq, Structural)]
pub enum LevelSource {
    /// The band's own signal at this bin
    Band(usize),
    /// The envelope at this bin
    Peak(usize),
    /// Nothing
    Silence,
}

/// Where the level of a band at a time is read: from the band's own signal, or
/// from the envelope where the waveform was not split into bands.
pub fn band_level_at(
    is_split: bool,
    band_bins: usize,
    peak_bins: usize,
    rate_positive: bool,
    time_ms: i64,
    bin: usize,
) -> (source: LevelSource)
    ensures
        source == (if time_ms < 0 {
            LevelSource::Silence
        } else if is_split {
            if rate_positive && bin < band_bins {
                LevelSource::Band(bin)
            } else {
                LevelSource::Silence
            }
        } else if bin < peak_bins {
            LevelSource::Peak(bin)
        } else {
            LevelSource::Silence
        }),
{
    if is_split {
        if !rate_positive {
            return LevelSource::Silence;
        }
        match bin_at(band_bins, time_ms, bin) {
            Some(b) => LevelSource::Band(b),
            None => LevelSource::Silence,
        }
    } else {
        match bin_at(peak_bins, time_ms, bin) {
            Some(b) => LevelSource::Peak(b),
            None => LevelSource::Silence,
        }
    }
}

/// Find the nearest transient of a single band, whose levels and times are
/// given. There is none in the full spectrum, nor without a bin rate.
pub fn find_nearest_band_transient(
    band: FrequencyBand,
    rate_positive: bool,
    levels: &Vec<Level>,
    times: &Vec<i64>,
    time_ms: i64,
    max_dist_ms: i64,
    center_bin: usize,
    radius_bins: usize,
    floor: Level,
) -> (res: Option<i64>)
    requires
        times.len() == levels.len(),
    ensures
        if band == FrequencyBand::FullSpectrum || !rate_positive || levels.len() == 0 || time_ms < 0
            || max_dist_ms <= 0 {
            res is None
        } else {
            nearest_found(
                levels@,
                times@,
                time_ms,
                max_dist_ms,
                floor,
                first_bin(center_bin as int, radius_bins as int),
                bin_after(center_bin as int, radius_bins as int, levels.len() as int),
                res,
            )
        },
{
    if band == FrequencyBand::FullSpectrum || !rate_positive {
        return None;
    }
    find_nearest_transient(levels, times, time_ms, max_dist_ms, center_bin, radius_bins, floor)
}

/// The bytes of sound that make one bin: 160 samples of two bytes.
pub const CHUNK_BYTES: usize = 320;

/// The sample that two bytes stand for, the low one first.
pub open spec fn sample_of(low: u8, high: u8) -> int {
    let n = low + 256 * high;
    if n < 32768 {
        n
    } else {
        n - 65536
    }
}

fn make_sample(low: u8, high: u8) -> (res: i16)
    ensures
        res == sample_of(low, high),
{
    let n: i32 = low as i32 + 256 * (high as i32);
    if n < 32768 {
        n as i16
    } else {
        (n - 65536) as i16
    }
}

/// The whole samples in the first `filled` bytes.
pub fn decode_samples(bytes: &Vec<u8>, filled: usize) -> (samples: Vec<i16>)
    requires
        filled <= bytes.len(),
    ensures
        samples.len() == filled / 2,
        forall|i: int|
            0 <= i < samples.len() ==> (#[trigger] samples@[i]) == sample_of(
                bytes@[2 * i],
                bytes@[2 * i + 1],
            ),
{
    let mut samples: Vec<i16> = Vec::new();
    let count: usize = filled / 2;
    let mut k: usize = 0;
    while k < count
        invariant
            k <= count,
            count == filled / 2,
            filled <= bytes.len(),
            samples.len() == k,
            forall|i: int|
                0 <= i < samples.len() ==> (#[trigger] samples@[i]) == sample_of(
                    bytes@[2 * i],
                    bytes@[2 * i + 1],
                ),
        decreases count - k,
    {
        samples.push(make_sample(bytes[2 * k], bytes[2 * k + 1]));
        k += 1;
    }
    samples
}

/// The window with its oldest samples pushed out by new ones.
pub open spec fn slid(window: Seq<i16>, samples: Seq<i16>) -> Seq<i16> {
    window.skip(samples.len() as int) + samples
}

/// Slides new samples into the window that a spectrum is taken of.
pub fn slide_window(window: &Vec<i16>, samples: &Vec<i16>) -> (res: Vec<i16>)
    requires
        window.len() == FFT_SIZE,
        samples.len() <= FFT_SIZE,
    ensures
        res@ == slid(window@, samples@),
        res.len() == FFT_SIZE,
{
    let mut res: Vec<i16> = Vec::new();
    let mut i: usize = samples.len();
    while i < window.len()
        invariant
            samples.len() <= i <= window.len(),
            res@ == window@.subrange(samples.len() as int, i as int),
        decreases window.len() - i,
    {
        res.push(window[i]);
        i += 1;
    }
    assert(res@ =~= window@.skip(samples.len() as int));
    let mut k: usize = 0;
    while k < samples.len()
        invariant
            k <= samples.len(),
            res@ == window@.skip(samples.len() as int) + samples@.take(k as int),
        decreases samples.len() - k,
    {
        res.push(samples[k]);
        assert(samples@.take(k + 1) =~= samples@.take(k as int).push(samples@[k as int]));
        k += 1;
    }
    assert(samples@.take(k as int) =~= samples@);
    res
}

/// What is done with the bytes that were read for a bin.
#[derive(Debug, Clone, Copy, PartialEq, Eq, Structural)]
pub struct ChunkPlan {
    /// A bin is made of this many samples, if any
    pub samples: usize,
    /// Nothing follows
    pub is_last: bool,
}

/// A full chunk goes on; one that the end of the sound cut short is the last.
pub fn plan_chunk(bytes_read: usize) -> (plan: ChunkPlan)
    ensures
        plan.samples == bytes_read / 2,
        plan.is_last == (bytes_read < CHUNK_BYTES),
{
    ChunkPlan { samples: bytes_read / 2, is_last: bytes_read < CHUNK_BYTES }
}

/// A search covers the bins at most `radius` away from its center, but for the first bin and
/// the last, which have a neighbor missing.
pub proof fn lemma_searched_bins(center: int, radius: int, n: int, b: int)
    requires
        0 <= center,
        0 <= radius,
        0 <= n,
    ensures
        first_bin(center, radius) <= b < bin_after(center, radius, n) <==> center - radius <= b
            <= center + radius && 1 <= b < n - 1,
{
}

/// No transient is passed over: where bin `b` of those searched is louder than the one
/// before it, as loud as the next, reaches the floor and is within reach, a time is found,
/// and it is at least as near as the bin's.
pub proof fn lemma_no_transient_passed_over(
    v: Seq<Level>,
    times: Seq<i64>,
    time_ms: i64,
    max_dist_ms: i64,
    floor: Level,
    start: int,
    end: int,
    found: Option<i64>,
    b: int,
)
    requires
        nearest_found(v, times, time_ms, max_dist_ms, floor, start, end, found),
        start <= b < end,
        v[b].key > v[b - 1].key,
        v[b].key >= v[b + 1].key,
        v[b].key >= floor.key,
        time_ms - max_dist_ms <= times[b] <= time_ms + max_dist_ms,
    ensures
        found is Some,
        found->0 - time_ms <= times[b] - time_ms || found->0 - time_ms <= time_ms - times[b],
        time_ms - found->0 <= times[b] - time_ms || time_ms - found->0 <= time_ms - times[b],
{
    assert(is_candidate(v, times, time_ms, max_dist_ms, floor, b));
}

/// What is found is a transient: the time of a searched bin that is louder than the one
/// before it, as loud as the next, reaches the floor and is within reach. The bin is
/// returned.
pub proof fn lemma_found_is_transient(
    v: Seq<Level>,
    times: Seq<i64>,
    time_ms: i64,
    max_dist_ms: i64,
    floor: Level,
    start: int,
    end: int,
    found: Option<i64>,
) -> (b: int)
    requires
        nearest_found(v, times, time_ms, max_dist_ms, floor, start, end, found),
        found is Some,
    ensures
        start <= b < end,
        found->0 == times[b],
        v[b].key > v[b - 1].key,
        v[b].key >= v[b + 1].key,
        v[b].key >= floor.key,
        time_ms - max_dist_ms <= times[b] <= time_ms + max_dist_ms,
{
    choose|b: int|
        #[trigger] is_nearest(v, times, time_ms, max_dist_ms, floor, start, end, b) && found->0
            == times[b]
}

/// Two bytes make the sample whose remainder by 2 to the 16th they spell, from -32768 to
/// 32767.
pub proof fn lemma_sample_of(low: u8, high: u8)
    ensures
        -32768 <= sample_of(low, high) <= 32767,
        sample_of(low, high) % 65536 == low + 256 * high,
{
}

/// The window keeps its length: the new samples are its last ones, behind the newest of the
/// old ones, in their order.
pub proof fn lemma_slid(window: Seq<i16>, samples: Seq<i16>, i: int)
    requires
        samples.len() <= window.len(),
        0 <= i < window.len(),
    ensures
        slid(window, samples).len() == window.len(),
        i + samples.len() < window.len() ==> slid(window, samples)[i] == window[i + samples.len()],
        i + samples.len() >= window.len() ==> slid(window, samples)[i] == samples[i + samples.len()
            - window.len()],
{
}

} // verus!
