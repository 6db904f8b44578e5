//! From the spectrum of an audio track to keyframes: the layout of the
//! transform, the bands, beats, and the companion scripts of a bundle.
use crate::axis::{AxisChannel, MultiAxisScript};
use crate::funscript::{
    clamp_pos, clamped, make_script, sanitized, script_of, Action, Funscript,
};
use crate::level::Level;
use vstd::arithmetic::div_mod::{lemma_fundamental_div_mod, lemma_fundamental_div_mod_converse};
use vstd::prelude::*;

verus! {

/// Samples of one transform
pub const FFT_SIZE: usize = 256;

/// Bands of the spectrogram
pub const NUM_SPEC_BANDS: usize = 16;

/// The bits of `x` in reverse order.
pub open spec fn reversed_bits(x: u8) -> u8 {
    ((x & 0x01) << 7) | ((x & 0x02) << 5) | ((x & 0x04) << 3) | ((x & 0x08) << 1) | ((x & 0x10)
        >> 1) | ((x & 0x20) >> 3) | ((x & 0x40) >> 5) | ((x & 0x80) >> 7)
}

/// The bits of `x` in reverse order.
pub fn reverse_bits(x: u8) -> (res: u8)
    ensures
        res == reversed_bits(x),
{
    ((x & 0x01) << 7) | ((x & 0x02) << 5) | ((x & 0x04) << 3) | ((x & 0x08) << 1) | ((x & 0x10)
        >> 1) | ((x & 0x20) >> 3) | ((x & 0x40) >> 5) | ((x & 0x80) >> 7)
}

/// Reversing twice gives the bits back, so the reordering of the samples is a
/// permutation that undoes itself.
pub proof fn lemma_reversed_twice(x: u8)
    ensures
        reversed_bits(reversed_bits(x)) == x,
{
    assert(reversed_bits(reversed_bits(x)) == x) by (bit_vector);
}

/// Bit `k` of the reversed bits is bit `7 - k` of the bits.
pub proof fn lemma_reversed_bit(x: u8, k: u8)
    requires
        k < 8,
    ensures
        (reversed_bits(x) >> k) & 1 == (x >> ((7 - k) as u8)) & 1,
{
    let j: u8 = (7 - k) as u8;
    assert((reversed_bits(x) >> k) & 1 == (x >> j) & 1) by (bit_vector)
        requires
            k < 8,
            j == 7 - k,
    ;
}

/// For each of the samples of a transform the place it is taken from.
pub fn bit_reversal_table() -> (table: Vec<usize>)
    ensures
        table.len() == FFT_SIZE,
        forall|i: int| 0 <= i < 256 ==> #[trigger] table@[i] == reversed_bits(i as u8),
{
    let mut table: Vec<usize> = Vec::new();
    let mut i: usize = 0;
    while i < FFT_SIZE
        invariant
            i <= FFT_SIZE,
            table.len() == i,
            forall|k: int| 0 <= k < i ==> #[trigger] table@[k] == reversed_bits(k as u8),
        decreases FFT_SIZE - i,
    {
        table.push(reverse_bits(i as u8) as usize);
        i += 1;
    }
    table
}

/// One step of a transform: two slots are replaced by their sum and difference,
/// the lower one turned by a twiddle factor first.
#[derive(Debug, Clone, Copy, PartialEq, Eq, Structural)]
pub struct Butterfly {
    pub top: usize,
    pub bottom: usize,
    pub twiddle: usize,
}

/// How far apart the slots of a stage's butterflies lie: from 1 on, doubled from
/// stage to stage.
pub open spec fn half_of(stage: int) -> int {
    if stage <= 0 {
        1
    } else if stage == 1 {
        2
    } else if stage == 2 {
        4
    } else if stage == 3 {
        8
    } else if stage == 4 {
        16
    } else if stage == 5 {
        32
    } else if stage == 6 {
        64
    } else {
        128
    }
}

/// Butterfly `j` of a stage: the stage's groups of slots follow each other, and in
/// each group the slots of its first half meet those of its second.
pub open spec fn is_butterfly(b: Butterfly, stage: int, j: int) -> bool {
    let half = half_of(stage);
    &&& b.top == (j / half) * (2 * half) + j % half
    &&& b.bottom == b.top + half
    &&& b.twiddle == (j % half) * (128int / half)
}

/// The butterfly of a stage that a slot takes part in.
pub open spec fn butterfly_of(stage: int, slot: int) -> int {
    let half = half_of(stage);
    (slot / (2 * half)) * half + slot % half
}

/// In every stage each slot takes part in exactly one butterfly.
pub proof fn lemma_slot_meets_once(b: Butterfly, stage: int, j: int, slot: int)
    requires
        0 <= stage < 8,
        0 <= j < 128,
        0 <= slot < 256,
        is_butterfly(b, stage, j),
    ensures
        b.top < b.bottom < 256,
        b.twiddle < 128,
        0 <= butterfly_of(stage, slot) < 128,
        slot == b.top || slot == b.bottom <==> j == butterfly_of(stage, slot),
{
    let h = half_of(stage);
    lemma_butterfly_fits(stage, j);
    lemma_fundamental_div_mod(j, h);
    lemma_fundamental_div_mod(slot, 2 * h);
    let q = j / h;
    let r = j % h;
    let n = slot / (2 * h);
    let t = slot % (2 * h);
    let a = q * h;
    let c = n * h;
    assert(h * q == a && q * (2 * h) == 2 * a && (2 * h) * q == 2 * a) by (nonlinear_arith)
        requires
            a == q * h,
    ;
    assert(h * n == c && (2 * h) * n == 2 * c && (2 * n) * h == 2 * c && (2 * n + 1) * h == 2 * c
        + h) by (nonlinear_arith)
        requires
            c == n * h,
    ;
    assert(0 <= c && c + h <= 128) by {
        let m = 128int / h;
        assert(n >= 0 && n + 1 <= m) by (nonlinear_arith)
            requires
                h >= 1,
                h * m == 128,
                (2 * h) * n + t == slot,
                0 <= t < 2 * h,
                0 <= slot < 256,
        ;
        assert(0 <= c && c + h <= 128) by (nonlinear_arith)
            requires
                c == n * h,
                h >= 1,
                n >= 0,
                n + 1 <= m,
                h * m == 128,
        ;
    }
    if t < h {
        lemma_fundamental_div_mod_converse(slot, h, 2 * n, t);
    } else {
        lemma_fundamental_div_mod_converse(slot, h, 2 * n + 1, t - h);
    }
    if slot == b.top {
        lemma_fundamental_div_mod_converse(slot, 2 * h, q, r);
    }
    if slot == b.bottom {
        lemma_fundamental_div_mod_converse(slot, 2 * h, q, r + h);
    }
    if j == butterfly_of(stage, slot) {
        lemma_fundamental_div_mod_converse(j, h, n, slot % h);
    }
}

proof fn lemma_butterfly_fits(stage: int, j: int)
    requires
        0 <= stage < 8,
        0 <= j < 128,
    ensures
        ({
            let h = half_of(stage);
            &&& 1 <= h <= 128
            &&& h * (128int / h) == 128
            &&& 0 <= (j / h) * (2 * h)
            &&& (j / h) * (2 * h) + 2 * h <= 256
            &&& 0 <= j % h < h
            &&& 0 <= (j % h) * (128int / h) < 128
        }),
{
    let h = half_of(stage);
    let m: int = if stage == 0 {
        128
    } else if stage == 1 {
        64
    } else if stage == 2 {
        32
    } else if stage == 3 {
        16
    } else if stage == 4 {
        8
    } else if stage == 5 {
        4
    } else if stage == 6 {
        2
    } else {
        1
    };
    assert(h * m == 128);
    assert(m * h == 128) by (nonlinear_arith)
        requires
            h * m == 128,
    ;
    lemma_fundamental_div_mod_converse(128, h, m, 0);
    lemma_fundamental_div_mod(j, h);
    let q = j / h;
    let r = j % h;
    assert(0 <= q && q + 1 <= m) by (nonlinear_arith)
        requires
            h >= 1,
            h * m == 128,
            h * q + r == j,
            0 <= r < h,
            0 <= j < 128,
    ;
    assert(0 <= q * (2 * h) && q * (2 * h) + 2 * h <= 256) by (nonlinear_arith)
        requires
            h >= 1,
            0 <= q,
            q + 1 <= m,
            h * m == 128,
    ;
    assert(0 <= r * m < 128) by (nonlinear_arith)
        requires
            0 <= r < h,
            m >= 1,
            h * m == 128,
    ;
}

/// The butterflies of a stage, in order.
pub fn stage_butterflies(stage: usize) -> (list: Vec<Butterfly>)
    requires
        stage < 8,
    ensures
        list.len() == 128,
        forall|j: int| 0 <= j < 128 ==> is_butterfly(#[trigger] list@[j], stage as int, j),
{
    let half: usize = match stage {
        0 => 1,
        1 => 2,
        2 => 4,
        3 => 8,
        4 => 16,
        5 => 32,
        6 => 64,
        _ => 128,
    };
    let mut list: Vec<Butterfly> = Vec::new();
    let mut j: usize = 0;
    while j < 128
        invariant
            j <= 128,
            stage < 8,
            half == half_of(stage as int),
            list.len() == j,
            forall|k: int| 0 <= k < j ==> is_butterfly(#[trigger] list@[k], stage as int, k),
        decreases 128 - j,
    {
        proof {
            lemma_butterfly_fits(stage as int, j as int);
        }
        let top: usize = (j / half) * (2 * half) + j % half;
        list.push(
            Butterfly { top, bottom: top + half, twiddle: (j % half) * (128 / half) },
        );
        j += 1;
    }
    list
}

/// The frequency bins that band `i` of the spectrogram sums up.
pub open spec fn band_range(i: int) -> (usize, usize) {
    if i == 0 {
        (1, 2)
    } else if i == 1 {
        (2, 3)
    } else if i == 2 {
        (3, 5)
    } else if i == 3 {
        (5, 7)
    } else if i == 4 {
        (7, 10)
    } else if i == 5 {
        (10, 14)
    } else if i == 6 {
        (14, 19)
    } else if i == 7 {
        (19, 25)
    } else if i == 8 {
        (25, 32)
    } else if i == 9 {
        (32, 40)
    } else if i == 10 {
        (40, 50)
    } else if i == 11 {
        (50, 62)
    } else if i == 12 {
        (62, 76)
    } else if i == 13 {
        (76, 92)
    } else if i == 14 {
        (92, 110)
    } else {
        (110, 128)
    }
}

/// The frequency bins `start..end` that a band of the spectrogram sums up.
pub fn band_bounds(i: usize) -> (bounds: (usize, usize))
    requires
        i < NUM_SPEC_BANDS,
    ensures
        bounds == band_range(i as int),
{
    match i {
        0 => (1, 2),
        1 => (2, 3),
        2 => (3, 5),
        3 => (5, 7),
        4 => (7, 10),
        5 => (10, 14),
        6 => (14, 19),
        7 => (19, 25),
        8 => (25, 32),
        9 => (32, 40),
        10 => (40, 50),
        11 => (50, 62),
        12 => (62, 76),
        13 => (76, 92),
        14 => (92, 110),
        _ => (110, 128),
    }
}

/// The bands follow each other without gap or overlap, none is empty, and
/// together they cover every bin but the constant one.
pub proof fn lemma_bands_partition(i: int)
    requires
        0 <= i < NUM_SPEC_BANDS,
    ensures
        band_range(i).0 < band_range(i).1 <= 128,
        i + 1 < NUM_SPEC_BANDS ==> band_range(i).1 == band_range(i + 1).0,
        band_range(0).0 == 1,
        band_range(15).1 == 128,
{
}

/// User-selectable frequency band for haptic coupling
#[derive(Debug, Clone, Copy, PartialEq, Eq, Hash, Structural)]
pub enum FrequencyBand {
    /// 20 - 250 Hz (kicks, thumps, heavy impacts)
    SubBass,
    /// 250 - 2500 Hz (vocal body, slaps, rhythm)
    Mid,
    /// 2500 - 8000 Hz (crisp transients, high accents)
    High,
    /// Full RMS envelope
    FullSpectrum,
}

impl Default for FrequencyBand {
    fn default() -> (res: Self)
        ensures
            res == FrequencyBand::SubBass,
    {
        FrequencyBand::SubBass
    }
}

impl FrequencyBand {
    pub const ALL: [FrequencyBand; 4] = [
        FrequencyBand::SubBass,
        FrequencyBand::Mid,
        FrequencyBand::High,
        FrequencyBand::FullSpectrum,
    ];

    pub fn display_name(&self) -> (name: &'static str)
        ensures
            name@ == (match *self {
                FrequencyBand::SubBass => "Sub-Bass (20 - 250 Hz)"@,
                FrequencyBand::Mid => "Mid-Range (250 - 2500 Hz)"@,
                FrequencyBand::High => "Highs / Transients (2.5 - 8 kHz)"@,
                FrequencyBand::FullSpectrum => "Full Audio RMS"@,
            }),
    {
        match self {
            FrequencyBand::SubBass => "Sub-Bass (20 - 250 Hz)",
            FrequencyBand::Mid => "Mid-Range (250 - 2500 Hz)",
            FrequencyBand::High => "Highs / Transients (2.5 - 8 kHz)",
            FrequencyBand::FullSpectrum => "Full Audio RMS",
        }
    }

    pub fn short_name(&self) -> (name: &'static str)
        ensures
            name@ == (match *self {
                FrequencyBand::SubBass => "Bass"@,
                FrequencyBand::Mid => "Mid"@,
                FrequencyBand::High => "High"@,
                FrequencyBand::FullSpectrum => "Full"@,
            }),
    {
        match self {
            FrequencyBand::SubBass => "Bass",
            FrequencyBand::Mid => "Mid",
            FrequencyBand::High => "High",
            FrequencyBand::FullSpectrum => "Full",
        }
    }

    /// Which signal is followed for the band: its own, or the full envelope
    /// where the band has no samples.
    pub fn source(&self, sub_bass_len: usize, mid_len: usize, high_len: usize) -> (source:
        FrequencyBand)
        ensures
            source == (match *self {
                FrequencyBand::SubBass if sub_bass_len > 0 => FrequencyBand::SubBass,
                FrequencyBand::Mid if mid_len > 0 => FrequencyBand::Mid,
                FrequencyBand::High if high_len > 0 => FrequencyBand::High,
                _ => FrequencyBand::FullSpectrum,
            }),
    {
        match self {
            FrequencyBand::SubBass if sub_bass_len > 0 => FrequencyBand::SubBass,
            FrequencyBand::Mid if mid_len > 0 => FrequencyBand::Mid,
            FrequencyBand::High if high_len > 0 => FrequencyBand::High,
            _ => FrequencyBand::FullSpectrum,
        }
    }
}

/// Coupling strategy for converting spectral energy into physical actions
#[derive(Debug, Clone, Copy, PartialEq, Eq, Hash, Structural)]
pub enum SpectralInfillMode {
    /// Transient beat detection with turnaround points (peaks/valleys)
    RhythmicBeats,
    /// Attack/decay smoothed continuous volume envelope
    EnvelopeFollower,
    /// Continuous oscillatory wave (e.g. 8 Hz) amplitude-modulated by energy
    ModulatedOscillation,
}

impl Default for SpectralInfillMode {
    fn default() -> (res: Self)
        ensures
            res == SpectralInfillMode::RhythmicBeats,
    {
        SpectralInfillMode::RhythmicBeats
    }
}

impl SpectralInfillMode {
    pub const ALL: [SpectralInfillMode; 3] = [
        SpectralInfillMode::RhythmicBeats,
        SpectralInfillMode::EnvelopeFollower,
        SpectralInfillMode::ModulatedOscillation,
    ];

    pub fn display_name(&self) -> (name: &'static str)
        ensures
            name@ == (match *self {
                SpectralInfillMode::RhythmicBeats => "Rhythmic Beats (Turnaround Pulses)"@,
                SpectralInfillMode::EnvelopeFollower => "Envelope Follower (Continuous Dynamics)"@,
                SpectralInfillMode::ModulatedOscillation => {
                    "Modulated Oscillation (Audio-Reactive Vibe)"@
                },
            }),
    {
        match self {
            SpectralInfillMode::RhythmicBeats => "Rhythmic Beats (Turnaround Pulses)",
            SpectralInfillMode::EnvelopeFollower => "Envelope Follower (Continuous Dynamics)",
            SpectralInfillMode::ModulatedOscillation => "Modulated Oscillation (Audio-Reactive Vibe)",
        }
    }
}

/// Configuration parameters for spectral haptic infill. The threshold and the
/// frequency are carried by the bits of their floating-point numbers.
#[derive(Debug, Clone, Copy, PartialEq, Eq, Structural)]
pub struct SpectralInfillConfig {
    pub band: FrequencyBand,
    pub target_axis: AxisChannel,
    pub mode: SpectralInfillMode,
    /// Minimum normalized threshold to trigger motion
    pub threshold_bits: u32,
    /// Output position floor [0, 100]
    pub min_pos: i32,
    /// Output position ceiling [0, 100]
    pub max_pos: i32,
    /// Minimum interval between rhythmic beat pulses in ms (prevents motor stall)
    pub min_interval_ms: i64,
    /// Modulation frequency in Hz for ModulatedOscillation mode
    pub modulation_freq_bits: u32,
}

impl Default for SpectralInfillConfig {
    fn default() -> (res: Self)
        ensures
            res == (SpectralInfillConfig {
                band: FrequencyBand::SubBass,
                target_axis: AxisChannel::Stroke,
                mode: SpectralInfillMode::RhythmicBeats,
                threshold_bits: 0x3eb33333,
                min_pos: 10,
                max_pos: 90,
                min_interval_ms: 180,
                modulation_freq_bits: 0x41000000,
            }),
    {
        SpectralInfillConfig {
            band: FrequencyBand::SubBass,
            target_axis: AxisChannel::Stroke,
            mode: SpectralInfillMode::RhythmicBeats,
            threshold_bits: 0x3eb33333,
            min_pos: 10,
            max_pos: 90,
            min_interval_ms: 180,
            modulation_freq_bits: 0x41000000,
        }
    }
}

/// What has been found of the beats so far.
#[verifier::ext_equal]
pub struct BeatState {
    pub actions: Seq<Action>,
    /// The bin of the last beat, 0 before the first
    pub last: int,
    /// The last beat went up
    pub high: bool,
}

/// Bin `b` is a beat: a local peak that reaches the threshold, the first one or
/// far enough behind the last.
pub open spec fn is_beat(
    s: BeatState,
    v: Seq<Level>,
    threshold: Level,
    interval: int,
    b: int,
) -> bool {
    &&& v[b].key > v[b - 1].key
    &&& v[b].key >= v[b + 1].key
    &&& v[b].key >= threshold.key
    &&& s.last == 0 || b - s.last >= interval
}

/// The beats after bin `b`: a beat goes up to its strike, or back down; a long
/// gap before it is filled with a return halfway.
pub open spec fn beat_step(
    s: BeatState,
    v: Seq<Level>,
    times: Seq<i64>,
    strikes: Seq<i32>,
    threshold: Level,
    interval: int,
    min_p: i32,
    max_p: i32,
    b: int,
) -> BeatState {
    if !is_beat(s, v, threshold, interval, b) {
        s
    } else {
        let returned = if s.last > 0 && b - s.last > interval * 2 {
            s.actions.push(
                Action {
                    at: times[(s.last + b) / 2],
                    pos: if s.high {
                        min_p
                    } else {
                        max_p
                    },
                },
            )
        } else {
            s.actions
        };
        BeatState {
            actions: returned.push(
                Action {
                    at: times[b],
                    pos: clamped(
                        if s.high {
                            min_p
                        } else {
                            strikes[b]
                        },
                    ),
                },
            ),
            last: b,
            high: !s.high,
        }
    }
}

/// The beats of the bins from `start` to before `end`.
pub open spec fn beats(
    v: Seq<Level>,
    times: Seq<i64>,
    strikes: Seq<i32>,
    threshold: Level,
    interval: int,
    min_p: i32,
    max_p: i32,
    start: int,
    end: int,
) -> BeatState
    decreases end - start,
{
    if end <= start {
        BeatState { actions: Seq::empty(), last: 0, high: false }
    } else {
        beat_step(
            beats(v, times, strikes, threshold, interval, min_p, max_p, start, end - 1),
            v,
            times,
            strikes,
            threshold,
            interval,
            min_p,
            max_p,
            end - 1,
        )
    }
}

/// The keyframes of the beats between two bins. `strikes[b]` is how far up a
/// beat at bin `b` goes, and `times[b]` is when it is.
pub fn beat_actions(
    signal: &Vec<Level>,
    times: &Vec<i64>,
    strikes: &Vec<i32>,
    threshold: Level,
    min_interval_bins: usize,
    min_p: i32,
    max_p: i32,
    start_bin: usize,
    end_bin: usize,
) -> (actions: Vec<Action>)
    requires
        start_bin < end_bin <= signal.len(),
        times.len() == signal.len(),
        strikes.len() == signal.len(),
    ensures
        actions@ == beats(
            signal@,
            times@,
            strikes@,
            threshold,
            min_interval_bins as int,
            min_p,
            max_p,
            start_bin + 1,
            end_bin - 1,
        ).actions,
{
    let mut actions: Vec<Action> = Vec::new();
    let mut last: usize = 0;
    let mut high: bool = false;
    let mut b: usize = start_bin + 1;
    let ghost v = signal@;
    let ghost interval = min_interval_bins as int;
    if b >= end_bin - 1 {
        assert(actions@ =~= Seq::empty());
        return actions;
    }
    while b < end_bin - 1
        invariant
            start_bin + 1 <= b <= end_bin - 1,
            end_bin <= signal.len(),
            times.len() == signal.len(),
            strikes.len() == signal.len(),
            v == signal@,
            interval == min_interval_bins,
            last < b,
            beats(
                v,
                times@,
                strikes@,
                threshold,
                interval,
                min_p,
                max_p,
                start_bin + 1,
                b as int,
            ) == (BeatState { actions: actions@, last: last as int, high }),
        decreases end_bin - b,
    {
        let val: Level = signal[b];
        if val.above(signal[b - 1]) && !val.below(signal[b + 1]) && !val.below(threshold) {
            let gap: usize = b - last;
            if last == 0 || gap >= min_interval_bins {
                if last > 0 && gap - min_interval_bins > min_interval_bins {
                    let mid: usize = last + gap / 2;
                    assert(mid == (last + b) / 2);
                    let pos: i32 = if high {
                        min_p
                    } else {
                        max_p
                    };
                    actions.push(Action { at: times[mid], pos });
                }
                let target: i32 = if high {
                    min_p
                } else {
                    strikes[b]
                };
                actions.push(Action { at: times[b], pos: clamp_pos(target) });
                high = !high;
                last = b;
            }
        }
        b += 1;
    }
    actions
}

/// The bins of the beats from `start` to before `end`.
pub open spec fn beat_bins(
    v: Seq<Level>,
    times: Seq<i64>,
    strikes: Seq<i32>,
    threshold: Level,
    interval: int,
    min_p: i32,
    max_p: i32,
    start: int,
    end: int,
) -> Seq<int>
    decreases end - start,
{
    if end <= start {
        Seq::empty()
    } else {
        let earlier = beat_bins(
            v,
            times,
            strikes,
            threshold,
            interval,
            min_p,
            max_p,
            start,
            end - 1,
        );
        let s = beats(v, times, strikes, threshold, interval, min_p, max_p, start, end - 1);
        if is_beat(s, v, threshold, interval, end - 1) {
            earlier.push(end - 1)
        } else {
            earlier
        }
    }
}

/// Beats are local peaks that reach the threshold and lie at least the interval
/// apart. They alternate: one goes up to its strike, the next one back down.
pub proof fn lemma_beat_spacing(
    v: Seq<Level>,
    times: Seq<i64>,
    strikes: Seq<i32>,
    threshold: Level,
    interval: int,
    min_p: i32,
    max_p: i32,
    start: int,
    end: int,
)
    requires
        interval > 0,
        start > 0,
    ensures
        ({
            let s = beats(v, times, strikes, threshold, interval, min_p, max_p, start, end);
            let bins = beat_bins(
                v,
                times,
                strikes,
                threshold,
                interval,
                min_p,
                max_p,
                start,
                end,
            );
            &&& forall|i: int, j: int|
                0 <= i < j < bins.len() ==> (#[trigger] bins[j]) - (#[trigger] bins[i]) >= interval
            &&& forall|i: int|
                0 <= i < bins.len() ==> {
                    let b = #[trigger] bins[i];
                    &&& start <= b < end
                    &&& v[b - 1].key < v[b].key
                    &&& v[b + 1].key <= v[b].key
                    &&& threshold.key <= v[b].key
                    &&& s.actions.contains(
                        Action {
                            at: times[b],
                            pos: clamped(
                                if i % 2 == 0 {
                                    strikes[b]
                                } else {
                                    min_p
                                },
                            ),
                        },
                    )
                }
            &&& s.last == (if bins.len() == 0 {
                0
            } else {
                bins.last()
            })
            &&& s.high == (bins.len() % 2 == 1)
        }),
    decreases end - start,
{
    if end > start {
        lemma_beat_spacing(
            v,
            times,
            strikes,
            threshold,
            interval,
            min_p,
            max_p,
            start,
            end - 1,
        );
        let s = beats(v, times, strikes, threshold, interval, min_p, max_p, start, end - 1);
        let t = beats(v, times, strikes, threshold, interval, min_p, max_p, start, end);
        let earlier = beat_bins(
            v,
            times,
            strikes,
            threshold,
            interval,
            min_p,
            max_p,
            start,
            end - 1,
        );
        assert forall|a: Action| s.actions.contains(a) implies t.actions.contains(a) by {
            let k = s.actions.index_of(a);
            assert(t.actions[k] == a);
        }
        if is_beat(s, v, threshold, interval, end - 1) {
            assert(t.actions.last() == t.actions[t.actions.len() - 1]);
            assert forall|i: int| 0 <= i < earlier.len() implies end - 1 - (#[trigger] earlier[i])
                >= interval by {
                assert(earlier[i] <= earlier.last());
            }
        }
    }
}

/// No beat is missed: a local peak that reaches the threshold is a beat, unless it comes
/// less than the interval behind an earlier one.
pub proof fn lemma_no_beat_missed(
    v: Seq<Level>,
    times: Seq<i64>,
    strikes: Seq<i32>,
    threshold: Level,
    interval: int,
    min_p: i32,
    max_p: i32,
    start: int,
    end: int,
    b: int,
)
    requires
        interval > 0,
        0 < start <= b < end,
        v[b - 1].key < v[b].key,
        v[b + 1].key <= v[b].key,
        threshold.key <= v[b].key,
    ensures
        ({
            let bins = beat_bins(v, times, strikes, threshold, interval, min_p, max_p, start, end);
            bins.contains(b) || exists|i: int|
                0 <= i < bins.len() && (#[trigger] bins[i]) < b < bins[i] + interval
        }),
    decreases end - start,
{
    let earlier = beat_bins(v, times, strikes, threshold, interval, min_p, max_p, start, end - 1);
    let bins = beat_bins(v, times, strikes, threshold, interval, min_p, max_p, start, end);
    if b < end - 1 {
        lemma_no_beat_missed(v, times, strikes, threshold, interval, min_p, max_p, start, end - 1, b);
        if earlier.contains(b) {
            let i = choose|i: int| 0 <= i < earlier.len() && earlier[i] == b;
            assert(bins[i] == b);
        } else {
            let i = choose|i: int|
                0 <= i < earlier.len() && (#[trigger] earlier[i]) < b < earlier[i] + interval;
            assert(bins[i] == earlier[i]);
        }
    } else {
        lemma_beat_spacing(v, times, strikes, threshold, interval, min_p, max_p, start, end - 1);
        let s = beats(v, times, strikes, threshold, interval, min_p, max_p, start, end - 1);
        if is_beat(s, v, threshold, interval, b) {
            assert(bins[earlier.len() as int] == b);
        } else {
            assert(bins[earlier.len() - 1] == s.last);
        }
    }
}

/// A gap of more than twice the interval between two beats is filled with a keyframe
/// halfway, which goes back: down behind a beat that went up, and up behind one that went
/// down.
pub proof fn lemma_long_gap_filled(
    v: Seq<Level>,
    times: Seq<i64>,
    strikes: Seq<i32>,
    threshold: Level,
    interval: int,
    min_p: i32,
    max_p: i32,
    start: int,
    end: int,
    i: int,
)
    requires
        interval > 0,
        start > 0,
        0 < i < beat_bins(v, times, strikes, threshold, interval, min_p, max_p, start, end).len(),
        beat_bins(v, times, strikes, threshold, interval, min_p, max_p, start, end)[i] - beat_bins(v, times, strikes, threshold, interval, min_p, max_p, start, end)[i - 1] > 2 * interval,
    ensures
        ({
            let bins = beat_bins(v, times, strikes, threshold, interval, min_p, max_p, start, end);
            beats(v, times, strikes, threshold, interval, min_p, max_p, start, end).actions.contains(
                Action {
                    at: times[(bins[i - 1] + bins[i]) / 2],
                    pos: if i % 2 == 1 {
                        min_p
                    } else {
                        max_p
                    },
                },
            )
        }),
    decreases end - start,
{
    let earlier = beat_bins(v, times, strikes, threshold, interval, min_p, max_p, start, end - 1);
    let bins = beat_bins(v, times, strikes, threshold, interval, min_p, max_p, start, end);
    let s = beats(v, times, strikes, threshold, interval, min_p, max_p, start, end - 1);
    let t = beats(v, times, strikes, threshold, interval, min_p, max_p, start, end);
    lemma_beat_spacing(v, times, strikes, threshold, interval, min_p, max_p, start, end - 1);
    let want = Action {
        at: times[(bins[i - 1] + bins[i]) / 2],
        pos: if i % 2 == 1 {
            min_p
        } else {
            max_p
        },
    };
    if i < earlier.len() {
        assert(bins[i] == earlier[i] && bins[i - 1] == earlier[i - 1]);
        lemma_long_gap_filled(v, times, strikes, threshold, interval, min_p, max_p, start, end - 1, i);
        let k = choose|k: int| 0 <= k < s.actions.len() && s.actions[k] == want;
        assert(t.actions[k] == want);
    } else {
        assert(bins[i] == end - 1 && bins[i - 1] == earlier.last());
        assert(s.last == bins[i - 1]);
        assert(t.actions[s.actions.len() as int] == want);
    }
}

/// The bins that are sampled start at the first one and lie a step apart, as far as they
/// stay before the end.
pub proof fn lemma_stepped_bins(start: int, end: int, step: int, k: int)
    requires
        0 <= start <= end <= usize::MAX,
        step > 0,
        0 <= k,
    ensures
        start + k * step < end <==> k < stepped_bins(start, end, step).len(),
        k < stepped_bins(start, end, step).len() ==> stepped_bins(start, end, step)[k] == start + k
            * step,
    decreases k,
{
    if start < end {
        let rest = stepped_bins(start + step, end, step);
        let all = stepped_bins(start, end, step);
        if k > 0 {
            assert(start + step + (k - 1) * step == start + k * step) by (nonlinear_arith);
            if start + step <= end {
                lemma_stepped_bins(start + step, end, step, k - 1);
            } else {
                assert(k * step >= step) by (nonlinear_arith)
                    requires
                        k >= 1,
                        step > 0,
                ;
                assert(rest =~= Seq::empty());
            }
            if k < all.len() {
                assert(all[k] == rest[k - 1]);
            }
        } else {
            assert(k * step == 0) by (nonlinear_arith)
                requires
                    k == 0,
            ;
            assert(all[0] == start);
        }
    } else {
        assert(k * step >= 0) by (nonlinear_arith)
            requires
                k >= 0,
                step > 0,
        ;
    }
}

/// A keyframe at a sampled bin has that bin's time and its position, brought to the nearer
/// end of the range where it lies outside.
pub proof fn lemma_sampled_keyframes(bins: Seq<usize>, times: Seq<i64>, positions: Seq<i32>, k: int)
    requires
        0 <= k < bins.len(),
    ensures
        sampled_keyframes(bins, times, positions).len() == bins.len(),
        ({
            let a = sampled_keyframes(bins, times, positions)[k];
            let p = positions[bins[k] as int];
            &&& a.at == times[bins[k] as int]
            &&& 0 <= p <= 100 ==> a.pos == p
            &&& p < 0 ==> a.pos == 0
            &&& p > 100 ==> a.pos == 100
        }),
{
}

/// Every `step`-th bin from `start` to before `end`.
pub open spec fn stepped_bins(start: int, end: int, step: int) -> Seq<usize>
    decreases (if start < end {
        end - start
    } else {
        0
    }),
{
    if start >= end || step <= 0 {
        Seq::empty()
    } else {
        seq![start as usize] + stepped_bins(start + step, end, step)
    }
}

/// Every `step_bins`-th bin from `start_bin` to before `end_bin`.
pub fn sample_bins(start_bin: usize, end_bin: usize, step_bins: usize) -> (bins: Vec<usize>)
    requires
        step_bins > 0,
    ensures
        bins@ == stepped_bins(start_bin as int, end_bin as int, step_bins as int),
        forall|k: int| 0 <= k < bins.len() ==> start_bin <= #[trigger] bins@[k] < end_bin,
{
    let mut bins: Vec<usize> = Vec::new();
    let mut b: usize = start_bin;
    let ghost whole = stepped_bins(start_bin as int, end_bin as int, step_bins as int);
    assert(bins@ + stepped_bins(b as int, end_bin as int, step_bins as int) =~= whole);
    while b < end_bin
        invariant
            step_bins > 0,
            start_bin <= b,
            start_bin < end_bin ==> b <= end_bin,
            bins@ + stepped_bins(b as int, end_bin as int, step_bins as int) == whole,
            forall|k: int| 0 <= k < bins.len() ==> start_bin <= #[trigger] bins@[k] < end_bin,
        decreases end_bin - b,
    {
        let ghost before = bins@;
        bins.push(b);
        let next: usize = if step_bins < end_bin - b {
            b + step_bins
        } else {
            end_bin
        };
        proof {
            let rest = stepped_bins(b + step_bins, end_bin as int, step_bins as int);
            assert(rest =~= stepped_bins(next as int, end_bin as int, step_bins as int));
            assert(bins@ + rest =~= before + (seq![b] + rest));
        }
        b = next;
    }
    assert(bins@ =~= whole);
    bins
}

/// The keyframes at the given bins, with positions clamped.
pub open spec fn sampled_keyframes(bins: Seq<usize>, times: Seq<i64>, positions: Seq<i32>) -> Seq<
    Action,
> {
    bins.map_values(
        |b: usize| Action { at: times[b as int], pos: clamped(positions[b as int]) },
    )
}

fn keyframes_at_bins(bins: &Vec<usize>, times: &Vec<i64>, positions: &Vec<i32>) -> (actions: Vec<
    Action,
>)
    requires
        times.len() == positions.len(),
        forall|k: int| 0 <= k < bins.len() ==> #[trigger] bins@[k] < times.len(),
    ensures
        actions@ == sampled_keyframes(bins@, times@, positions@),
{
    let mut actions: Vec<Action> = Vec::new();
    let mut k: usize = 0;
    while k < bins.len()
        invariant
            k <= bins.len(),
            times.len() == positions.len(),
            forall|k: int| 0 <= k < bins.len() ==> #[trigger] bins@[k] < times.len(),
            actions@ == sampled_keyframes(bins@, times@, positions@).take(k as int),
        decreases bins.len() - k,
    {
        let b: usize = bins[k];
        actions.push(Action { at: times[b], pos: clamp_pos(positions[b]) });
        k += 1;
        assert(actions@ =~= sampled_keyframes(bins@, times@, positions@).take(k as int));
    }
    assert(actions@ =~= sampled_keyframes(bins@, times@, positions@));
    actions
}

/// The keyframes that a stretch of a signal gives, before they are sanitized.
pub open spec fn infill_actions(
    config: SpectralInfillConfig,
    v: Seq<Level>,
    times: Seq<i64>,
    positions: Seq<i32>,
    threshold: Level,
    spacing: int,
    start: int,
    end: int,
) -> Seq<Action> {
    match config.mode {
        SpectralInfillMode::RhythmicBeats => beats(
            v,
            times,
            positions,
            threshold,
            spacing,
            clamped(config.min_pos),
            clamped(config.max_pos),
            start + 1,
            end - 1,
        ).actions,
        _ => sampled_keyframes(stepped_bins(start, end, spacing), times, positions),
    }
}

/// Synthesize funscript actions from the energy of an audio signal between two
/// bins. `positions[b]` is the position that bin `b` calls for, a beat's strike
/// or a sample of the curve; `spacing` is the least distance of beats or the
/// distance of samples, in bins.
pub fn synthesize_spectral_actions(
    config: &SpectralInfillConfig,
    signal: &Vec<Level>,
    times: &Vec<i64>,
    positions: &Vec<i32>,
    threshold: Level,
    spacing: usize,
    start_bin: usize,
    end_bin: usize,
) -> (actions: Vec<Action>)
    requires
        times.len() == signal.len(),
        positions.len() == signal.len(),
        end_bin <= signal.len(),
        spacing > 0,
    ensures
        start_bin >= end_bin ==> actions.len() == 0,
        start_bin < end_bin ==> actions@ == sanitized(
            infill_actions(
                *config,
                signal@,
                times@,
                positions@,
                threshold,
                spacing as int,
                start_bin as int,
                end_bin as int,
            ),
        ),
{
    if start_bin >= end_bin {
        return Vec::new();
    }
    let actions: Vec<Action> = match config.mode {
        SpectralInfillMode::RhythmicBeats => beat_actions(
            signal,
            times,
            positions,
            threshold,
            spacing,
            clamp_pos(config.min_pos),
            clamp_pos(config.max_pos),
            start_bin,
            end_bin,
        ),
        _ => {
            let bins: Vec<usize> = sample_bins(start_bin, end_bin, spacing);
            keyframes_at_bins(&bins, times, positions)
        },
    };
    let mut script = Funscript::new(actions);
    script.sanitize();
    script.actions
}

/// The settings of a companion script.
pub open spec fn companion_config(axis: AxisChannel) -> Option<SpectralInfillConfig> {
    match axis {
        AxisChannel::Stroke => Some(
            SpectralInfillConfig {
                band: FrequencyBand::SubBass,
                target_axis: axis,
                mode: SpectralInfillMode::RhythmicBeats,
                threshold_bits: 0x3e99999a,
                min_pos: 10,
                max_pos: 95,
                min_interval_ms: 220,
                modulation_freq_bits: 0x40a00000,
            },
        ),
        AxisChannel::Surge => Some(
            SpectralInfillConfig {
                band: FrequencyBand::SubBass,
                target_axis: axis,
                mode: SpectralInfillMode::EnvelopeFollower,
                threshold_bits: 0x3e4ccccd,
                min_pos: 30,
                max_pos: 75,
                min_interval_ms: 200,
                modulation_freq_bits: 0x40a00000,
            },
        ),
        AxisChannel::Twist => Some(
            SpectralInfillConfig {
                band: FrequencyBand::Mid,
                target_axis: axis,
                mode: SpectralInfillMode::ModulatedOscillation,
                threshold_bits: 0x3e800000,
                min_pos: 20,
                max_pos: 80,
                min_interval_ms: 150,
                modulation_freq_bits: 0x41000000,
            },
        ),
        AxisChannel::Suction => Some(
            SpectralInfillConfig {
                band: FrequencyBand::High,
                target_axis: axis,
                mode: SpectralInfillMode::EnvelopeFollower,
                threshold_bits: 0x3e4ccccd,
                min_pos: 0,
                max_pos: 85,
                min_interval_ms: 100,
                modulation_freq_bits: 0x41200000,
            },
        ),
        _ => None,
    }
}

/// The settings of the companion script of an axis, if the bundle has one for it.
pub fn companion_settings(axis: AxisChannel) -> (res: Option<SpectralInfillConfig>)
    ensures
        res == companion_config(axis),
{
    match axis {
        AxisChannel::Stroke => Some(
            SpectralInfillConfig {
                band: FrequencyBand::SubBass,
                target_axis: axis,
                mode: SpectralInfillMode::RhythmicBeats,
                threshold_bits: 0x3e99999a,
                min_pos: 10,
                max_pos: 95,
                min_interval_ms: 220,
                modulation_freq_bits: 0x40a00000,
            },
        ),
        AxisChannel::Surge => Some(
            SpectralInfillConfig {
                band: FrequencyBand::SubBass,
                target_axis: axis,
                mode: SpectralInfillMode::EnvelopeFollower,
                threshold_bits: 0x3e4ccccd,
                min_pos: 30,
                max_pos: 75,
                min_interval_ms: 200,
                modulation_freq_bits: 0x40a00000,
            },
        ),
        AxisChannel::Twist => Some(
            SpectralInfillConfig {
                band: FrequencyBand::Mid,
                target_axis: axis,
                mode: SpectralInfillMode::ModulatedOscillation,
                threshold_bits: 0x3e800000,
                min_pos: 20,
                max_pos: 80,
                min_interval_ms: 150,
                modulation_freq_bits: 0x41000000,
            },
        ),
        AxisChannel::Suction => Some(
            SpectralInfillConfig {
                band: FrequencyBand::High,
                target_axis: axis,
                mode: SpectralInfillMode::EnvelopeFollower,
                threshold_bits: 0x3e4ccccd,
                min_pos: 0,
                max_pos: 85,
                min_interval_ms: 100,
                modulation_freq_bits: 0x41200000,
            },
        ),
        _ => None,
    }
}

/// The companion bundle made of the keyframes synthesized for its four axes.
pub fn generate_multiband_companion_bundle(
    stroke: Vec<Action>,
    surge: Vec<Action>,
    twist: Vec<Action>,
    suction: Vec<Action>,
) -> (bundle: MultiAxisScript)
    ensures
        bundle@ == map![
            AxisChannel::Stroke => script_of(stroke@),
            AxisChannel::Surge => script_of(surge@),
            AxisChannel::Twist => script_of(twist@),
            AxisChannel::Suction => script_of(suction@),
        ],
{
    let mut bundle = MultiAxisScript::new();
    let ghost want = map![
        AxisChannel::Stroke => script_of(stroke@),
        AxisChannel::Surge => script_of(surge@),
        AxisChannel::Twist => script_of(twist@),
        AxisChannel::Suction => script_of(suction@),
    ];
    bundle.insert(AxisChannel::Stroke, make_script(stroke));
    bundle.insert(AxisChannel::Surge, make_script(surge));
    bundle.insert(AxisChannel::Twist, make_script(twist));
    bundle.insert(AxisChannel::Suction, make_script(suction));
    assert(bundle@ =~= want);
    bundle
}

/// Beats are looked for strictly inside the stretch, so that each has a neighbor on either
/// side in it; every other mode samples the stretch from its first bin on, one bin for each
/// spacing.
pub proof fn lemma_infill_modes(
    config: SpectralInfillConfig,
    v: Seq<Level>,
    times: Seq<i64>,
    positions: Seq<i32>,
    threshold: Level,
    spacing: int,
    start: int,
    end: int,
    k: int,
)
    requires
        0 <= config.min_pos <= 100,
        0 <= config.max_pos <= 100,
        0 <= start <= end <= usize::MAX,
        spacing > 0,
        0 <= k,
    ensures
        ({
            let made = infill_actions(
                config,
                v,
                times,
                positions,
                threshold,
                spacing,
                start,
                end,
            );
            &&& config.mode is RhythmicBeats ==> made == beats(
                v,
                times,
                positions,
                threshold,
                spacing,
                config.min_pos,
                config.max_pos,
                start + 1,
                end - 1,
            ).actions
            &&& !(config.mode is RhythmicBeats) ==> (k < made.len() <==> start + k * spacing < end)
            &&& !(config.mode is RhythmicBeats) && k < made.len() ==> made[k].at == times[start + k
                * spacing] && made[k].pos == clamped(positions[start + k * spacing])
        }),
{
    lemma_stepped_bins(start, end, spacing, k);
}

} // verus!
