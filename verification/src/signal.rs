//! From a displacement signal to keyframes: segments and windows of the
//! detrending, rolling extrema of the normalization, and the extraction of
//! keyframes at turning points.
use crate::funscript::Action;
use crate::level::Level;
use std::collections::VecDeque;
use vstd::prelude::*;

verus! {

/// What a level counts: itself, or its negative where the largest is sought.
pub open spec fn cost(level: Level, largest: bool) -> int {
    if largest {
        -level.key
    } else {
        level.key as int
    }
}

/// `m` is the place of the smallest cost in `[lo, hi]`, the last one among equals.
pub open spec fn is_window_best(v: Seq<Level>, largest: bool, lo: int, hi: int, m: int) -> bool {
    &&& lo <= m <= hi
    &&& forall|j: int|
        lo <= j <= hi ==> cost(v[m], largest) <= cost(#[trigger] v[j], largest) && (j > m ==> cost(
            v[m],
            largest,
        ) < cost(v[j], largest))
}

/// Some entry of `dq` stands at or after `j` and costs no more.
pub open spec fn covered(dq: Seq<usize>, v: Seq<Level>, largest: bool, j: int) -> bool {
    exists|a: int|
        0 <= a < dq.len() && j <= #[trigger] dq[a] && cost(v[dq[a] as int], largest) <= cost(
            v[j],
            largest,
        )
}

/// Places and costs strictly increase along `dq`, whose places lie in
/// `[0, r)`, and everything in `[lo, r)` is covered.
pub open spec fn monotone(dq: Seq<usize>, v: Seq<Level>, largest: bool, lo: int, r: int) -> bool {
    &&& forall|a: int| 0 <= a < dq.len() ==> #[trigger] dq[a] < r
    &&& forall|a: int, b: int| 0 <= a < b < dq.len() ==> dq[a] < dq[b]
    &&& forall|a: int, b: int|
        0 <= a < b < dq.len() ==> cost(v[#[trigger] dq[a] as int], largest) < cost(
            v[#[trigger] dq[b] as int],
            largest,
        )
    &&& forall|j: int| lo <= j < r ==> #[trigger] covered(dq, v, largest, j)
}

fn costs_at_least(a: Level, b: Level, largest: bool) -> (res: bool)
    ensures
        res == (cost(a, largest) >= cost(b, largest)),
{
    if largest {
        a.key <= b.key
    } else {
        a.key >= b.key
    }
}

fn push_monotone(dq: &mut VecDeque<usize>, values: &Vec<Level>, largest: bool, r: usize, Ghost(
    lo,
): Ghost<int>)
    requires
        r < values.len(),
        0 <= lo,
        monotone(old(dq)@, values@, largest, lo, r as int),
    ensures
        monotone(final(dq)@, values@, largest, lo, r + 1),
        final(dq)@.len() > 0,
        final(dq)@.last() == r,
{
    let ghost before = dq@;
    let val: Level = values[r];
    while dq.len() > 0 && costs_at_least(values[dq[dq.len() - 1]], val, largest)
        invariant
            r < values.len(),
            val == values@[r as int],
            dq@.len() <= before.len(),
            dq@ == before.take(dq@.len() as int),
            monotone(before, values@, largest, lo, r as int),
            forall|a: int| 0 <= a < dq@.len() ==> #[trigger] dq@[a] < values.len(),
            forall|a: int|
                dq@.len() <= a < before.len() ==> cost(
                    values@[#[trigger] before[a] as int],
                    largest,
                ) >= cost(val, largest),
        decreases dq.len(),
    {
        let _ = dq.pop_back();
        assert(dq@ =~= before.take(dq@.len() as int));
    }
    let ghost kept = dq@;
    dq.push_back(r);
    proof {
        let after = dq@;
        assert(after == kept.push(r));
        assert forall|a: int, b: int| 0 <= a < b < after.len() implies cost(
            values@[#[trigger] after[a] as int],
            largest,
        ) < cost(values@[#[trigger] after[b] as int], largest) by {
            if b < kept.len() {
                assert(after[a] == before[a] && after[b] == before[b]);
            } else {
                let last = kept.len() - 1;
                assert(kept[last] == before[last]);
                assert(after[a] == before[a]);
                if a < last {
                    assert(cost(values@[before[a] as int], largest) < cost(
                        values@[before[last] as int],
                        largest,
                    ));
                }
            }
        }
        assert forall|j: int| lo <= j < r + 1 implies #[trigger] covered(
            after,
            values@,
            largest,
            j,
        ) by {
            if j == r {
                assert(after[kept.len() as int] == r);
            } else {
                assert(covered(before, values@, largest, j));
                let a = choose|a: int|
                    0 <= a < before.len() && j <= #[trigger] before[a] && cost(
                        values@[before[a] as int],
                        largest,
                    ) <= cost(values@[j], largest);
                if a < kept.len() {
                    assert(after[a] == before[a]);
                } else {
                    assert(after[kept.len() as int] == r);
                }
            }
        }
    }
}

fn drop_passed(dq: &mut VecDeque<usize>, values: &Vec<Level>, largest: bool, start: usize, Ghost(
    lo,
): Ghost<int>, Ghost(r): Ghost<int>)
    requires
        lo <= start < r <= values.len(),
        monotone(old(dq)@, values@, largest, lo, r),
    ensures
        monotone(final(dq)@, values@, largest, start as int, r),
        final(dq)@.len() > 0,
        final(dq)@[0] >= start,
{
    let ghost before = dq@;
    proof {
        assert(covered(before, values@, largest, start as int));
        assert(before.skip(0) =~= before);
    }
    while dq.len() > 0 && dq[0] < start
        invariant
            lo <= start < r <= values.len(),
            dq@.len() <= before.len(),
            dq@ == before.skip(before.len() - dq@.len()),
            monotone(before, values@, largest, lo, r),
            forall|a: int| 0 <= a < before.len() - dq@.len() ==> #[trigger] before[a] < start,
        decreases dq.len(),
    {
        let ghost k = before.len() - dq@.len();
        assert(before[k] == dq@[0]);
        let _ = dq.pop_front();
        assert(dq@ =~= before.skip(k + 1));
    }
    proof {
        let after = dq@;
        let k = before.len() - after.len();
        assert forall|a: int| 0 <= a < after.len() implies after[a] == before[a + k] by {}
        assert forall|j: int| start <= j < r implies #[trigger] covered(
            after,
            values@,
            largest,
            j,
        ) by {
            assert(covered(before, values@, largest, j));
            let a = choose|a: int|
                0 <= a < before.len() && j <= #[trigger] before[a] && cost(
                    values@[before[a] as int],
                    largest,
                ) <= cost(values@[j], largest);
            assert(after[a - k] == before[a]);
        }
        assert(covered(after, values@, largest, start as int));
    }
}

/// Where the rolling window around `i` starts.
pub open spec fn window_start(i: int, half: int) -> int {
    if i < half {
        0
    } else {
        i - half
    }
}

/// Where the rolling window around `i` ends.
pub open spec fn window_end(i: int, half: int, n: int) -> int {
    if i + half < n - 1 {
        i + half
    } else {
        n - 1
    }
}

/// For each place the place of the smallest level (or of the largest) in the
/// window of `half` places either side, the last one among equals. Linear in
/// the number of levels.
pub fn rolling_extremum(values: &Vec<Level>, half: usize, largest: bool) -> (res: Vec<usize>)
    ensures
        res.len() == values.len(),
        forall|i: int|
            0 <= i < res.len() ==> is_window_best(
                values@,
                largest,
                window_start(i, half as int),
                window_end(i, half as int, values.len() as int),
                #[trigger] res@[i] as int,
            ),
{
    let n: usize = values.len();
    let mut res: Vec<usize> = Vec::new();
    let mut dq: VecDeque<usize> = VecDeque::new();
    let mut r: usize = 0;
    let ghost mut lo: int = 0;
    let mut i: usize = 0;
    while i < n
        invariant
            i <= n,
            n == values.len(),
            r <= n,
            0 <= lo <= i,
            lo <= window_start(i as int, half as int),
            i > 0 ==> r == window_end(i - 1, half as int, n as int) + 1,
            i == 0 ==> r == 0,
            monotone(dq@, values@, largest, lo, r as int),
            res.len() == i,
            forall|k: int|
                0 <= k < i ==> is_window_best(
                    values@,
                    largest,
                    window_start(k, half as int),
                    window_end(k, half as int, n as int),
                    #[trigger] res@[k] as int,
                ),
        decreases n - i,
    {
        let win_end: usize = if half < n - 1 - i {
            i + half
        } else {
            n - 1
        };
        let win_start: usize = if i < half {
            0
        } else {
            i - half
        };
        while r <= win_end
            invariant
                r <= win_end + 1,
                win_end < n,
                n == values.len(),
                0 <= lo,
                monotone(dq@, values@, largest, lo, r as int),
            decreases win_end + 1 - r,
        {
            push_monotone(&mut dq, values, largest, r, Ghost(lo));
            r += 1;
        }
        drop_passed(&mut dq, values, largest, win_start, Ghost(lo), Ghost(r as int));
        proof {
            lo = win_start as int;
            let f = dq@[0];
            assert forall|j: int| lo <= j <= win_end implies cost(values@[f as int], largest)
                <= cost(#[trigger] values@[j], largest) && (j > f ==> cost(
                values@[f as int],
                largest,
            ) < cost(values@[j], largest)) by {
                assert(covered(dq@, values@, largest, j));
                let a = choose|a: int|
                    0 <= a < dq@.len() && j <= #[trigger] dq@[a] && cost(
                        values@[dq@[a] as int],
                        largest,
                    ) <= cost(values@[j], largest);
                if a > 0 {
                    assert(cost(values@[dq@[0] as int], largest) < cost(
                        values@[dq@[a] as int],
                        largest,
                    ));
                }
            }
        }
        res.push(dq[0]);
        i += 1;
    }
    res
}

/// The places before `n` at which a jump ends, in order.
pub open spec fn jumps_below(jumps: Seq<bool>, n: nat) -> Seq<usize>
    decreases n,
{
    if n == 0 {
        Seq::empty()
    } else if jumps[n - 1] {
        jumps_below(jumps, (n - 1) as nat).push(n as usize)
    } else {
        jumps_below(jumps, (n - 1) as nat)
    }
}

/// The boundaries of the segments between jumps: 0, the place after each jump,
/// and the end.
pub open spec fn boundaries_of(jumps: Seq<bool>) -> Seq<usize> {
    seq![0usize] + jumps_below(jumps, jumps.len()) + seq![(jumps.len() + 1) as usize]
}

/// The boundaries of the segments of a signal that has a sample more than
/// `jumps`, which says for each sample but the first whether it lies a
/// discontinuity away from the one before it.
pub fn segment_boundaries(jumps: &Vec<bool>) -> (boundaries: Vec<usize>)
    requires
        jumps.len() < usize::MAX,
    ensures
        boundaries@ == boundaries_of(jumps@),
{
    let mut boundaries: Vec<usize> = Vec::new();
    boundaries.push(0);
    let mut i: usize = 0;
    assert(boundaries@ =~= seq![0usize] + jumps_below(jumps@, 0));
    while i < jumps.len()
        invariant
            i <= jumps.len(),
            jumps.len() < usize::MAX,
            boundaries@ == seq![0usize] + jumps_below(jumps@, i as nat),
        decreases jumps.len() - i,
    {
        if jumps[i] {
            let ghost before = boundaries@;
            boundaries.push(i + 1);
            assert(boundaries@ =~= seq![0usize] + jumps_below(jumps@, (i + 1) as nat));
        }
        i += 1;
    }
    let ghost before = boundaries@;
    boundaries.push(jumps.len() + 1);
    assert(boundaries@ =~= boundaries_of(jumps@));
    boundaries
}

/// Boundaries strictly increase from 0 to the number of samples.
pub open spec fn are_boundaries(b: Seq<usize>, n: int) -> bool {
    &&& b.len() >= 2
    &&& b[0] == 0
    &&& b.last() == n
    &&& forall|i: int, j: int| 0 <= i < j < b.len() ==> b[i] < b[j]
}

proof fn lemma_jumps_below(jumps: Seq<bool>, n: nat)
    requires
        n <= jumps.len(),
        jumps.len() < usize::MAX,
    ensures
        forall|i: int|
            0 <= i < jumps_below(jumps, n).len() ==> 0 < #[trigger] jumps_below(jumps, n)[i] <= n,
        forall|i: int, j: int|
            0 <= i < j < jumps_below(jumps, n).len() ==> jumps_below(jumps, n)[i] < jumps_below(
                jumps,
                n,
            )[j],
    decreases n,
{
    if n > 0 {
        let earlier = jumps_below(jumps, (n - 1) as nat);
        let all = jumps_below(jumps, n);
        lemma_jumps_below(jumps, (n - 1) as nat);
        assert forall|i: int| 0 <= i < all.len() implies 0 < #[trigger] all[i] <= n by {
            if i < earlier.len() {
                assert(all[i] == earlier[i]);
            }
        }
        assert forall|i: int, j: int| 0 <= i < j < all.len() implies all[i] < all[j] by {
            assert(all[i] == earlier[i]);
            if j < earlier.len() {
                assert(all[j] == earlier[j]);
            }
        }
    }
}

/// The boundaries cut the signal into segments that are not empty.
pub proof fn lemma_boundaries(jumps: Seq<bool>)
    requires
        jumps.len() < usize::MAX,
    ensures
        are_boundaries(boundaries_of(jumps), jumps.len() as int + 1),
{
    lemma_jumps_below(jumps, jumps.len());
    let b = boundaries_of(jumps);
    let m = jumps_below(jumps, jumps.len());
    assert forall|i: int, j: int| 0 <= i < j < b.len() implies b[i] < b[j] by {
        if i > 0 {
            assert(b[i] == m[i - 1]);
        }
        if j <= m.len() {
            assert(b[j] == m[j - 1]);
        }
    }
}

/// A segment ends exactly where the signal jumps: place `i` is a boundary between the
/// ends where sample `i` lies a discontinuity away from the one before it, and nowhere
/// else.
pub proof fn lemma_boundaries_are_jumps(jumps: Seq<bool>, i: int)
    requires
        jumps.len() < usize::MAX,
        0 < i <= jumps.len(),
    ensures
        boundaries_of(jumps).contains(i as usize) <==> jumps[i - 1],
{
    let m = jumps_below(jumps, jumps.len());
    let b = boundaries_of(jumps);
    lemma_jump_listed(jumps, jumps.len(), i);
    lemma_jumps_below(jumps, jumps.len());
    if jumps[i - 1] {
        let k = choose|k: int| 0 <= k < m.len() && m[k] == i as usize;
        assert(b[k + 1] == i as usize);
    } else if b.contains(i as usize) {
        let k = choose|k: int| 0 <= k < b.len() && b[k] == i as usize;
        assert(m[k - 1] == i as usize);
    }
}

proof fn lemma_jump_listed(jumps: Seq<bool>, n: nat, i: int)
    requires
        n <= jumps.len() < usize::MAX,
        0 < i <= n,
    ensures
        jumps_below(jumps, n).contains(i as usize) <==> jumps[i - 1],
    decreases n,
{
    let a = jumps_below(jumps, n);
    let b = jumps_below(jumps, (n - 1) as nat);
    lemma_jumps_below(jumps, (n - 1) as nat);
    if i < n {
        lemma_jump_listed(jumps, (n - 1) as nat, i);
        if b.contains(i as usize) {
            let k = choose|k: int| 0 <= k < b.len() && b[k] == i as usize;
            assert(a[k] == i as usize);
        }
        if a.contains(i as usize) {
            let k = choose|k: int| 0 <= k < a.len() && a[k] == i as usize;
            assert(b[k] == i as usize);
        }
    } else if jumps[n - 1] {
        assert(a[b.len() as int] == i as usize);
    }
}

/// How a stretch of the signal loses its trend.
#[derive(Debug, Clone, Copy, PartialEq, Eq, Structural)]
pub enum DetrendRule {
    /// Its mean is subtracted
    Mean,
    /// A line through it is subtracted, weighted by a window of its length
    OwnWindow,
    /// A line through it is subtracted, weighted by the start of the full window
    FullWindow,
}

/// A stretch `start..end` of the signal and how it loses its trend.
#[derive(Debug, Clone, Copy, PartialEq, Eq, Structural)]
pub struct DetrendPiece {
    pub start: usize,
    pub end: usize,
    pub rule: DetrendRule,
}

/// How far apart the overlapping windows start.
pub open spec fn overlap_of(window: int) -> int {
    if window / 2 < 1 {
        1
    } else {
        window / 2
    }
}

/// The overlapping windows of a long segment from `start` on: each as long as
/// the window, the last one cut off at the segment's end.
pub open spec fn window_pieces(start: int, end: int, window: int) -> Seq<DetrendPiece>
    decreases end - start,
{
    if start + overlap_of(window) >= end {
        Seq::empty()
    } else if start + window >= end {
        seq![
            DetrendPiece {
                start: start as usize,
                end: end as usize,
                rule: DetrendRule::FullWindow,
            },
        ]
    } else {
        seq![
            DetrendPiece {
                start: start as usize,
                end: (start + window) as usize,
                rule: DetrendRule::FullWindow,
            },
        ] + window_pieces(start + overlap_of(window), end, window)
    }
}

/// The stretches in which one segment loses its trend.
pub open spec fn segment_pieces(start: int, end: int, window: int) -> Seq<DetrendPiece> {
    if end - start < 5 {
        seq![DetrendPiece { start: start as usize, end: end as usize, rule: DetrendRule::Mean }]
    } else if end - start <= window {
        seq![
            DetrendPiece { start: start as usize, end: end as usize, rule: DetrendRule::OwnWindow },
        ]
    } else {
        window_pieces(start, end, window)
    }
}

/// The stretches of the first `k` segments.
pub open spec fn pieces_of(boundaries: Seq<usize>, window: int, k: nat) -> Seq<DetrendPiece>
    decreases k,
{
    if k == 0 {
        Seq::empty()
    } else {
        pieces_of(boundaries, window, (k - 1) as nat) + segment_pieces(
            boundaries[k - 1] as int,
            boundaries[k as int] as int,
            window,
        )
    }
}

/// The stretches in which a signal loses its trend, segment by segment.
pub fn detrend_pieces(boundaries: &Vec<usize>, window: usize) -> (pieces: Vec<DetrendPiece>)
    requires
        window >= 5,
        boundaries.len() >= 1,
        forall|i: int, j: int|
            0 <= i < j < boundaries.len() ==> boundaries@[i] < boundaries@[j],
    ensures
        pieces@ == pieces_of(boundaries@, window as int, (boundaries.len() - 1) as nat),
{
    let mut pieces: Vec<DetrendPiece> = Vec::new();
    let overlap: usize = window / 2;
    let mut b: usize = 0;
    while b < boundaries.len() - 1
        invariant
            b <= boundaries.len() - 1,
            boundaries.len() >= 1,
            window >= 5,
            overlap == overlap_of(window as int),
            forall|i: int, j: int|
                0 <= i < j < boundaries.len() ==> boundaries@[i] < boundaries@[j],
            pieces@ == pieces_of(boundaries@, window as int, b as nat),
        decreases boundaries.len() - b,
    {
        let seg_start: usize = boundaries[b];
        let seg_end: usize = boundaries[b + 1];
        assert(boundaries@[b as int] < boundaries@[b + 1]);
        let seg_len: usize = seg_end - seg_start;
        let ghost before = pieces@;
        let ghost w = window as int;
        if seg_len < 5 {
            pieces.push(
                DetrendPiece { start: seg_start, end: seg_end, rule: DetrendRule::Mean },
            );
            assert(pieces@ =~= before + segment_pieces(seg_start as int, seg_end as int, w));
        } else if seg_len <= window {
            pieces.push(
                DetrendPiece { start: seg_start, end: seg_end, rule: DetrendRule::OwnWindow },
            );
            assert(pieces@ =~= before + segment_pieces(seg_start as int, seg_end as int, w));
        } else {
            let mut start: usize = seg_start;
            let mut open: bool = true;
            while open && start < seg_end - overlap
                invariant
                    overlap == overlap_of(w),
                    w == window,
                    window >= 5,
                    seg_start <= start <= seg_end,
                    overlap <= seg_end,
                    open ==> pieces@ + window_pieces(start as int, seg_end as int, w) == before
                        + window_pieces(seg_start as int, seg_end as int, w),
                    !open ==> pieces@ == before + window_pieces(
                        seg_start as int,
                        seg_end as int,
                        w,
                    ),
                decreases (seg_end - start) + (if open {
                    1int
                } else {
                    0int
                }),
            {
                let ghost prior = pieces@;
                let ghost rest = window_pieces(start as int, seg_end as int, w);
                if window >= seg_end - start {
                    let piece = DetrendPiece {
                        start,
                        end: seg_end,
                        rule: DetrendRule::FullWindow,
                    };
                    pieces.push(piece);
                    open = false;
                    assert(pieces@ =~= prior + rest);
                } else {
                    let piece = DetrendPiece {
                        start,
                        end: start + window,
                        rule: DetrendRule::FullWindow,
                    };
                    pieces.push(piece);
                    assert(pieces@ + window_pieces(start + overlap, seg_end as int, w) =~= prior
                        + rest);
                    start += overlap;
                }
            }
            proof {
                if open {
                    assert(window_pieces(start as int, seg_end as int, w) =~= Seq::empty());
                    assert(pieces@ =~= before + window_pieces(seg_start as int, seg_end as int, w));
                }
            }
        }
        b += 1;
    }
    pieces
}

/// Some stretch holds place `i`.
pub open spec fn in_some_piece(pieces: Seq<DetrendPiece>, i: int) -> bool {
    exists|k: int| 0 <= k < pieces.len() && (#[trigger] pieces[k]).start <= i < pieces[k].end
}

proof fn lemma_window_pieces_cover(start: int, end: int, window: int, i: int)
    requires
        window >= 5,
        0 <= start,
        end <= usize::MAX,
        start + overlap_of(window) < end,
        start <= i < end,
    ensures
        in_some_piece(window_pieces(start, end, window), i),
    decreases end - start,
{
    let all = window_pieces(start, end, window);
    if start + window >= end {
        assert(all[0].start <= i < all[0].end);
    } else {
        let next = start + overlap_of(window);
        let rest = window_pieces(next, end, window);
        if i < start + window {
            assert(all[0].start <= i < all[0].end);
        } else {
            lemma_window_pieces_cover(next, end, window, i);
            let k = choose|k: int| 0 <= k < rest.len() && (#[trigger] rest[k]).start <= i
                < rest[k].end;
            assert(all[k + 1] == rest[k]);
        }
    }
}

/// Every sample of the signal lies in some stretch, so each loses its trend.
pub proof fn lemma_every_sample_detrended(
    boundaries: Seq<usize>,
    window: int,
    k: nat,
    i: int,
)
    requires
        window >= 5,
        boundaries.len() >= 1,
        boundaries[0] == 0,
        forall|i: int, j: int| 0 <= i < j < boundaries.len() ==> boundaries[i] < boundaries[j],
        k < boundaries.len(),
        0 <= i < boundaries[k as int],
    ensures
        in_some_piece(pieces_of(boundaries, window, k), i),
    decreases k,
{
    let all = pieces_of(boundaries, window, k);
    let earlier = pieces_of(boundaries, window, (k - 1) as nat);
    let start = boundaries[k - 1] as int;
    let end = boundaries[k as int] as int;
    let here = segment_pieces(start, end, window);
    if i < start {
        lemma_every_sample_detrended(boundaries, window, (k - 1) as nat, i);
        let m = choose|m: int| 0 <= m < earlier.len() && (#[trigger] earlier[m]).start <= i
            < earlier[m].end;
        assert(all[m] == earlier[m]);
    } else {
        if end - start <= window || end - start < 5 {
            assert(here[0].start <= i < here[0].end);
        } else {
            lemma_window_pieces_cover(start, end, window, i);
        }
        let m = choose|m: int| 0 <= m < here.len() && (#[trigger] here[m]).start <= i < here[m].end;
        assert(all[earlier.len() + m] == here[m]);
    }
}

/// A stretch never reaches across a jump: it lies within one segment. It is the whole
/// segment where that is short, of which the mean is taken below five samples and a line
/// otherwise; in a longer segment it is as long as the window, or ends with the segment. The
/// segment is returned.
pub proof fn lemma_pieces_within_segments(boundaries: Seq<usize>, window: int, k: nat, m: int) -> (b:
    int)
    requires
        window >= 5,
        boundaries.len() >= 1,
        forall|i: int, j: int| 0 <= i < j < boundaries.len() ==> boundaries[i] < boundaries[j],
        k < boundaries.len(),
        0 <= m < pieces_of(boundaries, window, k).len(),
    ensures
        ({
            let p = pieces_of(boundaries, window, k)[m];
            let start = boundaries[b] as int;
            let end = boundaries[b + 1] as int;
            &&& 0 <= b < k
            &&& start <= p.start < p.end <= end
            &&& end - start < 5 ==> p.start == start && p.end == end && p.rule == DetrendRule::Mean
            &&& 5 <= end - start <= window ==> p.start == start && p.end == end && p.rule
                == DetrendRule::OwnWindow
            &&& end - start > window && end - start >= 5 ==> p.rule == DetrendRule::FullWindow && (
            p.end - p.start == window || (p.end == end && p.end - p.start < window)) && (p.start
                - start) % (window / 2) == 0
        }),
    decreases k,
{
    let all = pieces_of(boundaries, window, k);
    let earlier = pieces_of(boundaries, window, (k - 1) as nat);
    if m < earlier.len() {
        let b = lemma_pieces_within_segments(boundaries, window, (k - 1) as nat, m);
        assert(all[m] == earlier[m]);
        b
    } else {
        let b = k - 1;
        let start = boundaries[b] as int;
        let end = boundaries[k as int] as int;
        assert(start < end);
        let here = segment_pieces(start, end, window);
        assert(all[m] == here[m - earlier.len()]);
        if end - start > window {
            vstd::arithmetic::div_mod::lemma_small_mod(0, (window / 2) as nat);
            lemma_window_pieces(start, end, window, start, m - earlier.len());
        } else {
            assert(here.len() == 1);
            assert(all[m] == here[0]);
        }
        b
    }
}

proof fn lemma_window_pieces(start: int, end: int, window: int, base: int, m: int)
    requires
        window >= 5,
        0 <= base <= start,
        end <= usize::MAX,
        (start - base) % (window / 2) == 0,
        0 <= m < window_pieces(start, end, window).len(),
    ensures
        ({
            let p = window_pieces(start, end, window)[m];
            &&& start <= p.start < p.end <= end
            &&& p.rule == DetrendRule::FullWindow
            &&& p.end - p.start == window || (p.end == end && p.end - p.start < window)
            &&& (p.start - base) % (window / 2) == 0
        }),
    decreases end - start,
{
    let half = overlap_of(window);
    if m > 0 && start + window < end {
        assert((start + half - base) % half == 0) by {
            vstd::arithmetic::div_mod::lemma_mod_add_multiples_vanish(start - base, half);
        }
        lemma_window_pieces(start + half, end, window, base, m - 1);
        assert(window_pieces(start, end, window)[m] == window_pieces(
            start + half,
            end,
            window,
        )[m - 1]);
    }
}

/// The samples `first..end` that a five-tap filter at `i` takes in.
pub fn smoothing_taps(i: usize, n: usize) -> (taps: (usize, usize))
    requires
        i < n,
    ensures
        taps.0 == (if i < 2 {
            0
        } else {
            i - 2
        }),
        taps.1 == (if i + 3 < n {
            i + 3
        } else {
            n as int
        }),
{
    let first: usize = if i < 2 {
        0
    } else {
        i - 2
    };
    let end: usize = if n - i > 3 {
        i + 3
    } else {
        n
    };
    (first, end)
}

/// `s` followed by `a`, which takes the place of the last keyframe where that
/// has the same timestamp.
pub open spec fn merged_push(s: Seq<Action>, a: Action) -> Seq<Action> {
    if s.len() > 0 && s.last().at == a.at {
        s.drop_last().push(a)
    } else {
        s.push(a)
    }
}

pub(crate) fn push_merged(actions: &mut Vec<Action>, a: Action)
    ensures
        final(actions)@ == merged_push(old(actions)@, a),
{
    let n: usize = actions.len();
    if n > 0 && actions[n - 1].at == a.at {
        actions.set(n - 1, a);
        assert(actions@ =~= old(actions)@.drop_last().push(a));
    } else {
        actions.push(a);
    }
}

/// The signal turns at `i`: it falls on one side of it only.
pub open spec fn turns_at(v: Seq<Level>, i: int) -> bool {
    (v[i].key < v[i - 1].key) != (v[i + 1].key < v[i].key)
}

/// The places from 1 to below `n` at which the signal turns.
pub open spec fn turns_below(v: Seq<Level>, n: nat) -> Seq<usize>
    decreases n,
{
    if n <= 1 {
        Seq::empty()
    } else if turns_at(v, n - 1) {
        turns_below(v, (n - 1) as nat).push((n - 1) as usize)
    } else {
        turns_below(v, (n - 1) as nat)
    }
}

/// The places that become keyframes: all of them, or the ends and the turns.
pub open spec fn key_indices(v: Seq<Level>, reduce: bool) -> Seq<usize> {
    if reduce && v.len() > 2 {
        seq![0usize] + turns_below(v, (v.len() - 1) as nat) + seq![(v.len() - 1) as usize]
    } else {
        Seq::new(v.len(), |i: int| i as usize)
    }
}

/// The keyframes at the first `k` of the given places.
pub open spec fn keyframes_at(
    indices: Seq<usize>,
    timestamps: Seq<i64>,
    positions: Seq<i32>,
    k: nat,
) -> Seq<Action>
    decreases k,
{
    if k == 0 {
        Seq::empty()
    } else {
        let i = indices[k - 1] as int;
        merged_push(
            keyframes_at(indices, timestamps, positions, (k - 1) as nat),
            Action { at: timestamps[i], pos: positions[i] },
        )
    }
}

fn collect_key_indices(norm: &Vec<Level>, keyframe_reduction: bool) -> (indices: Vec<usize>)
    ensures
        indices@ == key_indices(norm@, keyframe_reduction),
        forall|k: int| 0 <= k < indices.len() ==> #[trigger] indices@[k] < norm.len(),
{
    let n: usize = norm.len();
    let mut indices: Vec<usize> = Vec::new();
    if keyframe_reduction && n > 2 {
        indices.push(0);
        let mut i: usize = 1;
        assert(indices@ =~= seq![0usize] + turns_below(norm@, 1));
        while i < n - 1
            invariant
                1 <= i <= n - 1,
                n == norm.len(),
                n > 2,
                indices@ == seq![0usize] + turns_below(norm@, i as nat),
                forall|k: int| 0 <= k < indices.len() ==> #[trigger] indices@[k] < n,
            decreases n - i,
        {
            let falls_before: bool = norm[i].below(norm[i - 1]);
            let falls_after: bool = norm[i + 1].below(norm[i]);
            if falls_before != falls_after {
                indices.push(i);
                assert(indices@ =~= seq![0usize] + turns_below(norm@, (i + 1) as nat));
            }
            i += 1;
        }
        let ghost before = indices@;
        indices.push(n - 1);
        assert(indices@ =~= before + seq![(n - 1) as usize]);
    } else {
        let mut i: usize = 0;
        while i < n
            invariant
                i <= n,
                n == norm.len(),
                indices@ == Seq::new(i as nat, |i: int| i as usize),
            decreases n - i,
        {
            indices.push(i);
            i += 1;
            assert(indices@ =~= Seq::new(i as nat, |i: int| i as usize));
        }
    }
    indices
}

/// Extract keyframes from normalized values: at every sample, or only at the
/// ends and where the slope changes sign. `positions[i]` is the position that
/// sample `i` stands for.
pub fn extract_actions(
    norm: &Vec<Level>,
    positions: &Vec<i32>,
    timestamps_ms: &Vec<i64>,
    keyframe_reduction: bool,
) -> (actions: Vec<Action>)
    requires
        positions.len() >= norm.len(),
        timestamps_ms.len() >= norm.len(),
    ensures
        actions@ == keyframes_at(
            key_indices(norm@, keyframe_reduction),
            timestamps_ms@,
            positions@,
            key_indices(norm@, keyframe_reduction).len(),
        ),
{
    let indices: Vec<usize> = collect_key_indices(norm, keyframe_reduction);
    let mut actions: Vec<Action> = Vec::new();
    let mut k: usize = 0;
    while k < indices.len()
        invariant
            k <= indices.len(),
            positions.len() >= norm.len(),
            timestamps_ms.len() >= norm.len(),
            forall|j: int| 0 <= j < indices.len() ==> #[trigger] indices@[j] < norm.len(),
            actions@ == keyframes_at(indices@, timestamps_ms@, positions@, k as nat),
        decreases indices.len() - k,
    {
        let i: usize = indices[k];
        push_merged(&mut actions, Action { at: timestamps_ms[i], pos: positions[i] });
        k += 1;
    }
    actions
}

proof fn lemma_turns_below(v: Seq<Level>, n: nat)
    requires
        n < v.len() || n <= 1,
        v.len() <= usize::MAX,
    ensures
        forall|k: int|
            0 <= k < turns_below(v, n).len() ==> 0 < #[trigger] turns_below(v, n)[k] < n
                && turns_at(v, turns_below(v, n)[k] as int),
        forall|j: int, k: int|
            0 <= j < k < turns_below(v, n).len() ==> turns_below(v, n)[j] < turns_below(v, n)[k],
        forall|i: int|
            0 < i < n && #[trigger] turns_at(v, i) ==> turns_below(v, n).contains(i as usize),
    decreases n,
{
    if n > 1 {
        lemma_turns_below(v, (n - 1) as nat);
        let b = turns_below(v, (n - 1) as nat);
        let a = turns_below(v, n);
        assert forall|i: int| 0 < i < n && #[trigger] turns_at(v, i) implies a.contains(
            i as usize,
        ) by {
            if i < n - 1 {
                let k = choose|k: int| 0 <= k < b.len() && b[k] == i as usize;
                assert(a[k] == i as usize);
            } else {
                assert(a[b.len() as int] == i as usize);
            }
        }
    }
}

proof fn lemma_key_indices(v: Seq<Level>, reduce: bool)
    requires
        v.len() > 0,
        v.len() <= usize::MAX,
    ensures
        ({
            let q = key_indices(v, reduce);
            &&& q.len() > 0
            &&& q[0] == 0
            &&& q.last() == v.len() - 1
            &&& forall|k: int| 0 <= k < q.len() ==> #[trigger] q[k] < v.len()
            &&& forall|j: int, k: int| 0 <= j < k < q.len() ==> q[j] < q[k]
            &&& forall|k: int|
                reduce && 0 < #[trigger] q[k] < v.len() - 1 && 0 <= k < q.len() ==> turns_at(
                    v,
                    q[k] as int,
                )
            &&& forall|u: usize|
                0 < u < v.len() - 1 && (!reduce || turns_at(v, u as int))
                    ==> #[trigger] q.contains(u)
        }),
{
    let q = key_indices(v, reduce);
    if reduce && v.len() > 2 {
        let n = (v.len() - 1) as nat;
        lemma_turns_below(v, n);
        let m = turns_below(v, n);
        assert(q.len() == m.len() + 2);
        assert forall|k: int| 0 < k < q.len() - 1 implies #[trigger] q[k] == m[k - 1] by {}
        assert forall|u: usize|
            0 < u < v.len() - 1 && (!reduce || turns_at(v, u as int)) implies #[trigger] q.contains(
            u,
        ) by {
            assert(turns_at(v, u as int));
            let k = choose|k: int| 0 <= k < m.len() && m[k] == u;
            assert(q[k + 1] == u);
        }
        assert forall|k: int| 0 <= k < q.len() implies #[trigger] q[k] < v.len() by {
            if 0 < k < q.len() - 1 {
                assert(q[k] == m[k - 1]);
            }
        }
        assert forall|j: int, k: int| 0 <= j < k < q.len() implies q[j] < q[k] by {
            if j > 0 {
                assert(q[j] == m[j - 1]);
            }
            if k < q.len() - 1 {
                assert(q[k] == m[k - 1]);
            }
        }
    } else {
        assert forall|u: usize|
            0 < u < v.len() - 1 && (!reduce || turns_at(v, u as int)) implies #[trigger] q.contains(
            u,
        ) by {
            assert(q[u as int] == u);
        }
    }
}

proof fn lemma_keyframes_at(
    indices: Seq<usize>,
    timestamps: Seq<i64>,
    positions: Seq<i32>,
    n: int,
    k: nat,
)
    requires
        k <= indices.len(),
        n <= timestamps.len(),
        forall|j: int| 0 <= j < indices.len() ==> #[trigger] indices[j] < n,
        forall|i: int, j: int| 0 <= i < j < indices.len() ==> indices[i] < indices[j],
        forall|i: int, j: int| 0 <= i < j < n ==> timestamps[i] < timestamps[j],
    ensures
        ({
            let a = keyframes_at(indices, timestamps, positions, k);
            &&& a.len() == k
            &&& forall|j: int|
                0 <= j < k ==> (#[trigger] a[j]).at == timestamps[indices[j] as int] && a[j].pos
                    == positions[indices[j] as int]
        }),
    decreases k,
{
    if k > 0 {
        lemma_keyframes_at(indices, timestamps, positions, n, (k - 1) as nat);
        let b = keyframes_at(indices, timestamps, positions, (k - 1) as nat);
        if k > 1 {
            assert(b.last() == b[k - 2]);
            assert(indices[k - 2] < indices[k - 1]);
            assert(timestamps[indices[k - 2] as int] < timestamps[indices[k - 1] as int]);
        }
    }
}

/// A signal that never turns between two places only falls there, or never falls.
proof fn lemma_monotone_between(v: Seq<Level>, lo: int, hi: int)
    requires
        0 <= lo < hi < v.len(),
        forall|i: int| lo < i < hi ==> !#[trigger] turns_at(v, i),
    ensures
        v[lo + 1].key < v[lo].key ==> forall|i: int, j: int|
            lo <= i < j <= hi ==> (#[trigger] v[j]).key < (#[trigger] v[i]).key,
        v[lo + 1].key >= v[lo].key ==> forall|i: int, j: int|
            lo <= i < j <= hi ==> (#[trigger] v[j]).key >= (#[trigger] v[i]).key,
    decreases hi - lo,
{
    if hi > lo + 1 {
        lemma_monotone_between(v, lo, hi - 1);
        assert(!turns_at(v, hi - 1));
        let falls = v[lo + 1].key < v[lo].key;
        assert(falls == (v[hi - 1].key < v[hi - 2].key)) by {
            if hi - 1 > lo + 1 {
                assert(v[hi - 1].key < v[hi - 2].key || v[hi - 1].key >= v[hi - 2].key);
            }
        }
        assert forall|i: int, j: int| lo <= i < j <= hi implies if falls {
            (#[trigger] v[j]).key < (#[trigger] v[i]).key
        } else {
            v[j].key >= v[i].key
        } by {
            if j == hi && i < hi - 1 {
                assert(if falls {
                    v[hi - 1].key < v[i].key
                } else {
                    v[hi - 1].key >= v[i].key
                });
            }
        }
    }
}

/// Reduced to its keyframes a signal keeps its strokes: the first and the last sample
/// and every sample strictly above or strictly below both of its neighbours have a
/// keyframe at their time with their position; every keyframe is a sample's,
/// and one between the ends is where a fall begins or ends; and between two neighbouring
/// keyframes the signal never turns back. Without reduction every sample has one.
pub proof fn lemma_keyframes_keep_strokes(
    v: Seq<Level>,
    positions: Seq<i32>,
    timestamps: Seq<i64>,
    reduce: bool,
)
    requires
        v.len() > 0,
        v.len() <= usize::MAX,
        v.len() <= timestamps.len(),
        v.len() <= positions.len(),
        forall|i: int, j: int| 0 <= i < j < v.len() ==> timestamps[i] < timestamps[j],
    ensures
        ({
            let q = key_indices(v, reduce);
            let a = keyframes_at(q, timestamps, positions, q.len());
            &&& forall|i: int|
                0 <= i < v.len() && (!reduce || i == 0 || i == v.len() - 1 || (v[i - 1].key
                    < v[i].key && v[i + 1].key < v[i].key) || (v[i - 1].key > v[i].key && v[i
                    + 1].key > v[i].key)) ==> a.contains(
                    Action { at: timestamps[i], pos: #[trigger] positions[i] },
                )
            &&& forall|k: int|
                0 <= k < a.len() ==> exists|i: int|
                    0 <= i < v.len() && (#[trigger] a[k]).at == timestamps[i] && a[k].pos
                        == #[trigger] positions[i] && (reduce && 0 < i < v.len() - 1 ==> (v[i].key
                        < v[i - 1].key) != (v[i + 1].key < v[i].key))
            &&& forall|j: int, k: int| 0 <= j < k < a.len() ==> a[j].at < a[k].at
            &&& forall|k: int|
                0 <= k < a.len() - 1 ==> {
                    ||| forall|i: int, j: int|
                        0 <= i < j < v.len() && (#[trigger] a[k]).at <= timestamps[i]
                            && timestamps[j] <= a[k + 1].at ==> (#[trigger] v[i]).key <= (
                        #[trigger] v[j]).key
                    ||| forall|i: int, j: int|
                        0 <= i < j < v.len() && a[k].at <= timestamps[i] && timestamps[j] <= a[k
                            + 1].at ==> (#[trigger] v[i]).key >= (#[trigger] v[j]).key
                }
        }),
{
    let q = key_indices(v, reduce);
    let a = keyframes_at(q, timestamps, positions, q.len());
    lemma_key_indices(v, reduce);
    lemma_keyframes_at(q, timestamps, positions, v.len() as int, q.len());
    assert forall|i: int|
        0 <= i < v.len() && (!reduce || i == 0 || i == v.len() - 1 || (v[i - 1].key < v[i].key
            && v[i + 1].key < v[i].key) || (v[i - 1].key > v[i].key && v[i + 1].key
            > v[i].key)) implies a.contains(
        Action { at: timestamps[i], pos: #[trigger] positions[i] },
    ) by {
        let k = if i == 0 {
            0
        } else if i == v.len() - 1 {
            q.len() - 1
        } else {
            assert(!reduce || turns_at(v, i));
            assert(q.contains(i as usize));
            choose|k: int| 0 <= k < q.len() && q[k] == i as usize
        };
        assert(q[k] == i as usize);
        assert(a[k] == (Action { at: timestamps[i], pos: positions[i] }));
    }
    assert forall|k: int| 0 <= k < a.len() implies exists|i: int|
        0 <= i < v.len() && (#[trigger] a[k]).at == timestamps[i] && a[k].pos
            == #[trigger] positions[i] && (reduce && 0 < i < v.len() - 1 ==> (v[i].key < v[i
            - 1].key) != (v[i + 1].key < v[i].key)) by {
        let i = q[k] as int;
        assert(a[k].pos == positions[i]);
    }
    assert forall|j: int, k: int| 0 <= j < k < a.len() implies a[j].at < a[k].at by {
        assert(q[j] < q[k]);
    }
    assert forall|k: int| 0 <= k < a.len() - 1 implies {
        ||| forall|i: int, j: int|
            0 <= i < j < v.len() && (#[trigger] a[k]).at <= timestamps[i] && timestamps[j] <= a[k
                + 1].at ==> (#[trigger] v[i]).key <= (#[trigger] v[j]).key
        ||| forall|i: int, j: int|
            0 <= i < j < v.len() && a[k].at <= timestamps[i] && timestamps[j] <= a[k + 1].at ==> (
            #[trigger] v[i]).key >= (#[trigger] v[j]).key
    } by {
        let lo = q[k] as int;
        let hi = q[k + 1] as int;
        assert(lo < hi);
        assert forall|i: int| lo < i < hi implies !#[trigger] turns_at(v, i) && reduce by {
            if turns_at(v, i) || !reduce {
                assert(q.contains(i as usize));
                let m = choose|m: int| 0 <= m < q.len() && q[m] == i as usize;
                if m <= k {
                    assert(q[m] <= q[k]);
                } else {
                    assert(q[k + 1] <= q[m]);
                }
            }
        }
        lemma_monotone_between(v, lo, hi);
        assert(a[k].at == timestamps[lo] && a[k + 1].at == timestamps[hi]);
        assert forall|i: int|
            0 <= i < v.len() && timestamps[lo] <= timestamps[i] implies lo <= i by {
            if i < lo {
                assert(timestamps[i] < timestamps[lo]);
            }
        }
        assert forall|j: int|
            0 <= j < v.len() && timestamps[j] <= timestamps[hi] implies j <= hi by {
            if hi < j {
                assert(timestamps[hi] < timestamps[j]);
            }
        }
    }
}

#[derive(Debug, Clone, Copy, PartialEq, Eq, Structural)]
pub enum ExtremaKind {
    Peak,
    Valley,
}

/// A turning point of a signal, by its place.
#[derive(Debug, Clone, Copy, PartialEq, Eq, Structural)]
pub struct Extremum {
    pub index: usize,
    pub kind: ExtremaKind,
}

/// The turning point at `i`, if there is one.
pub open spec fn extremum_at(v: Seq<Level>, i: int) -> Option<Extremum> {
    if v[i].key > v[i - 1].key && v[i + 1].key <= v[i].key {
        Some(Extremum { index: i as usize, kind: ExtremaKind::Peak })
    } else if v[i].key < v[i - 1].key && v[i + 1].key >= v[i].key {
        Some(Extremum { index: i as usize, kind: ExtremaKind::Valley })
    } else {
        None
    }
}

/// `a` is a higher peak or a deeper valley than `b`.
pub open spec fn more_extreme(v: Seq<Level>, a: Extremum, b: Extremum) -> bool {
    if a.kind == ExtremaKind::Peak {
        v[a.index as int].key > v[b.index as int].key
    } else {
        v[a.index as int].key < v[b.index as int].key
    }
}

/// `kept` after another turning point is offered: one of the same kind as the
/// last takes its place where it is more extreme; one of the other kind is
/// added where it lies significantly far away.
pub open spec fn offered(
    v: Seq<Level>,
    significant: spec_fn(usize, usize) -> bool,
    kept: Seq<Extremum>,
    cand: Extremum,
) -> Seq<Extremum> {
    if kept.len() == 0 {
        kept.push(cand)
    } else if kept.last().kind == cand.kind {
        if more_extreme(v, cand, kept.last()) {
            kept.drop_last().push(cand)
        } else {
            kept
        }
    } else if significant(kept.last().index, cand.index) {
        kept.push(cand)
    } else {
        kept
    }
}

/// The turning points that are kept of those below `n`.
pub open spec fn extrema_below(
    v: Seq<Level>,
    significant: spec_fn(usize, usize) -> bool,
    n: nat,
) -> Seq<Extremum>
    decreases n,
{
    if n <= 1 {
        Seq::empty()
    } else {
        let kept = extrema_below(v, significant, (n - 1) as nat);
        match extremum_at(v, n - 1) {
            Some(cand) => offered(v, significant, kept, cand),
            None => kept,
        }
    }
}

/// Kinds alternate and places strictly increase.
pub open spec fn alternates(s: Seq<Extremum>) -> bool {
    &&& forall|i: int, j: int|
        0 <= i < j < s.len() && j == i + 1 ==> (#[trigger] s[i]).kind != (#[trigger] s[j]).kind
    &&& forall|i: int, j: int| 0 <= i < j < s.len() ==> s[i].index < s[j].index
}

/// Every kept turning point lies below `n` and is one of the signal's.
pub open spec fn are_extrema(v: Seq<Level>, s: Seq<Extremum>, n: int) -> bool {
    forall|i: int|
        0 <= i < s.len() ==> 0 < (#[trigger] s[i]).index < n && extremum_at(v, s[i].index as int)
            == Some(s[i])
}

proof fn lemma_offered(
    v: Seq<Level>,
    significant: spec_fn(usize, usize) -> bool,
    kept: Seq<Extremum>,
    cand: Extremum,
    n: int,
)
    requires
        alternates(kept),
        are_extrema(v, kept, n),
        cand.index == n,
        n > 0,
        extremum_at(v, n) == Some(cand),
    ensures
        alternates(offered(v, significant, kept, cand)),
        are_extrema(v, offered(v, significant, kept, cand), n + 1),
{
    let all = offered(v, significant, kept, cand);
    if all != kept {
        let last = all.len() - 1;
        assert(all[last] == cand);
        assert forall|i: int| 0 <= i < last implies #[trigger] all[i] == kept[i] by {}
        assert forall|i: int, j: int| 0 <= i < j < all.len() && j == i + 1 implies (#[trigger] all[i]).kind
            != (#[trigger] all[j]).kind by {
            if j == last {
                if all.len() == kept.len() {
                    assert(kept[i].kind != kept[j].kind);
                } else {
                    assert(kept[i] == kept.last());
                }
            }
        }
    }
}

/// Peaks and valleys alternate among the turning points that are kept, in order
/// of their places, each of which is a turning point of the signal.
pub proof fn lemma_extrema_alternate(
    v: Seq<Level>,
    significant: spec_fn(usize, usize) -> bool,
    n: nat,
)
    requires
        n < v.len() || n <= 1,
        v.len() <= usize::MAX,
    ensures
        alternates(extrema_below(v, significant, n)),
        are_extrema(v, extrema_below(v, significant, n), n as int),
    decreases n,
{
    if n > 1 {
        lemma_extrema_alternate(v, significant, (n - 1) as nat);
        if let Some(cand) = extremum_at(v, n - 1) {
            lemma_offered(
                v,
                significant,
                extrema_below(v, significant, (n - 1) as nat),
                cand,
                n - 1,
            );
        }
    }
}

/// The signal rises to `i` and does not rise on.
pub open spec fn is_peak(v: Seq<Level>, i: int) -> bool {
    0 < i < v.len() - 1 && v[i - 1].key < v[i].key && v[i + 1].key <= v[i].key
}

/// The signal falls to `i` and does not fall on.
pub open spec fn is_valley(v: Seq<Level>, i: int) -> bool {
    0 < i < v.len() - 1 && v[i - 1].key > v[i].key && v[i + 1].key >= v[i].key
}

/// Some kept peak, up to place `n`, is at least as high as the signal at `i`.
pub open spec fn has_peak_over(v: Seq<Level>, kept: Seq<Extremum>, i: int) -> bool {
    exists|k: int|
        0 <= k < kept.len() && (#[trigger] kept[k]).kind == ExtremaKind::Peak
            && v[kept[k].index as int].key >= v[i].key
}

/// Some kept valley is at least as deep as the signal at `i`.
pub open spec fn has_valley_under(v: Seq<Level>, kept: Seq<Extremum>, i: int) -> bool {
    exists|k: int|
        0 <= k < kept.len() && (#[trigger] kept[k]).kind == ExtremaKind::Valley
            && v[kept[k].index as int].key <= v[i].key
}

/// The peak at `i` is not significantly far from some valley before it.
pub open spec fn near_valley(
    v: Seq<Level>,
    significant: spec_fn(usize, usize) -> bool,
    i: int,
) -> bool {
    exists|j: int| 0 <= j < i && #[trigger] is_valley(v, j) && !significant(j as usize, i as usize)
}

/// The valley at `i` is not significantly far from some peak before it.
pub open spec fn near_peak(
    v: Seq<Level>,
    significant: spec_fn(usize, usize) -> bool,
    i: int,
) -> bool {
    exists|j: int| 0 <= j < i && #[trigger] is_peak(v, j) && !significant(j as usize, i as usize)
}

/// A turning point of the kind of `e`, which is at least as extreme, lies significantly
/// far from `prev`.
pub open spec fn follows(
    v: Seq<Level>,
    significant: spec_fn(usize, usize) -> bool,
    prev: Extremum,
    e: Extremum,
) -> bool {
    exists|c: usize|
        prev.index < c <= e.index && #[trigger] significant(prev.index, c) && if e.kind
            == ExtremaKind::Peak {
            is_peak(v, c as int) && v[e.index as int].key >= v[c as int].key
        } else {
            is_valley(v, c as int) && v[e.index as int].key <= v[c as int].key
        }
}

proof fn lemma_extrema_step(v: Seq<Level>, significant: spec_fn(usize, usize) -> bool, n: nat)
    requires
        1 < n < v.len() <= usize::MAX,
    ensures
        ({
            let b = extrema_below(v, significant, (n - 1) as nat);
            let a = extrema_below(v, significant, n);
            let m = (n - 1) as usize;
            let peak = Extremum { index: m, kind: ExtremaKind::Peak };
            let valley = Extremum { index: m, kind: ExtremaKind::Valley };
            &&& !(is_peak(v, m as int) && is_valley(v, m as int))
            &&& !is_peak(v, m as int) && !is_valley(v, m as int) ==> a == b
            &&& is_peak(v, m as int) ==> a == offered(v, significant, b, peak)
            &&& is_valley(v, m as int) ==> a == offered(v, significant, b, valley)
        }),
{
}

/// The turning points that are kept are peaks and valleys of the signal.
pub proof fn lemma_kept_kinds(v: Seq<Level>, significant: spec_fn(usize, usize) -> bool, n: nat)
    requires
        n < v.len() || n <= 1,
        v.len() <= usize::MAX,
    ensures
        ({
            let kept = extrema_below(v, significant, n);
            forall|k: int|
                0 <= k < kept.len() ==> (#[trigger] kept[k]).index < n && if kept[k].kind
                    == ExtremaKind::Peak {
                    is_peak(v, kept[k].index as int)
                } else {
                    is_valley(v, kept[k].index as int)
                }
        }),
    decreases n,
{
    if n > 1 {
        lemma_kept_kinds(v, significant, (n - 1) as nat);
        lemma_extrema_step(v, significant, n);
    }
}

/// A peak is passed over only where one at least as high is kept or it is not
/// significantly far from an earlier valley.
pub proof fn lemma_peak_covered(
    v: Seq<Level>,
    significant: spec_fn(usize, usize) -> bool,
    n: nat,
    i: int,
)
    requires
        n < v.len() || n <= 1,
        v.len() <= usize::MAX,
        0 <= i < n,
        is_peak(v, i),
    ensures
        has_peak_over(v, extrema_below(v, significant, n), i) || near_valley(v, significant, i),
    decreases n,
{
    if n > 1 {
        let b = extrema_below(v, significant, (n - 1) as nat);
        let a = extrema_below(v, significant, n);
        lemma_extrema_step(v, significant, n);
        lemma_kept_kinds(v, significant, (n - 1) as nat);
        if i < n - 1 {
            lemma_peak_covered(v, significant, (n - 1) as nat, i);
            if has_peak_over(v, b, i) {
                let k = choose|k: int|
                    0 <= k < b.len() && (#[trigger] b[k]).kind == ExtremaKind::Peak
                        && v[b[k].index as int].key >= v[i].key;
                assert(a[k].kind == ExtremaKind::Peak && v[a[k].index as int].key >= v[i].key);
            }
        } else if b.len() > 0 && b.last().kind != ExtremaKind::Peak && a == b {
            assert(b[b.len() - 1] == b.last());
            assert(is_valley(v, b.last().index as int));
            assert(!significant(b.last().index, i as usize));
        } else {
            assert(a[a.len() - 1].kind == ExtremaKind::Peak && v[a[a.len() - 1].index as int].key
                >= v[i].key);
        }
    }
}

/// A valley is passed over only where one at least as deep is kept or it is not
/// significantly far from an earlier peak.
pub proof fn lemma_valley_covered(
    v: Seq<Level>,
    significant: spec_fn(usize, usize) -> bool,
    n: nat,
    i: int,
)
    requires
        n < v.len() || n <= 1,
        v.len() <= usize::MAX,
        0 <= i < n,
        is_valley(v, i),
    ensures
        has_valley_under(v, extrema_below(v, significant, n), i) || near_peak(v, significant, i),
    decreases n,
{
    if n > 1 {
        let b = extrema_below(v, significant, (n - 1) as nat);
        let a = extrema_below(v, significant, n);
        lemma_extrema_step(v, significant, n);
        lemma_kept_kinds(v, significant, (n - 1) as nat);
        if i < n - 1 {
            lemma_valley_covered(v, significant, (n - 1) as nat, i);
            if has_valley_under(v, b, i) {
                let k = choose|k: int|
                    0 <= k < b.len() && (#[trigger] b[k]).kind == ExtremaKind::Valley
                        && v[b[k].index as int].key <= v[i].key;
                assert(a[k].kind == ExtremaKind::Valley && v[a[k].index as int].key <= v[i].key);
            }
        } else if b.len() > 0 && b.last().kind != ExtremaKind::Valley && a == b {
            assert(b[b.len() - 1] == b.last());
            assert(is_peak(v, b.last().index as int));
            assert(!significant(b.last().index, i as usize));
        } else {
            assert(a[a.len() - 1].kind == ExtremaKind::Valley && v[a[a.len() - 1].index as int].key
                <= v[i].key);
        }
    }
}

/// Each kept turning point is of the other kind than the one before it, and follows on
/// it because some turning point of its kind, which it is at least as extreme as, lies
/// significantly far from that one.
pub proof fn lemma_kept_follow(
    v: Seq<Level>,
    significant: spec_fn(usize, usize) -> bool,
    n: nat,
    k: int,
)
    requires
        n < v.len() || n <= 1,
        v.len() <= usize::MAX,
        0 < k < extrema_below(v, significant, n).len(),
    ensures
        follows(
            v,
            significant,
            extrema_below(v, significant, n)[k - 1],
            extrema_below(v, significant, n)[k],
        ),
        extrema_below(v, significant, n)[k - 1].kind != extrema_below(v, significant, n)[k].kind,
    decreases n,
{
    let b = extrema_below(v, significant, (n - 1) as nat);
    let a = extrema_below(v, significant, n);
    lemma_extrema_step(v, significant, n);
    lemma_kept_kinds(v, significant, (n - 1) as nat);
    if k < b.len() {
        lemma_kept_follow(v, significant, (n - 1) as nat, k);
        assert(a[k - 1] == b[k - 1]);
        let e = b[k];
        let c = choose|c: usize|
            b[k - 1].index < c <= e.index && #[trigger] significant(b[k - 1].index, c) && if e.kind
                == ExtremaKind::Peak {
                is_peak(v, c as int) && v[e.index as int].key >= v[c as int].key
            } else {
                is_valley(v, c as int) && v[e.index as int].key <= v[c as int].key
            };
        assert(e.index < n - 1);
        assert(significant(a[k - 1].index, c));
    } else {
        assert(a[k - 1] == b[k - 1]);
        assert(b[k - 1] == b.last());
        assert(significant(a[k - 1].index, a[k].index));
    }
}

/// Whenever `f` answers, it answers as `g` does.
pub open spec fn decides<F: Fn(usize, usize) -> bool>(
    f: F,
    g: spec_fn(usize, usize) -> bool,
) -> bool {
    forall|a: usize, b: usize, x: bool| #[trigger] call_ensures(f, (a, b), x) ==> x == g(a, b)
}

/// The turning points of a signal, reduced to alternating peaks and valleys.
/// `significant(a, b)` says whether the signal at `b` lies far enough from the
/// signal at `a` for both to be kept.
pub fn find_extrema<F: Fn(usize, usize) -> bool>(levels: &Vec<Level>, significant: F) -> (extrema:
    Vec<Extremum>)
    requires
        forall|a: usize, b: usize| #[trigger] call_requires(significant, (a, b)),
        forall|a: usize, b: usize, x: bool| #[trigger]
            call_ensures(significant, (a, b), x) ==> x == call_ensures(significant, (a, b), true),
    ensures
        extrema@ == extrema_below(
            levels@,
            |a: usize, b: usize| call_ensures(significant, (a, b), true),
            if levels.len() < 2 {
                0
            } else {
                (levels.len() - 1) as nat
            },
        ),
        forall|g: spec_fn(usize, usize) -> bool| #[trigger]
            decides(significant, g) ==> extrema@ == extrema_below(
                levels@,
                g,
                if levels.len() < 2 {
                    0
                } else {
                    (levels.len() - 1) as nat
                },
            ),
        alternates(extrema@),
        forall|i: int| 0 <= i < extrema.len() ==> (#[trigger] extrema@[i]).index < levels.len(),
{
    let ghost sig = |a: usize, b: usize| call_ensures(significant, (a, b), true);
    let mut kept: Vec<Extremum> = Vec::new();
    let n: usize = levels.len();
    if n < 2 {
        return kept;
    }
    let mut i: usize = 1;
    while i < n - 1
        invariant
            1 <= i <= n - 1,
            n == levels.len(),
            n >= 2,
            sig == (|a: usize, b: usize| call_ensures(significant, (a, b), true)),
            forall|a: usize, b: usize| #[trigger] call_requires(significant, (a, b)),
            forall|a: usize, b: usize, x: bool| #[trigger]
                call_ensures(significant, (a, b), x) ==> x == call_ensures(
                    significant,
                    (a, b),
                    true,
                ),
            kept@ == extrema_below(levels@, sig, i as nat),
            forall|g: spec_fn(usize, usize) -> bool| #[trigger]
                decides(significant, g) ==> kept@ == extrema_below(levels@, g, i as nat),
            forall|k: int| 0 <= k < kept.len() ==> (#[trigger] kept@[k]).index < n,
        decreases n - i,
    {
        let rises: bool = levels[i].above(levels[i - 1]);
        let falls: bool = levels[i].below(levels[i - 1]);
        let rises_on: bool = levels[i + 1].above(levels[i]);
        let falls_on: bool = levels[i + 1].below(levels[i]);
        let found: Option<Extremum> = if rises && !rises_on {
            Some(Extremum { index: i, kind: ExtremaKind::Peak })
        } else if falls && !falls_on {
            Some(Extremum { index: i, kind: ExtremaKind::Valley })
        } else {
            None
        };
        assert(found == extremum_at(levels@, i as int));
        if let Some(cand) = found {
            let len: usize = kept.len();
            if len == 0 {
                kept.push(cand);
            } else {
                let last: Extremum = kept[len - 1];
                if last.kind == cand.kind {
                    let further: bool = match cand.kind {
                        ExtremaKind::Peak => levels[cand.index].above(levels[last.index]),
                        ExtremaKind::Valley => levels[cand.index].below(levels[last.index]),
                    };
                    if further {
                        let ghost before = kept@;
                        kept.set(len - 1, cand);
                        assert(kept@ =~= before.drop_last().push(cand));
                    }
                } else if significant(last.index, cand.index) {
                    kept.push(cand);
                }
            }
        }
        i += 1;
    }
    proof {
        lemma_extrema_alternate(levels@, sig, (n - 1) as nat);
    }
    kept
}

/// How far a turning point's keyframe goes out.
#[derive(Debug, Clone, Copy, PartialEq, Eq, Structural)]
pub enum StrokeShape {
    /// To the physical limit
    Full,
    /// By this much either side of the middle
    Partial(u8),
    /// To this position
    Scaled(i32),
}

/// The position of a turning point's keyframe.
pub open spec fn stroke_pos(kind: ExtremaKind, shape: StrokeShape) -> i32 {
    match (shape, kind) {
        (StrokeShape::Full, ExtremaKind::Peak) => 100,
        (StrokeShape::Full, ExtremaKind::Valley) => 0,
        (StrokeShape::Partial(h), ExtremaKind::Peak) => if 50 + h > 100 {
            100
        } else {
            (50 + h) as i32
        },
        (StrokeShape::Partial(h), ExtremaKind::Valley) => if 50 - h < 0 {
            0
        } else {
            (50 - h) as i32
        },
        (StrokeShape::Scaled(p), _) => p,
    }
}

fn position_of(kind: ExtremaKind, shape: StrokeShape) -> (pos: i32)
    ensures
        pos == stroke_pos(kind, shape),
{
    match (shape, kind) {
        (StrokeShape::Full, ExtremaKind::Peak) => 100,
        (StrokeShape::Full, ExtremaKind::Valley) => 0,
        (StrokeShape::Partial(h), ExtremaKind::Peak) => if h > 50 {
            100
        } else {
            50 + h as i32
        },
        (StrokeShape::Partial(h), ExtremaKind::Valley) => if h > 50 {
            0
        } else {
            50 - h as i32
        },
        (StrokeShape::Scaled(p), _) => p,
    }
}

/// The keyframe before the first turning point: at the opposite end, where
/// there is time for it.
pub open spec fn lead_in(first_t: i64, first_turn: i64, kind: ExtremaKind) -> Seq<Action> {
    if first_turn > first_t {
        seq![
            Action {
                at: first_t,
                pos: if kind == ExtremaKind::Peak {
                    0
                } else {
                    100
                },
            },
        ]
    } else {
        Seq::empty()
    }
}

/// The keyframes of the lead-in and of the first `k` turning points.
pub open spec fn stroke_actions(
    timestamps: Seq<i64>,
    extrema: Seq<Extremum>,
    shapes: Seq<StrokeShape>,
    k: nat,
) -> Seq<Action>
    decreases k,
{
    if k == 0 {
        lead_in(timestamps[0], timestamps[extrema[0].index as int], extrema[0].kind)
    } else {
        let e = extrema[k - 1];
        merged_push(
            stroke_actions(timestamps, extrema, shapes, (k - 1) as nat),
            Action { at: timestamps[e.index as int], pos: stroke_pos(e.kind, shapes[k - 1]) },
        )
    }
}

/// `s` followed by a keyframe at the far end, where time is left.
pub open spec fn with_lead_out(s: Seq<Action>, last_t: i64) -> Seq<Action> {
    if s.len() > 0 && s.last().at < last_t {
        s.push(
            Action {
                at: last_t,
                pos: if s.last().pos > 50 {
                    0
                } else {
                    100
                },
            },
        )
    } else {
        s
    }
}

/// The keyframes of a signal of `n` samples with the given turning points.
pub open spec fn full_range_actions(
    n: nat,
    timestamps: Seq<i64>,
    extrema: Seq<Extremum>,
    shapes: Seq<StrokeShape>,
) -> Seq<Action> {
    if n == 0 {
        Seq::empty()
    } else if n == 1 {
        seq![Action { at: timestamps[0], pos: 50 }]
    } else if extrema.len() == 0 {
        seq![Action { at: timestamps[0], pos: 0 }, Action { at: timestamps.last(), pos: 100 }]
    } else {
        with_lead_out(
            stroke_actions(timestamps, extrema, shapes, extrema.len()),
            timestamps.last(),
        )
    }
}

/// Extract full-range keyframes from the turning points of a signal of `n`
/// samples. `shapes[i]` says how far turning point `i` goes out.
pub fn extract_actions_full_range(
    n: usize,
    timestamps_ms: &Vec<i64>,
    extrema: &Vec<Extremum>,
    shapes: &Vec<StrokeShape>,
) -> (actions: Vec<Action>)
    requires
        n > 0 ==> timestamps_ms.len() > 0,
        shapes.len() == extrema.len(),
        forall|i: int|
            0 <= i < extrema.len() ==> (#[trigger] extrema@[i]).index < timestamps_ms.len(),
    ensures
        actions@ == full_range_actions(n as nat, timestamps_ms@, extrema@, shapes@),
{
    let mut actions: Vec<Action> = Vec::new();
    if n == 0 {
        return actions;
    }
    let first_t: i64 = timestamps_ms[0];
    let last_t: i64 = timestamps_ms[timestamps_ms.len() - 1];
    if n == 1 {
        actions.push(Action { at: first_t, pos: 50 });
        assert(actions@ =~= seq![Action { at: first_t, pos: 50 }]);
        return actions;
    }
    if extrema.len() == 0 {
        actions.push(Action { at: first_t, pos: 0 });
        actions.push(Action { at: last_t, pos: 100 });
        assert(actions@ =~= seq![Action { at: first_t, pos: 0 }, Action { at: last_t, pos: 100 }]);
        return actions;
    }
    let first: Extremum = extrema[0];
    if timestamps_ms[first.index] > first_t {
        let pos: i32 = match first.kind {
            ExtremaKind::Peak => 0,
            ExtremaKind::Valley => 100,
        };
        actions.push(Action { at: first_t, pos });
    }
    assert(actions@ =~= stroke_actions(timestamps_ms@, extrema@, shapes@, 0));
    let mut k: usize = 0;
    while k < extrema.len()
        invariant
            k <= extrema.len(),
            shapes.len() == extrema.len(),
            forall|i: int|
                0 <= i < extrema.len() ==> (#[trigger] extrema@[i]).index < timestamps_ms.len(),
            actions@ == stroke_actions(timestamps_ms@, extrema@, shapes@, k as nat),
        decreases extrema.len() - k,
    {
        let e: Extremum = extrema[k];
        push_merged(
            &mut actions,
            Action { at: timestamps_ms[e.index], pos: position_of(e.kind, shapes[k]) },
        );
        k += 1;
    }
    let len: usize = actions.len();
    if len > 0 && actions[len - 1].at < last_t {
        let pos: i32 = if actions[len - 1].pos > 50 {
            0
        } else {
            100
        };
        actions.push(Action { at: last_t, pos });
    }
    actions
}

proof fn lemma_stroke_actions(
    timestamps: Seq<i64>,
    extrema: Seq<Extremum>,
    shapes: Seq<StrokeShape>,
    k: nat,
)
    requires
        k <= extrema.len(),
        extrema.len() > 0,
        shapes.len() == extrema.len(),
        timestamps.len() > 0,
        timestamps[0] <= timestamps[extrema[0].index as int],
        forall|i: int, j: int|
            0 <= i < j < extrema.len() ==> timestamps[(#[trigger] extrema[i]).index as int]
                < timestamps[(#[trigger] extrema[j]).index as int],
    ensures
        ({
            let a = stroke_actions(timestamps, extrema, shapes, k);
            let lead: int = if timestamps[0] < timestamps[extrema[0].index as int] {
                1
            } else {
                0
            };
            &&& a.len() == lead + k
            &&& lead == 1 ==> a[0] == (Action {
                at: timestamps[0],
                pos: if extrema[0].kind == ExtremaKind::Peak {
                    0
                } else {
                    100
                },
            })
            &&& forall|i: int|
                0 <= i < k ==> a[lead + i] == (Action {
                    at: timestamps[(#[trigger] extrema[i]).index as int],
                    pos: stroke_pos(extrema[i].kind, shapes[i]),
                })
        }),
    decreases k,
{
    if k > 0 {
        lemma_stroke_actions(timestamps, extrema, shapes, (k - 1) as nat);
        let b = stroke_actions(timestamps, extrema, shapes, (k - 1) as nat);
        let a = stroke_actions(timestamps, extrema, shapes, k);
        let lead: int = if timestamps[0] < timestamps[extrema[0].index as int] {
            1
        } else {
            0
        };
        if k > 1 {
            assert(b[lead + (k - 2)].at == timestamps[extrema[k - 2].index as int]);
            assert(timestamps[extrema[k - 2].index as int] < timestamps[extrema[k - 1].index
                as int]);
            assert(b.last() == b[lead + (k - 2)]);
        }
        assert(a == b.push(
            Action {
                at: timestamps[extrema[k - 1].index as int],
                pos: stroke_pos(extrema[k - 1].kind, shapes[k - 1]),
            },
        ));
        assert forall|i: int| 0 <= i < k implies a[lead + i] == (Action {
            at: timestamps[(#[trigger] extrema[i]).index as int],
            pos: stroke_pos(extrema[i].kind, shapes[i]),
        }) by {
            if i < k - 1 {
                assert(a[lead + i] == b[lead + i]);
            }
        }
    }
}

/// Every turning point has a keyframe of its own at its time, which goes as far out as
/// its own shape says: to the limit on its side, by so much either side of the middle,
/// or to a given position. Before the first there is a keyframe at the opposite limit
/// and behind the last one at the limit across from it, where there is time; there are
/// no others.
pub proof fn lemma_full_range_strokes(
    n: nat,
    timestamps: Seq<i64>,
    extrema: Seq<Extremum>,
    shapes: Seq<StrokeShape>,
)
    requires
        n >= 2,
        extrema.len() > 0,
        shapes.len() == extrema.len(),
        timestamps.len() > 0,
        timestamps[0] <= timestamps[extrema[0].index as int],
        timestamps[extrema.last().index as int] <= timestamps.last(),
        forall|i: int, j: int|
            0 <= i < j < extrema.len() ==> timestamps[(#[trigger] extrema[i]).index as int]
                < timestamps[(#[trigger] extrema[j]).index as int],
    ensures
        ({
            let a = full_range_actions(n, timestamps, extrema, shapes);
            let lead: int = if timestamps[0] < timestamps[extrema[0].index as int] {
                1
            } else {
                0
            };
            let tail: int = if timestamps[extrema.last().index as int] < timestamps.last() {
                1
            } else {
                0
            };
            let k = extrema.len();
            &&& a.len() == lead + k + tail
            &&& forall|i: int|
                0 <= i < k ==> {
                    let key = a[lead + i];
                    let up = (#[trigger] extrema[i]).kind == ExtremaKind::Peak;
                    &&& key.at == timestamps[extrema[i].index as int]
                    &&& shapes[i] == StrokeShape::Full && up ==> key.pos == 100
                    &&& shapes[i] == StrokeShape::Full && !up ==> key.pos == 0
                    &&& shapes[i] matches StrokeShape::Partial(h) ==> (h <= 50 ==> key.pos == (
                    if up {
                        50 + h
                    } else {
                        50 - h
                    })) && (h > 50 ==> key.pos == (if up {
                        100int
                    } else {
                        0int
                    }))
                    &&& shapes[i] matches StrokeShape::Scaled(p) ==> key.pos == p
                }
            &&& lead == 1 ==> a[0].at == timestamps[0] && a[0].pos == (if extrema[0].kind
                == ExtremaKind::Peak {
                0int
            } else {
                100int
            })
            &&& tail == 1 ==> a.last().at == timestamps.last() && a.last().pos == (if a[a.len()
                - 2].pos > 50 {
                0int
            } else {
                100int
            })
        }),
{
    let k = extrema.len();
    lemma_stroke_actions(timestamps, extrema, shapes, k);
    let b = stroke_actions(timestamps, extrema, shapes, k);
    let a = full_range_actions(n, timestamps, extrema, shapes);
    let lead: int = if timestamps[0] < timestamps[extrema[0].index as int] {
        1
    } else {
        0
    };
    assert(b[lead + (k - 1)] == b.last());
    assert(extrema[k - 1] == extrema.last());
}

/// Without a turning point the keyframes are one sweep over the whole range; a single
/// sample rests in the middle.
pub proof fn lemma_full_range_without_turns(n: nat, timestamps: Seq<i64>, shapes: Seq<StrokeShape>)
    requires
        n > 0,
        timestamps.len() > 0,
    ensures
        ({
            let a = full_range_actions(n, timestamps, Seq::empty(), shapes);
            &&& n == 1 ==> a.len() == 1 && a[0].at == timestamps[0] && a[0].pos == 50
            &&& n > 1 ==> a.len() == 2 && a[0].at == timestamps[0] && a[0].pos == 0 && a[1].at
                == timestamps.last() && a[1].pos == 100
        }),
{
}

/// The turning point that a stroke is measured against: the one before it, else
/// the one after it, if there is any.
pub fn stroke_neighbor(i: usize, count: usize) -> (res: Option<usize>)
    requires
        i < count,
    ensures
        res == (if i > 0 {
            Some((i - 1) as usize)
        } else if count > 1 {
            Some(1usize)
        } else {
            None
        }),
{
    if i > 0 {
        Some(i - 1)
    } else if count > 1 {
        Some(1)
    } else {
        None
    }
}

/// An answer that decides as `g` does is `g`'s, yes for yes and no for no.
pub proof fn lemma_decides<F: Fn(usize, usize) -> bool>(
    f: F,
    g: spec_fn(usize, usize) -> bool,
    a: usize,
    b: usize,
)
    requires
        decides(f, g),
    ensures
        f.ensures((a, b), true) ==> g(a, b),
        f.ensures((a, b), false) ==> !g(a, b),
{
}

/// The place found for a rolling window is at most `half` away. Where the smallest level is
/// sought no level of the window is below it, where the largest is sought none is above, and
/// of equal levels it is the last.
pub proof fn lemma_window_extremum(
    v: Seq<Level>,
    largest: bool,
    half: nat,
    i: int,
    m: int,
    j: int,
)
    requires
        0 <= i < v.len(),
        is_window_best(
            v,
            largest,
            window_start(i, half as int),
            window_end(i, half as int, v.len() as int),
            m,
        ),
        0 <= j < v.len(),
        i - half <= j <= i + half,
    ensures
        0 <= m < v.len(),
        i - half <= m <= i + half,
        largest ==> v[j].key <= v[m].key,
        !largest ==> v[j].key >= v[m].key,
        j > m ==> v[j].key != v[m].key,
{
    assert(cost(v[m], largest) <= cost(v[j], largest));
}

/// Of turning points of one kind in a row the most extreme is kept, and of those equally
/// extreme the first.
pub proof fn lemma_most_extreme_kept(
    v: Seq<Level>,
    significant: spec_fn(usize, usize) -> bool,
    kept: Seq<Extremum>,
    cand: Extremum,
)
    requires
        kept.len() > 0,
        kept.last().kind == cand.kind,
    ensures
        ({
            let now = v[kept.last().index as int].key;
            let offer = v[cand.index as int].key;
            let after = offered(v, significant, kept, cand);
            &&& after.len() == kept.len()
            &&& offer == now ==> after == kept
            &&& cand.kind is Peak ==> after.last() == (if offer > now {
                cand
            } else {
                kept.last()
            })
            &&& cand.kind is Valley ==> after.last() == (if offer < now {
                cand
            } else {
                kept.last()
            })
        }),
{
}

} // verus!
