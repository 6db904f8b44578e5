//! Image motion: photometric difference of frames, the center of expansion and
//! its temporal median.
use crate::level::{lemma_sorted_levels, sort_range, sorted_levels, Level};
use vstd::prelude::*;

verus! {

/// How far two pixels differ.
pub open spec fn pixel_difference(a: u8, b: u8) -> nat {
    if a < b {
        (b - a) as nat
    } else {
        (a - b) as nat
    }
}

/// The summed difference of the first `n` pixels.
pub open spec fn difference_sum(p0: Seq<u8>, p1: Seq<u8>, n: nat) -> nat
    decreases n,
{
    if n == 0 {
        0
    } else {
        difference_sum(p0, p1, (n - 1) as nat) + pixel_difference(p0[n - 1], p1[n - 1])
    }
}

/// The summed absolute difference of two frames. `None` where they cannot be
/// compared, which counts as a cut: they differ in size, or are empty.
pub fn photometric_difference(p0: &[u8], p1: &[u8]) -> (res: Option<u64>)
    requires
        p0@.len() * 255 <= u64::MAX,
    ensures
        res is None <==> p0@.len() != p1@.len() || p0@.len() == 0,
        res matches Some(sum) ==> sum == difference_sum(p0@, p1@, p0@.len()),
{
    let n: usize = p0.len();
    if n != p1.len() || n == 0 {
        return None;
    }
    let mut sum: u64 = 0;
    let mut i: usize = 0;
    while i < n
        invariant
            i <= n,
            n == p0@.len(),
            n == p1@.len(),
            n * 255 <= u64::MAX,
            sum <= i * 255,
            sum == difference_sum(p0@, p1@, i as nat),
        decreases n - i,
    {
        let a: u8 = p0[i];
        let b: u8 = p1[i];
        let d: u8 = if a < b {
            b - a
        } else {
            a - b
        };
        sum += d as u64;
        i += 1;
    }
    Some(sum)
}

/// Detect sudden cut via L1 mean pixel difference between frames: they cannot be
/// compared, or their mean difference was found above the threshold.
pub fn detect_cut_photometric(difference: Option<u64>, mean_above_threshold: bool) -> (cut: bool)
    ensures
        cut == (difference is None || mean_above_threshold),
{
    difference.is_none() || mean_above_threshold
}

/// What an image of the given width holds at a pixel.
pub open spec fn at_pixel(values: Seq<Level>, width: int, x: int, y: int) -> Level {
    values[y * width + x]
}

/// The pixel is more than one away from the border.
pub open spec fn is_interior(width: int, height: int, x: int, y: int) -> bool {
    2 <= x < width - 2 && 2 <= y < height - 2
}

/// `(x, y)` comes before `(u, v)` when an image is read row by row.
pub open spec fn reads_before(x: int, y: int, u: int, v: int) -> bool {
    y < v || y == v && x < u
}

/// `(x, y)` is the first interior pixel of largest magnitude, and above `zero`.
pub open spec fn is_divergence_peak(
    magnitudes: Seq<Level>,
    width: int,
    height: int,
    zero: Level,
    x: int,
    y: int,
) -> bool {
    let best = at_pixel(magnitudes, width, x, y);
    &&& is_interior(width, height, x, y)
    &&& best.key > zero.key
    &&& forall|u: int, v: int|
        is_interior(width, height, u, v) ==> (#[trigger] at_pixel(magnitudes, width, u, v)).key
            <= best.key && (reads_before(u, v, x, y) ==> at_pixel(magnitudes, width, u, v).key
            < best.key)
}

/// Finds the point of maximum divergence, given the magnitude of the divergence
/// at each pixel. `None` where no interior pixel diverges: then the middle of
/// the image counts as the center.
pub fn find_divergence_center(
    magnitudes: &Vec<Level>,
    width: usize,
    height: usize,
    zero: Level,
) -> (res: Option<(usize, usize)>)
    requires
        magnitudes.len() == width * height,
        height >= 2,
        height > 4 ==> width >= 2,
    ensures
        match res {
            Some((x, y)) => is_divergence_peak(
                magnitudes@,
                width as int,
                height as int,
                zero,
                x as int,
                y as int,
            ),
            None => forall|u: int, v: int|
                is_interior(width as int, height as int, u, v) ==> (#[trigger] at_pixel(
                    magnitudes@,
                    width as int,
                    u,
                    v,
                )).key <= zero.key,
        },
{
    let mut best: Option<(usize, usize)> = None;
    let mut best_level: Level = zero;
    let ghost m = magnitudes@;
    let ghost w = width as int;
    let ghost h = height as int;
    let mut y: usize = 2;
    while y < height - 2
        invariant
            m == magnitudes@,
            w == width,
            h == height,
            m.len() == w * h,
            2 <= y,
            2 <= height,
            height > 4 ==> width >= 2,
            height >= 4 ==> y <= height - 2,
            scanned(m, w, h, zero, 2, y as int, best, best_level),
        decreases height - y,
    {
        let mut x: usize = 2;
        while x < width - 2
            invariant
                m == magnitudes@,
                w == width,
                h == height,
                m.len() == w * h,
                2 <= width,
                2 <= y < h - 2,
                2 <= x,
                width >= 4 ==> x <= width - 2,
                scanned(m, w, h, zero, x as int, y as int, best, best_level),
            decreases width - x,
        {
            proof {
                assert(magnitudes.len() == w * h);
                assert(0 <= y * w + x < w * h) by (nonlinear_arith)
                    requires
                        0 <= y < h,
                        0 <= x < w,
                ;
                assert(0 <= y * w) by (nonlinear_arith)
                    requires
                        0 <= y,
                        0 <= w,
                ;
            }
            let level: Level = magnitudes[y * width + x];
            assert(level == at_pixel(m, w, x as int, y as int));
            if level.above(best_level) {
                best_level = level;
                best = Some((x, y));
            }
            x += 1;
        }
        y += 1;
    }
    best
}

/// `best` is the first peak, at `level`, among the interior pixels read before
/// `(x, y)`.
spec fn scanned(
    m: Seq<Level>,
    w: int,
    h: int,
    zero: Level,
    x: int,
    y: int,
    best: Option<(usize, usize)>,
    level: Level,
) -> bool {
    &&& forall|u: int, v: int|
        is_interior(w, h, u, v) && reads_before(u, v, x, y) ==> (#[trigger] at_pixel(
            m,
            w,
            u,
            v,
        )).key <= level.key
    &&& match best {
        None => level == zero,
        Some((a, b)) => {
            &&& is_interior(w, h, a as int, b as int)
            &&& reads_before(a as int, b as int, x, y)
            &&& level == at_pixel(m, w, a as int, b as int)
            &&& level.key > zero.key
            &&& forall|u: int, v: int|
                is_interior(w, h, u, v) && reads_before(u, v, a as int, b as int)
                    ==> (#[trigger] at_pixel(m, w, u, v)).key < level.key
        },
    }
}

/// Where the window around `i` starts.
pub open spec fn median_start(i: int, radius: int) -> int {
    if i < radius {
        0
    } else {
        i - radius
    }
}

/// Where the window around `i` ends.
pub open spec fn median_end(i: int, radius: int, n: int) -> int {
    if i + radius + 1 < n {
        i + radius + 1
    } else {
        n
    }
}

/// The middle level, in ascending order, of the window around `i`.
pub open spec fn window_median(values: Seq<Level>, radius: int, i: int) -> Level {
    let start = median_start(i, radius);
    let end = median_end(i, radius, values.len() as int);
    sorted_levels(values.subrange(start, end))[(end - start) / 2]
}

/// Temporal median filtering of a coordinate to suppress sudden noise jumps
pub fn filter_centers_median(values: &Vec<Level>, window_radius: usize) -> (filtered: Vec<Level>)
    ensures
        filtered.len() == values.len(),
        forall|i: int|
            0 <= i < values.len() ==> #[trigger] filtered@[i] == window_median(
                values@,
                window_radius as int,
                i,
            ),
{
    let n: usize = values.len();
    let mut filtered: Vec<Level> = Vec::new();
    let mut i: usize = 0;
    while i < n
        invariant
            i <= n,
            n == values.len(),
            filtered.len() == i,
            forall|k: int|
                0 <= k < i ==> #[trigger] filtered@[k] == window_median(
                    values@,
                    window_radius as int,
                    k,
                ),
        decreases n - i,
    {
        let start: usize = if i < window_radius {
            0
        } else {
            i - window_radius
        };
        let end: usize = if window_radius < n - 1 - i {
            i + window_radius + 1
        } else {
            n
        };
        let sorted: Vec<Level> = sort_range(values, start, end);
        filtered.push(sorted[sorted.len() / 2]);
        i += 1;
    }
    filtered
}

/// Where one pixel of a frame is replaced, the difference of the frames changes by as much
/// as that pixel's own distance, and equal frames do not differ.
pub proof fn lemma_difference_of_one_pixel(p0: Seq<u8>, p1: Seq<u8>, n: nat, i: int, b: u8)
    requires
        0 <= i < n <= p0.len(),
        p0.len() == p1.len(),
    ensures
        ({
            let was = if p1[i] > p0[i] {
                p1[i] - p0[i]
            } else {
                p0[i] - p1[i]
            };
            let is = if b > p0[i] {
                b - p0[i]
            } else {
                p0[i] - b
            };
            difference_sum(p0, p1.update(i, b), n) - difference_sum(p0, p1, n) == is - was
        }),
        difference_sum(p0, p0, n) == 0,
    decreases n,
{
    let q = p1.update(i, b);
    if i < n - 1 {
        lemma_difference_of_one_pixel(p0, p1, (n - 1) as nat, i, b);
    } else {
        lemma_difference_of_same(p0, p1, q, (n - 1) as nat);
        lemma_still_difference(p0, n);
    }
}

proof fn lemma_difference_of_same(p0: Seq<u8>, p1: Seq<u8>, q: Seq<u8>, n: nat)
    requires
        forall|k: int| 0 <= k < n ==> #[trigger] p1[k] == q[k],
    ensures
        difference_sum(p0, p1, n) == difference_sum(p0, q, n),
    decreases n,
{
    if n > 0 {
        lemma_difference_of_same(p0, p1, q, (n - 1) as nat);
    }
}

proof fn lemma_still_difference(p: Seq<u8>, n: nat)
    ensures
        difference_sum(p, p, n) == 0,
    decreases n,
{
    if n > 0 {
        lemma_still_difference(p, (n - 1) as nat);
    }
}

/// Two frames differ as much in either order, and not at all only where they are equal.
pub proof fn lemma_difference_is_distance(p0: Seq<u8>, p1: Seq<u8>, n: nat)
    requires
        n <= p0.len(),
        p0.len() == p1.len(),
    ensures
        difference_sum(p0, p1, n) == difference_sum(p1, p0, n),
        difference_sum(p0, p1, n) == 0 <==> p0.take(n as int) == p1.take(n as int),
    decreases n,
{
    if n > 0 {
        let m = n - 1;
        lemma_difference_is_distance(p0, p1, m as nat);
        assert(p0.take(n as int) =~= p0.take(m).push(p0[m]));
        assert(p1.take(n as int) =~= p1.take(m).push(p1[m]));
        assert(p0.take(n as int).take(m) =~= p0.take(m));
        assert(p1.take(n as int).take(m) =~= p1.take(m));
        if p0.take(n as int) == p1.take(n as int) {
            assert(p0.take(n as int)[m] == p1.take(n as int)[m]);
            assert(p0.take(m) == p1.take(m));
        }
    } else {
        assert(p0.take(0) =~= p1.take(0));
    }
}

/// The median at `i` is the middle one of the values at most `radius` away from `i`, put in
/// ascending order.
pub proof fn lemma_median_of_window(values: Seq<Level>, radius: nat, i: int) -> (arranged: Seq<Level>)
    requires
        0 <= i < values.len(),
    ensures
        forall|a: int, b: int| 0 <= a <= b < arranged.len() ==> arranged[a].key <= arranged[b].key,
        ({
            let start = if i - radius < 0 {
                0
            } else {
                i - radius
            };
            let end = if i + radius >= values.len() {
                values.len() as int
            } else {
                i + radius + 1
            };
            &&& arranged.len() == end - start
            &&& arranged.to_multiset() == values.subrange(start, end).to_multiset()
            &&& window_median(values, radius as int, i) == arranged[(end - start) / 2]
        }),
{
    let start = median_start(i, radius as int);
    let end = median_end(i, radius as int, values.len() as int);
    lemma_sorted_levels(values.subrange(start, end));
    sorted_levels(values.subrange(start, end))
}

} // verus!
