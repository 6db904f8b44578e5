//! The gradients of image motion: how brightness changes across the pixels around
//! a point and from one frame to the next.
use vstd::prelude::*;

verus! {

/// How far the window around a pixel reaches
pub const WINDOW_RADIUS: usize = 3;

/// Sums of gradient products over a window. A slope across the image is counted in
/// quarters of a brightness step, so `xx`, `xy` and `yy` are in sixteenths and `xt`
/// and `yt` in quarters.
#[derive(Debug, Clone, Copy, PartialEq, Eq, Structural)]
pub struct GradientTensor {
    pub xx: i64,
    pub xy: i64,
    pub yy: i64,
    pub xt: i64,
    pub yt: i64,
}

/// The numbers in a [`GradientTensor`].
pub struct TensorView {
    pub xx: int,
    pub xy: int,
    pub yy: int,
    pub xt: int,
    pub yt: int,
}

impl View for GradientTensor {
    type V = TensorView;

    open spec fn view(&self) -> TensorView {
        TensorView {
            xx: self.xx as int,
            xy: self.xy as int,
            yy: self.yy as int,
            xt: self.xt as int,
            yt: self.yt as int,
        }
    }
}

/// The central differences of both frames at a pixel, across and down, and the
/// change from frame to frame.
pub open spec fn slopes(p0: Seq<u8>, p1: Seq<u8>, width: int, i: int) -> (int, int, int) {
    (
        (p0[i + 1] - p0[i - 1]) + (p1[i + 1] - p1[i - 1]),
        (p0[i + width] - p0[i - width]) + (p1[i + width] - p1[i - width]),
        p1[i] - p0[i],
    )
}

/// The sums with the products of one more pixel.
pub open spec fn with_slopes(t: TensorView, s: (int, int, int)) -> TensorView {
    TensorView {
        xx: t.xx + s.0 * s.0,
        xy: t.xy + s.0 * s.1,
        yy: t.yy + s.1 * s.1,
        xt: t.xt + s.0 * s.2,
        yt: t.yt + s.1 * s.2,
    }
}

/// The sums with `n` more pixels of row `y`, from column `x` on.
pub open spec fn with_row(
    t: TensorView,
    p0: Seq<u8>,
    p1: Seq<u8>,
    width: int,
    y: int,
    x: int,
    n: nat,
) -> TensorView
    decreases n,
{
    if n == 0 {
        t
    } else {
        with_slopes(
            with_row(t, p0, p1, width, y, x, (n - 1) as nat),
            slopes(p0, p1, width, y * width + x + n - 1),
        )
    }
}

/// The sums over a window of `n` columns and `m` rows from `(x, y)` on.
pub open spec fn window_sums(
    p0: Seq<u8>,
    p1: Seq<u8>,
    width: int,
    x: int,
    n: nat,
    y: int,
    m: nat,
) -> TensorView
    decreases m,
{
    if m == 0 {
        TensorView { xx: 0, xy: 0, yy: 0, xt: 0, yt: 0 }
    } else {
        with_row(
            window_sums(p0, p1, width, x, n, y, (m - 1) as nat),
            p0,
            p1,
            width,
            y + m - 1,
            x,
            n,
        )
    }
}

/// Where a window around `c` begins, the border of the image left out.
pub open spec fn window_low(c: int) -> int {
    if c - 3 < 1 {
        1
    } else {
        c - 3
    }
}

/// How much of a window around `c` lies in an image of the given size, its border
/// left out.
pub open spec fn window_len(c: int, size: int) -> nat {
    let end = if c + 3 >= size - 1 {
        size - 1
    } else {
        c + 4
    };
    (end - window_low(c)) as nat
}

/// The pixel is not on the border.
pub open spec fn has_neighbors(x: int, y: int, width: int, height: int) -> bool {
    1 <= x < width - 1 && 1 <= y < height - 1
}

/// What [`gradient_tensor`] sums up for the pixel `(x, y)`.
pub open spec fn tensor_at(
    p0: Seq<u8>,
    p1: Seq<u8>,
    width: int,
    height: int,
    x: int,
    y: int,
) -> TensorView {
    window_sums(
        p0,
        p1,
        width,
        window_low(x),
        window_len(x, width),
        window_low(y),
        window_len(y, height),
    )
}

spec fn within(t: TensorView, bound: int) -> bool {
    &&& -bound <= t.xx <= bound
    &&& -bound <= t.xy <= bound
    &&& -bound <= t.yy <= bound
    &&& -bound <= t.xt <= bound
    &&& -bound <= t.yt <= bound
}

proof fn lemma_pixel(x: int, y: int, width: int, height: int)
    requires
        has_neighbors(x, y, width, height),
    ensures
        width <= y * width,
        0 <= y * width,
        y * width + x + width < width * height,
{
    assert(width <= y * width && y * width + x + width < width * height) by (nonlinear_arith)
        requires
            1 <= x < width - 1,
            1 <= y < height - 1,
    ;
}

fn product(a: i64, b: i64) -> (res: i64)
    requires
        -510 <= a <= 510,
        -510 <= b <= 510,
    ensures
        res == a * b,
        -260100 <= res <= 260100,
{
    proof {
        assert(-260100 <= a * b <= 260100) by (nonlinear_arith)
            requires
                -510 <= a <= 510,
                -510 <= b <= 510,
        ;
    }
    a * b
}

fn add_pixel(t: GradientTensor, p0: &[u8], p1: &[u8], width: usize, i: usize) -> (res:
    GradientTensor)
    requires
        1 <= width <= i,
        i + width < p0@.len(),
        i + width < p1@.len(),
        within(t@, 100000000),
    ensures
        res@ == with_slopes(t@, slopes(p0@, p1@, width as int, i as int)),
        -260100 <= res.xx - t.xx <= 260100,
        -260100 <= res.xy - t.xy <= 260100,
        -260100 <= res.yy - t.yy <= 260100,
        -260100 <= res.xt - t.xt <= 260100,
        -260100 <= res.yt - t.yt <= 260100,
{
    let len: usize = p0.len();
    assert(i + width < len);
    let gx: i64 = (p0[i + 1] as i64 - p0[i - 1] as i64) + (p1[i + 1] as i64 - p1[i - 1] as i64);
    let gy: i64 = (p0[i + width] as i64 - p0[i - width] as i64) + (p1[i + width] as i64 - p1[i
        - width] as i64);
    let gt: i64 = p1[i] as i64 - p0[i] as i64;
    GradientTensor {
        xx: t.xx + product(gx, gx),
        xy: t.xy + product(gx, gy),
        yy: t.yy + product(gy, gy),
        xt: t.xt + product(gx, gt),
        yt: t.yt + product(gy, gt),
    }
}

/// The sums of gradient products around the pixel `(x, y)`, from which its motion
/// is solved. `None` on the border, where no motion is measured.
pub fn gradient_tensor(
    p0: &[u8],
    p1: &[u8],
    width: usize,
    height: usize,
    x: usize,
    y: usize,
) -> (res: Option<GradientTensor>)
    requires
        p0@.len() >= width * height,
        p1@.len() >= width * height,
    ensures
        res is Some <==> has_neighbors(x as int, y as int, width as int, height as int),
        res matches Some(t) ==> t@ == tensor_at(
            p0@,
            p1@,
            width as int,
            height as int,
            x as int,
            y as int,
        ),
{
    if x < 1 || y < 1 || width < 3 || height < 3 || x >= width - 1 || y >= height - 1 {
        return None;
    }
    let len: usize = p0.len();
    let x0: usize = if x <= WINDOW_RADIUS {
        1
    } else {
        x - WINDOW_RADIUS
    };
    let y0: usize = if y <= WINDOW_RADIUS {
        1
    } else {
        y - WINDOW_RADIUS
    };
    let x1: usize = if width - 1 - x <= WINDOW_RADIUS {
        width - 1
    } else {
        x + WINDOW_RADIUS + 1
    };
    let y1: usize = if height - 1 - y <= WINDOW_RADIUS {
        height - 1
    } else {
        y + WINDOW_RADIUS + 1
    };
    let ghost n = (x1 - x0) as nat;
    let mut t = GradientTensor { xx: 0, xy: 0, yy: 0, xt: 0, yt: 0 };
    let mut ny: usize = y0;
    while ny < y1
        invariant
            1 <= x0 <= x1 < width,
            1 <= y0 <= ny <= y1 < height,
            x1 - x0 <= 7,
            y1 - y0 <= 7,
            n == x1 - x0,
            p0@.len() == len,
            len >= width * height,
            p1@.len() >= width * height,
            t@ == window_sums(
                p0@,
                p1@,
                width as int,
                x0 as int,
                n,
                y0 as int,
                (ny - y0) as nat,
            ),
            within(t@, 1820700 * (ny - y0)),
        decreases y1 - ny,
    {
        let ghost before = t@;
        let mut nx: usize = x0;
        while nx < x1
            invariant
                1 <= x0 <= nx <= x1 < width,
                1 <= y0 <= ny < y1 < height,
                x1 - x0 <= 7,
                y1 - y0 <= 7,
                p0@.len() == len,
                len >= width * height,
                p1@.len() >= width * height,
                t@ == with_row(
                    before,
                    p0@,
                    p1@,
                    width as int,
                    ny as int,
                    x0 as int,
                    (nx - x0) as nat,
                ),
                within(t@, 1820700 * (ny - y0) + 260100 * (nx - x0)),
            decreases x1 - nx,
        {
            proof {
                lemma_pixel(nx as int, ny as int, width as int, height as int);
            }
            t = add_pixel(t, p0, p1, width, ny * width + nx);
            nx += 1;
        }
        ny += 1;
    }
    Some(t)
}

/// Where two frames are the same, nothing changes with time, whatever the image
/// holds: no motion is measured.
pub proof fn lemma_still_frames(p: Seq<u8>, width: int, height: int, x: int, y: int)
    ensures
        tensor_at(p, p, width, height, x, y).xt == 0,
        tensor_at(p, p, width, height, x, y).yt == 0,
{
    lemma_still_window(
        p,
        width,
        window_low(x),
        window_len(x, width),
        window_low(y),
        window_len(y, height),
    );
}

proof fn lemma_still_window(p: Seq<u8>, width: int, x: int, n: nat, y: int, m: nat)
    ensures
        window_sums(p, p, width, x, n, y, m).xt == 0,
        window_sums(p, p, width, x, n, y, m).yt == 0,
    decreases m,
{
    if m > 0 {
        lemma_still_window(p, width, x, n, y, (m - 1) as nat);
        lemma_still_row(
            window_sums(p, p, width, x, n, y, (m - 1) as nat),
            p,
            width,
            y + m - 1,
            x,
            n,
        );
    }
}

proof fn lemma_still_row(t: TensorView, p: Seq<u8>, width: int, y: int, x: int, n: nat)
    ensures
        with_row(t, p, p, width, y, x, n).xt == t.xt,
        with_row(t, p, p, width, y, x, n).yt == t.yt,
    decreases n,
{
    if n > 0 {
        lemma_still_row(t, p, width, y, x, (n - 1) as nat);
        let s = slopes(p, p, width, y * width + x + n - 1);
        assert(s.0 * s.2 == 0 && s.1 * s.2 == 0) by (nonlinear_arith)
            requires
                s.2 == 0,
        ;
    }
}

/// The window around `c` holds what is at most three away from it, but for the border of the
/// image.
pub proof fn lemma_window(c: int, size: int, k: int)
    requires
        1 <= c < size - 1,
    ensures
        window_low(c) <= k < window_low(c) + window_len(c, size) <==> c - 3 <= k <= c + 3 && 1 <= k
            < size - 1,
{
}

/// Exchanging the two frames turns the change with time around and leaves the rest.
pub proof fn lemma_frames_exchanged(
    p0: Seq<u8>,
    p1: Seq<u8>,
    width: int,
    height: int,
    x: int,
    y: int,
)
    ensures
        ({
            let t = tensor_at(p0, p1, width, height, x, y);
            let u = tensor_at(p1, p0, width, height, x, y);
            &&& u.xx == t.xx && u.xy == t.xy && u.yy == t.yy
            &&& u.xt == -t.xt && u.yt == -t.yt
        }),
{
    lemma_exchanged_window(
        p0,
        p1,
        width,
        window_low(x),
        window_len(x, width),
        window_low(y),
        window_len(y, height),
    );
}

spec fn time_reversed(t: TensorView) -> TensorView {
    TensorView { xt: -t.xt, yt: -t.yt, ..t }
}

proof fn lemma_exchanged_window(
    p0: Seq<u8>,
    p1: Seq<u8>,
    width: int,
    x: int,
    n: nat,
    y: int,
    m: nat,
)
    ensures
        window_sums(p1, p0, width, x, n, y, m) == time_reversed(
            window_sums(p0, p1, width, x, n, y, m),
        ),
    decreases m,
{
    if m > 0 {
        lemma_exchanged_window(p0, p1, width, x, n, y, (m - 1) as nat);
        lemma_exchanged_row(
            window_sums(p0, p1, width, x, n, y, (m - 1) as nat),
            p0,
            p1,
            width,
            y + m - 1,
            x,
            n,
        );
    }
}

proof fn lemma_exchanged_row(
    t: TensorView,
    p0: Seq<u8>,
    p1: Seq<u8>,
    width: int,
    y: int,
    x: int,
    n: nat,
)
    ensures
        with_row(time_reversed(t), p1, p0, width, y, x, n) == time_reversed(
            with_row(t, p0, p1, width, y, x, n),
        ),
    decreases n,
{
    if n > 0 {
        lemma_exchanged_row(t, p0, p1, width, y, x, (n - 1) as nat);
        let s = slopes(p0, p1, width, y * width + x + n - 1);
        assert(s.0 * (-s.2) == -(s.0 * s.2)) by (nonlinear_arith);
        assert(s.1 * (-s.2) == -(s.1 * s.2)) by (nonlinear_arith);
    }
}

/// Around the pixel at `(u, v)` brightness rises by `gx` across and by `gy` down, summed over
/// both frames, and by `gt` from frame to frame.
pub open spec fn has_slopes(
    p0: Seq<u8>,
    p1: Seq<u8>,
    width: int,
    u: int,
    v: int,
    gx: int,
    gy: int,
    gt: int,
) -> bool {
    let i = v * width + u;
    &&& p0[i + 1] - p0[i - 1] + p1[i + 1] - p1[i - 1] == gx
    &&& p0[i + width] - p0[i - width] + p1[i + width] - p1[i - width] == gy
    &&& p1[i] - p0[i] == gt
}

/// Where every pixel of the window has the same slopes, the sums are their products, once
/// for each pixel of the window.
pub proof fn lemma_even_slopes(
    p0: Seq<u8>,
    p1: Seq<u8>,
    width: int,
    height: int,
    x: int,
    y: int,
    gx: int,
    gy: int,
    gt: int,
)
    requires
        has_neighbors(x, y, width, height),
        forall|u: int, v: int|
            x - 3 <= u <= x + 3 && y - 3 <= v <= y + 3 && 1 <= u < width - 1 && 1 <= v < height - 1
                ==> #[trigger] has_slopes(p0, p1, width, u, v, gx, gy, gt),
    ensures
        ({
            let left = if x < 4 {
                x - 1
            } else {
                3
            };
            let right = if x > width - 5 {
                width - 2 - x
            } else {
                3
            };
            let up = if y < 4 {
                y - 1
            } else {
                3
            };
            let down = if y > height - 5 {
                height - 2 - y
            } else {
                3
            };
            let pixels = (up + 1 + down) * (left + 1 + right);
            let t = tensor_at(p0, p1, width, height, x, y);
            &&& t.xx == pixels * (gx * gx)
            &&& t.xy == pixels * (gx * gy)
            &&& t.yy == pixels * (gy * gy)
            &&& t.xt == pixels * (gx * gt)
            &&& t.yt == pixels * (gy * gt)
        }),
{
    let n = window_len(x, width);
    let m = window_len(y, height);
    lemma_even_window(p0, p1, width, window_low(x), n, window_low(y), m, (gx, gy, gt));
}

spec fn multiple(t: TensorView, k: int, s: (int, int, int)) -> TensorView {
    TensorView {
        xx: t.xx + k * (s.0 * s.0),
        xy: t.xy + k * (s.0 * s.1),
        yy: t.yy + k * (s.1 * s.1),
        xt: t.xt + k * (s.0 * s.2),
        yt: t.yt + k * (s.1 * s.2),
    }
}

proof fn lemma_multiples(t: TensorView, j: int, k: int, s: (int, int, int))
    ensures
        multiple(multiple(t, j, s), k, s) == multiple(t, j + k, s),
        multiple(t, 0, s) == t,
        multiple(t, 1, s) == with_slopes(t, s),
{
    lemma_distributes(j, k, s.0 * s.0);
    lemma_distributes(j, k, s.0 * s.1);
    lemma_distributes(j, k, s.1 * s.1);
    lemma_distributes(j, k, s.0 * s.2);
    lemma_distributes(j, k, s.1 * s.2);
}

proof fn lemma_distributes(j: int, k: int, z: int)
    ensures
        (j + k) * z == j * z + k * z,
        0 * z == 0,
        1 * z == z,
{
    assert((j + k) * z == j * z + k * z) by (nonlinear_arith);
}

proof fn lemma_even_window(
    p0: Seq<u8>,
    p1: Seq<u8>,
    width: int,
    x: int,
    n: nat,
    y: int,
    m: nat,
    s: (int, int, int),
)
    requires
        forall|u: int, v: int|
            x <= u < x + n && y <= v < y + m ==> #[trigger] has_slopes(
                p0,
                p1,
                width,
                u,
                v,
                s.0,
                s.1,
                s.2,
            ),
    ensures
        window_sums(p0, p1, width, x, n, y, m) == multiple(
            TensorView { xx: 0, xy: 0, yy: 0, xt: 0, yt: 0 },
            (m * n) as int,
            s,
        ),
    decreases m,
{
    let none = TensorView { xx: 0, xy: 0, yy: 0, xt: 0, yt: 0 };
    assert(0 * n == 0);
    lemma_multiples(none, (m - 1) * n, n as int, s);
    if m > 0 {
        assert((m - 1) * n + n == m * n) by (nonlinear_arith);
        lemma_even_window(p0, p1, width, x, n, y, (m - 1) as nat, s);
        lemma_even_row(
            window_sums(p0, p1, width, x, n, y, (m - 1) as nat),
            p0,
            p1,
            width,
            y + m - 1,
            x,
            n,
            s,
        );
    }
}

proof fn lemma_even_row(
    t: TensorView,
    p0: Seq<u8>,
    p1: Seq<u8>,
    width: int,
    y: int,
    x: int,
    n: nat,
    s: (int, int, int),
)
    requires
        forall|u: int|
            x <= u < x + n ==> #[trigger] has_slopes(p0, p1, width, u, y, s.0, s.1, s.2),
    ensures
        with_row(t, p0, p1, width, y, x, n) == multiple(t, n as int, s),
    decreases n,
{
    lemma_multiples(t, n - 1, 1, s);
    if n > 0 {
        lemma_even_row(t, p0, p1, width, y, x, (n - 1) as nat, s);
        assert(has_slopes(p0, p1, width, x + n - 1, y, s.0, s.1, s.2));
        assert(slopes(p0, p1, width, y * width + x + n - 1) == s);
        lemma_multiples(multiple(t, n - 1, s), 0, 1, s);
    }
}

} // verus!
