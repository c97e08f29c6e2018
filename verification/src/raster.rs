//! Pixel-level rasterization primitives: region scans over closed-form
//! masks, one-pixel line segments, and the stroke stripe used by the
//! freehand and arrow tools.

use vstd::arithmetic::div_mod::{lemma_div_pos_is_pos, lemma_multiply_divide_lt};
use vstd::arithmetic::mul::{lemma_mul_inequality, lemma_mul_is_commutative};
use vstd::prelude::*;

use crate::buffer::{lemma_index_decomp, lemma_xy_index, BufView, RasterBuffer};
use crate::color::Rgba;

verus! {

/// Largest magnitude of a coordinate handed to a raster primitive.
pub const COORD_LIMIT: i64 = 8388608;

/// Largest magnitude of a pointer position handed to a drawing tool.
pub const POS_LIMIT: i64 = 1048576;

/// Largest tool size (brush thickness, border width, erase radius).
pub const SIZE_LIMIT: i64 = 1024;

/// The absolute value of an integer.
pub open spec fn iabs(v: int) -> int {
    if v >= 0 {
        v
    } else {
        -v
    }
}

/// The larger of two integers.
pub open spec fn imax(a: int, b: int) -> int {
    if a >= b {
        a
    } else {
        b
    }
}

/// A closed-form pixel test used by the scanning rasterizers.
#[derive(Clone, Copy, Debug)]
pub enum Mask {
    /// Every pixel of the scan rectangle.
    Full,
    /// The point-stamp disc: squared distance from `(cx, cy)` at most `r`
    /// (the radius itself, not its square — the stamp is deliberately
    /// tighter than a true disc at small radii).
    Disc { cx: i64, cy: i64, r: i64 },
    /// The one-pixel circle outline of radius `radius` around `(cx, cy)`:
    /// squared distance within `(radius^2 - radius, radius^2 + radius]`.
    Ring { cx: i64, cy: i64, radius: i64 },
    /// The filled triangle with the given corners: every pixel whose three
    /// edge orientations agree in sign.
    Tri { ax: i64, ay: i64, bx: i64, by: i64, cx: i64, cy: i64 },
}

/// Twice the signed area of the triangle `(ax, ay)`, `(bx, by)`, `(px, py)`.
pub open spec fn orient2d(ax: int, ay: int, bx: int, by: int, px: int, py: int) -> int {
    (bx - ax) * (py - ay) - (by - ay) * (px - ax)
}

/// Whether the pixel `(x, y)` passes the mask's test.
pub open spec fn mask_hit(m: Mask, x: int, y: int) -> bool {
    match m {
        Mask::Full => true,
        Mask::Disc { cx, cy, r } => {
            let dx = cx - x;
            let dy = cy - y;
            dx * dx + dy * dy <= r
        },
        Mask::Ring { cx, cy, radius } => {
            let dx = cx - x;
            let dy = cy - y;
            let d2 = dx * dx + dy * dy;
            radius * radius - radius < d2 && d2 <= radius * radius + radius
        },
        Mask::Tri { ax, ay, bx, by, cx, cy } => {
            let o1 = orient2d(ax as int, ay as int, bx as int, by as int, x, y);
            let o2 = orient2d(bx as int, by as int, cx as int, cy as int, x, y);
            let o3 = orient2d(cx as int, cy as int, ax as int, ay as int, x, y);
            (o1 >= 0 && o2 >= 0 && o3 >= 0) || (o1 <= 0 && o2 <= 0 && o3 <= 0)
        },
    }
}

/// Whether every coordinate stored in the mask is within [`COORD_LIMIT`].
pub open spec fn mask_ok(m: Mask) -> bool {
    match m {
        Mask::Full => true,
        Mask::Disc { cx, cy, r } => -COORD_LIMIT <= cx <= COORD_LIMIT && -COORD_LIMIT <= cy
            <= COORD_LIMIT && -COORD_LIMIT <= r <= COORD_LIMIT,
        Mask::Ring { cx, cy, radius } => -COORD_LIMIT <= cx <= COORD_LIMIT && -COORD_LIMIT <= cy
            <= COORD_LIMIT && -COORD_LIMIT <= radius <= COORD_LIMIT,
        Mask::Tri { ax, ay, bx, by, cx, cy } => -COORD_LIMIT <= ax <= COORD_LIMIT && -COORD_LIMIT
            <= ay <= COORD_LIMIT && -COORD_LIMIT <= bx <= COORD_LIMIT && -COORD_LIMIT <= by
            <= COORD_LIMIT && -COORD_LIMIT <= cx <= COORD_LIMIT && -COORD_LIMIT <= cy
            <= COORD_LIMIT,
    }
}

/// Bounds the magnitude of a product by the product of the bounds.
pub proof fn lemma_prod_bound(a: int, b: int, ca: int, cb: int)
    requires
        -ca <= a <= ca,
        -cb <= b <= cb,
        0 <= ca,
        0 <= cb,
    ensures
        -(ca * cb) <= a * b <= ca * cb,
{
    assert(-(ca * cb) <= a * b <= ca * cb) by (nonlinear_arith)
        requires
            -ca <= a <= ca,
            -cb <= b <= cb,
            0 <= ca,
            0 <= cb,
    ;
}

/// Runs the mask's test on the pixel `(x, y)`.
fn mask_test(m: Mask, x: i64, y: i64) -> (out: bool)
    requires
        mask_ok(m),
        -COORD_LIMIT <= x <= COORD_LIMIT,
        -COORD_LIMIT <= y <= COORD_LIMIT,
    ensures
        out == mask_hit(m, x as int, y as int),
{
    match m {
        Mask::Full => true,
        Mask::Disc { cx, cy, r } => {
            let dx: i64 = cx - x;
            let dy: i64 = cy - y;
            proof {
                lemma_prod_bound(dx as int, dx as int, 16777216, 16777216);
                lemma_prod_bound(dy as int, dy as int, 16777216, 16777216);
            }
            dx * dx + dy * dy <= r
        },
        Mask::Ring { cx, cy, radius } => {
            let dx: i64 = cx - x;
            let dy: i64 = cy - y;
            proof {
                lemma_prod_bound(dx as int, dx as int, 16777216, 16777216);
                lemma_prod_bound(dy as int, dy as int, 16777216, 16777216);
                lemma_prod_bound(radius as int, radius as int, 16777216, 16777216);
            }
            let d2: i64 = dx * dx + dy * dy;
            radius * radius - radius < d2 && d2 <= radius * radius + radius
        },
        Mask::Tri { ax, ay, bx, by, cx, cy } => {
            proof {
                lemma_prod_bound((bx - ax) as int, (y - ay) as int, 16777216, 16777216);
                lemma_prod_bound((by - ay) as int, (x - ax) as int, 16777216, 16777216);
                lemma_prod_bound((cx - bx) as int, (y - by) as int, 16777216, 16777216);
                lemma_prod_bound((cy - by) as int, (x - bx) as int, 16777216, 16777216);
                lemma_prod_bound((ax - cx) as int, (y - cy) as int, 16777216, 16777216);
                lemma_prod_bound((ay - cy) as int, (x - cx) as int, 16777216, 16777216);
            }
            let o1: i64 = (bx - ax) * (y - ay) - (by - ay) * (x - ax);
            let o2: i64 = (cx - bx) * (y - by) - (cy - by) * (x - bx);
            let o3: i64 = (ax - cx) * (y - cy) - (ay - cy) * (x - cx);
            (o1 >= 0 && o2 >= 0 && o3 >= 0) || (o1 <= 0 && o2 <= 0 && o3 <= 0)
        },
    }
}

/// `b` with `c` written to every pixel of the rectangle
/// `[x_lo, x_hi) x [y_lo, y_hi)` that passes the mask's test.
pub open spec fn scan_painted(
    b: BufView,
    x_lo: int,
    x_hi: int,
    y_lo: int,
    y_hi: int,
    m: Mask,
    c: Rgba,
) -> BufView {
    BufView {
        width: b.width,
        height: b.height,
        data: Seq::new(
            b.data.len(),
            |p: int|
                {
                    let x = p % b.width as int;
                    let y = p / b.width as int;
                    if x_lo <= x < x_hi && y_lo <= y < y_hi && mask_hit(m, x, y) {
                        c
                    } else {
                        b.data[p]
                    }
                },
        ),
    }
}

/// The part of [`scan_painted`] finished when the column scan stands at
/// `(xi, yj)`: all columns left of `xi`, and the rows above `yj` in
/// column `xi`.
pub(crate) open spec fn scan_partial(
    b: BufView,
    x_lo: int,
    x_hi: int,
    y_lo: int,
    y_hi: int,
    m: Mask,
    c: Rgba,
    xi: int,
    yj: int,
) -> BufView {
    BufView {
        width: b.width,
        height: b.height,
        data: Seq::new(
            b.data.len(),
            |p: int|
                {
                    let x = p % b.width as int;
                    let y = p / b.width as int;
                    if x_lo <= x < x_hi && y_lo <= y < y_hi && mask_hit(m, x, y) && (x < xi || (x
                        == xi && y < yj)) {
                        c
                    } else {
                        b.data[p]
                    }
                },
        ),
    }
}

/// Writes `color` to every pixel of the rectangle `[x_lo, x_hi) x
/// [y_lo, y_hi)` (clipped against the buffer) that passes the mask's test.
pub(crate) fn scan_paint(
    buf: &mut RasterBuffer,
    x_lo: i64,
    x_hi: i64,
    y_lo: i64,
    y_hi: i64,
    m: Mask,
    color: Rgba,
)
    requires
        old(buf)@.wf(),
        mask_ok(m),
        -COORD_LIMIT <= x_lo <= COORD_LIMIT,
        -COORD_LIMIT <= x_hi <= COORD_LIMIT,
        -COORD_LIMIT <= y_lo <= COORD_LIMIT,
        -COORD_LIMIT <= y_hi <= COORD_LIMIT,
    ensures
        final(buf)@ == scan_painted(
            old(buf)@,
            x_lo as int,
            x_hi as int,
            y_lo as int,
            y_hi as int,
            m,
            color,
        ),
        final(buf)@.wf(),
{
    let ghost b0 = buf@;
    let w: usize = buf.width();
    let h: usize = buf.height();
    let cx0: i64 = if x_lo > 0 {
        x_lo
    } else {
        0
    };
    let cx1: i64 = if x_hi < w as i64 {
        x_hi
    } else {
        w as i64
    };
    let cy0: i64 = if y_lo > 0 {
        y_lo
    } else {
        0
    };
    let cy1: i64 = if y_hi < h as i64 {
        y_hi
    } else {
        h as i64
    };
    let ghost target = scan_painted(b0, x_lo as int, x_hi as int, y_lo as int, y_hi as int, m, color);
    if cx0 >= cx1 || cy0 >= cy1 {
        proof {
            assert forall|p: int| 0 <= p < b0.data.len() implies target.data[p] == b0.data[p] by {
                lemma_index_decomp(b0.width as int, b0.height as int, p);
            }
            assert(target.data =~= b0.data);
            assert(target =~= b0);
        }
        return ;
    }
    let mut xi: i64 = cx0;
    while xi < cx1
        invariant
            cx0 <= xi <= cx1,
            buf@ == scan_partial(
                b0,
                x_lo as int,
                x_hi as int,
                y_lo as int,
                y_hi as int,
                m,
                color,
                xi as int,
                cy0 as int,
            ),
            buf@.wf(),
            buf@.width == b0.width,
            buf@.height == b0.height,
        decreases cx1 - xi,
    {
        let mut yj: i64 = cy0;
        while yj < cy1
            invariant
                cy0 <= yj <= cy1,
                cx0 <= xi < cx1,
                buf@ == scan_partial(
                    b0,
                    x_lo as int,
                    x_hi as int,
                    y_lo as int,
                    y_hi as int,
                    m,
                    color,
                    xi as int,
                    yj as int,
                ),
                buf@.wf(),
                buf@.width == b0.width,
                buf@.height == b0.height,
            decreases cy1 - yj,
        {
            let ghost prev = buf@;
            let ghost wi = b0.width as int;
            let ghost hi = b0.height as int;
            let ghost p0 = yj * wi + xi;
            proof {
                lemma_xy_index(wi, hi, xi as int, yj as int);
            }
            if mask_test(m, xi, yj) {
                buf.put_pixel(xi as usize, yj as usize, color);
            }
            proof {
                let next = scan_partial(
                    b0,
                    x_lo as int,
                    x_hi as int,
                    y_lo as int,
                    y_hi as int,
                    m,
                    color,
                    xi as int,
                    yj + 1,
                );
                assert forall|p: int| 0 <= p < b0.data.len() implies buf@.data[p]
                    == next.data[p] by {
                    lemma_index_decomp(wi, hi, p);
                    if p == p0 {
                        assert(p % wi == xi as int && p / wi == yj as int);
                    }
                }
                assert(buf@.data =~= next.data);
                assert(buf@ =~= next);
            }
            yj = yj + 1;
        }
        proof {
            let at_col_end = scan_partial(
                b0,
                x_lo as int,
                x_hi as int,
                y_lo as int,
                y_hi as int,
                m,
                color,
                xi as int,
                cy1 as int,
            );
            let next_col = scan_partial(
                b0,
                x_lo as int,
                x_hi as int,
                y_lo as int,
                y_hi as int,
                m,
                color,
                xi + 1,
                cy0 as int,
            );
            assert forall|p: int| 0 <= p < b0.data.len() implies at_col_end.data[p]
                == next_col.data[p] by {
                lemma_index_decomp(b0.width as int, b0.height as int, p);
            }
            assert(at_col_end.data =~= next_col.data);
            assert(at_col_end =~= next_col);
        }
        xi = xi + 1;
    }
    proof {
        let done = scan_partial(
            b0,
            x_lo as int,
            x_hi as int,
            y_lo as int,
            y_hi as int,
            m,
            color,
            cx1 as int,
            cy0 as int,
        );
        assert forall|p: int| 0 <= p < b0.data.len() implies done.data[p] == target.data[p] by {
            lemma_index_decomp(b0.width as int, b0.height as int, p);
        }
        assert(done.data =~= target.data);
        assert(done =~= target);
    }
}


/// `num / den` rounded to the nearest integer, halves rounded up; meant
/// for non-negative arguments.
pub open spec fn half_round(num: int, den: int) -> int {
    (2 * num + den) / (2 * den)
}

/// Signed rounding division: the magnitude of `num / den` rounded to the
/// nearest integer, halves rounded away from zero.
pub open spec fn rdiv(num: int, den: int) -> int {
    if num >= 0 {
        half_round(num, den)
    } else {
        -half_round(-num, den)
    }
}

/// A rounded quotient stays below any bound the numerator stays below.
pub proof fn lemma_half_round_le(num: int, den: int, bound: int)
    requires
        0 < den,
        0 <= num,
        num <= den * bound,
    ensures
        0 <= half_round(num, den) <= bound,
{
    assert(2 * num + den < (2 * den) * (bound + 1)) by (nonlinear_arith)
        requires
            0 < den,
            0 <= num,
            num <= den * bound,
    ;
    lemma_multiply_divide_lt(2 * num + den, 2 * den, bound + 1);
    lemma_div_pos_is_pos(2 * num + den, 2 * den);
}

/// The magnitude of a signed rounded quotient stays below any bound the
/// numerator's magnitude stays below.
pub proof fn lemma_rdiv_le(num: int, den: int, bound: int)
    requires
        0 < den,
        iabs(num) <= den * bound,
    ensures
        iabs(rdiv(num, den)) <= bound,
{
    if num >= 0 {
        lemma_half_round_le(num, den, bound);
    } else {
        lemma_half_round_le(-num, den, bound);
    }
}

/// Position along one axis after `k` of `n` equal steps from `a0` to `a1`,
/// rounded to the nearest pixel.
pub open spec fn step_coord(a0: int, a1: int, k: int, n: int) -> int {
    if n <= 0 {
        a0
    } else if a1 >= a0 {
        a0 + half_round(k * (a1 - a0), n)
    } else {
        a0 - half_round(k * (a0 - a1), n)
    }
}

/// The number of marching steps of the segment: the larger coordinate span.
pub open spec fn seg_steps(x0: int, y0: int, x1: int, y1: int) -> int {
    imax(iabs(x1 - x0), iabs(y1 - y0))
}

/// The x coordinate of the segment's `k`-th point.
pub open spec fn seg_x(x0: int, y0: int, x1: int, y1: int, k: int) -> int {
    step_coord(x0, x1, k, seg_steps(x0, y0, x1, y1))
}

/// The y coordinate of the segment's `k`-th point.
pub open spec fn seg_y(x0: int, y0: int, x1: int, y1: int, k: int) -> int {
    step_coord(y0, y1, k, seg_steps(x0, y0, x1, y1))
}

/// Whether `(x, y)` is one of the segment's first `kmax` points.
pub open spec fn seg_hit_upto(
    x0: int,
    y0: int,
    x1: int,
    y1: int,
    kmax: int,
    x: int,
    y: int,
) -> bool {
    exists|k: int|
        0 <= k < kmax && (#[trigger] seg_x(x0, y0, x1, y1, k)) == x && seg_y(x0, y0, x1, y1, k)
            == y
}

/// Whether `(x, y)` lies on the rasterized segment.
pub open spec fn seg_hit(x0: int, y0: int, x1: int, y1: int, x: int, y: int) -> bool {
    seg_hit_upto(x0, y0, x1, y1, seg_steps(x0, y0, x1, y1) + 1, x, y)
}

/// A point among the first `kmax` is also among the first `kmax + 1`.
pub proof fn lemma_hit_upto_extend(
    x0: int,
    y0: int,
    x1: int,
    y1: int,
    kmax: int,
    x: int,
    y: int,
)
    requires
        seg_hit_upto(x0, y0, x1, y1, kmax, x, y),
    ensures
        seg_hit_upto(x0, y0, x1, y1, kmax + 1, x, y),
{
    let j = choose|j: int|
        0 <= j < kmax && (#[trigger] seg_x(x0, y0, x1, y1, j)) == x && seg_y(x0, y0, x1, y1, j)
            == y;
    assert(seg_x(x0, y0, x1, y1, j) == x);
}

/// A point among the first `kmax + 1` that is not the `kmax`-th point is
/// among the first `kmax`.
pub proof fn lemma_hit_upto_shrink(
    x0: int,
    y0: int,
    x1: int,
    y1: int,
    kmax: int,
    x: int,
    y: int,
)
    requires
        seg_hit_upto(x0, y0, x1, y1, kmax + 1, x, y),
        !(seg_x(x0, y0, x1, y1, kmax) == x && seg_y(x0, y0, x1, y1, kmax) == y),
    ensures
        seg_hit_upto(x0, y0, x1, y1, kmax, x, y),
{
    let j = choose|j: int|
        0 <= j < kmax + 1 && (#[trigger] seg_x(x0, y0, x1, y1, j)) == x && seg_y(
            x0,
            y0,
            x1,
            y1,
            j,
        ) == y;
    assert(j != kmax);
    assert(seg_x(x0, y0, x1, y1, j) == x);
}

/// `b` with `c` written to every in-bounds point of the rasterized segment.
pub open spec fn seg_painted(
    b: BufView,
    x0: int,
    y0: int,
    x1: int,
    y1: int,
    c: Rgba,
) -> BufView {
    BufView {
        width: b.width,
        height: b.height,
        data: Seq::new(
            b.data.len(),
            |p: int|
                {
                    let x = p % b.width as int;
                    let y = p / b.width as int;
                    if seg_hit(x0, y0, x1, y1, x, y) {
                        c
                    } else {
                        b.data[p]
                    }
                },
        ),
    }
}

/// The part of [`seg_painted`] finished after the first `kmax` points.
pub(crate) open spec fn seg_partial(
    b: BufView,
    x0: int,
    y0: int,
    x1: int,
    y1: int,
    kmax: int,
    c: Rgba,
) -> BufView {
    BufView {
        width: b.width,
        height: b.height,
        data: Seq::new(
            b.data.len(),
            |p: int|
                {
                    let x = p % b.width as int;
                    let y = p / b.width as int;
                    if seg_hit_upto(x0, y0, x1, y1, kmax, x, y) {
                        c
                    } else {
                        b.data[p]
                    }
                },
        ),
    }
}

/// Computes [`half_round`] on machine words.
fn half_round_u(num: u64, den: u64) -> (out: u64)
    requires
        0 < den,
        num <= 0x1000_0000_0000_0000,
        den <= 0x1000_0000_0000_0000,
    ensures
        out as int == half_round(num as int, den as int),
{
    (2 * num + den) / (2 * den)
}

/// Whether `r` is the integer square root (rounded down) of `v`.
pub open spec fn is_sqrt(v: int, r: int) -> bool {
    0 <= r && r * r <= v && v < (r + 1) * (r + 1)
}

/// The integer square root of `v`, rounded down.
pub open spec fn sqrt_floor(v: int) -> int {
    choose|r: int| is_sqrt(v, r)
}

/// A number has only one integer square root.
pub proof fn lemma_sqrt_unique(v: int, a: int, b: int)
    requires
        is_sqrt(v, a),
        is_sqrt(v, b),
    ensures
        a == b,
{
    assert(a == b) by (nonlinear_arith)
        requires
            0 <= a,
            0 <= b,
            a * a <= v,
            v < (a + 1) * (a + 1),
            b * b <= v,
            v < (b + 1) * (b + 1),
    ;
}

/// Computes the integer square root, rounded down.
#[verifier::loop_isolation(true)]
pub(crate) fn isqrt(v: u64) -> (out: u64)
    requires
        v <= 0x1000_0000_0000_0000,
    ensures
        is_sqrt(v as int, out as int),
        out as int == sqrt_floor(v as int),
{
    let mut r: u64 = 0;
    loop
        invariant_except_break
            r * r <= v,
            r <= 0x4000_0000,
            v <= 0x1000_0000_0000_0000,
        ensures
            is_sqrt(v as int, r as int),
        decreases v - r,
    {
        let nr: u64 = r + 1;
        proof {
            assert(nr * nr <= 0x4000_0001 * 0x4000_0001) by (nonlinear_arith)
                requires
                    nr <= 0x4000_0001,
            ;
        }
        if nr * nr <= v {
            r = nr;
            proof {
                assert(r <= 0x4000_0000) by (nonlinear_arith)
                    requires
                        r * r <= 0x1000_0000_0000_0000,
                        0 <= r,
                ;
                assert(r <= v) by (nonlinear_arith)
                    requires
                        r * r <= v,
                        0 <= r,
                ;
            }
        } else {
            break ;
        }
    }
    proof {
        assert(is_sqrt(v as int, r as int));
        let c = choose|rr: int| is_sqrt(v as int, rr);
        lemma_sqrt_unique(v as int, r as int, c);
    }
    r
}

/// Writes `color` to every in-bounds point of the one-pixel-wide segment
/// from `(x0, y0)` to `(x1, y1)`.
pub(crate) fn draw_segment(buf: &mut RasterBuffer, x0: i64, y0: i64, x1: i64, y1: i64, color: Rgba)
    requires
        old(buf)@.wf(),
        -COORD_LIMIT <= x0 <= COORD_LIMIT,
        -COORD_LIMIT <= y0 <= COORD_LIMIT,
        -COORD_LIMIT <= x1 <= COORD_LIMIT,
        -COORD_LIMIT <= y1 <= COORD_LIMIT,
    ensures
        final(buf)@ == seg_painted(old(buf)@, x0 as int, y0 as int, x1 as int, y1 as int, color),
        final(buf)@.wf(),
{
    let ghost b0 = buf@;
    let ghost gx0 = x0 as int;
    let ghost gy0 = y0 as int;
    let ghost gx1 = x1 as int;
    let ghost gy1 = y1 as int;
    let w: usize = buf.width();
    let h: usize = buf.height();
    let adx: i64 = if x1 >= x0 {
        x1 - x0
    } else {
        x0 - x1
    };
    let ady: i64 = if y1 >= y0 {
        y1 - y0
    } else {
        y0 - y1
    };
    let n: i64 = if adx >= ady {
        adx
    } else {
        ady
    };
    proof {
        assert(n as int == seg_steps(gx0, gy0, gx1, gy1));
    }
    let mut k: i64 = 0;
    while k <= n
        invariant
            0 <= k <= n + 1,
            buf@ == seg_partial(b0, gx0, gy0, gx1, gy1, k as int, color),
            buf@.wf(),
            buf@.width == b0.width,
            buf@.height == b0.height,
        decreases n + 1 - k,
    {
        let qx: u64;
        let qy: u64;
        if n == 0 {
            qx = 0;
            qy = 0;
        } else {
            proof {
                lemma_prod_bound(k as int, adx as int, 16777216, 16777216);
                lemma_prod_bound(k as int, ady as int, 16777216, 16777216);
            }
            qx = half_round_u((k as u64) * (adx as u64), n as u64);
            qy = half_round_u((k as u64) * (ady as u64), n as u64);
        }
        proof {
            if n > 0 {
                lemma_mul_inequality(k as int, n as int, adx as int);
                lemma_mul_is_commutative(n as int, adx as int);
                lemma_half_round_le((k as int) * (adx as int), n as int, adx as int);
                lemma_mul_inequality(k as int, n as int, ady as int);
                lemma_mul_is_commutative(n as int, ady as int);
                lemma_half_round_le((k as int) * (ady as int), n as int, ady as int);
            }
            assert(qx as int <= adx as int && qy as int <= ady as int);
        }
        let xk: i64 = if x1 >= x0 {
            x0 + (qx as i64)
        } else {
            x0 - (qx as i64)
        };
        let yk: i64 = if y1 >= y0 {
            y0 + (qy as i64)
        } else {
            y0 - (qy as i64)
        };
        proof {
            assert(seg_x(gx0, gy0, gx1, gy1, k as int) == xk as int);
            assert(seg_y(gx0, gy0, gx1, gy1, k as int) == yk as int);
        }
        let ghost prev = buf@;
        let ghost wi = b0.width as int;
        let ghost hi = b0.height as int;
        let inside = 0 <= xk && xk < w as i64 && 0 <= yk && yk < h as i64;
        if inside {
            buf.put_pixel(xk as usize, yk as usize, color);
        }
        proof {
            let next = seg_partial(b0, gx0, gy0, gx1, gy1, k + 1, color);
            if inside {
                lemma_xy_index(wi, hi, xk as int, yk as int);
                let p0 = (yk as int) * wi + (xk as int);
                assert forall|p: int| 0 <= p < b0.data.len() implies buf@.data[p]
                    == next.data[p] by {
                    lemma_index_decomp(wi, hi, p);
                    let px = p % wi;
                    let py = p / wi;
                    if p == p0 {
                        assert(seg_hit_upto(gx0, gy0, gx1, gy1, k + 1, px, py));
                    } else {
                        if seg_hit_upto(gx0, gy0, gx1, gy1, k + 1, px, py) {
                            lemma_hit_upto_shrink(gx0, gy0, gx1, gy1, k as int, px, py);
                        }
                        if seg_hit_upto(gx0, gy0, gx1, gy1, k as int, px, py) {
                            lemma_hit_upto_extend(gx0, gy0, gx1, gy1, k as int, px, py);
                        }
                    }
                }
                assert(buf@.data =~= next.data);
                assert(buf@ =~= next);
            } else {
                assert forall|p: int| 0 <= p < b0.data.len() implies buf@.data[p]
                    == next.data[p] by {
                    lemma_index_decomp(wi, hi, p);
                    let px = p % wi;
                    let py = p / wi;
                    if seg_hit_upto(gx0, gy0, gx1, gy1, k + 1, px, py) {
                        lemma_hit_upto_shrink(gx0, gy0, gx1, gy1, k as int, px, py);
                    }
                    if seg_hit_upto(gx0, gy0, gx1, gy1, k as int, px, py) {
                        lemma_hit_upto_extend(gx0, gy0, gx1, gy1, k as int, px, py);
                    }
                }
                assert(buf@.data =~= next.data);
                assert(buf@ =~= next);
            }
        }
        k = k + 1;
    }
    proof {
        let target = seg_painted(b0, gx0, gy0, gx1, gy1, color);
        assert forall|p: int| 0 <= p < b0.data.len() implies buf@.data[p] == target.data[p] by {
            lemma_index_decomp(b0.width as int, b0.height as int, p);
        }
        assert(buf@.data =~= target.data);
        assert(buf@ =~= target);
    }
}


/// Computes [`rdiv`] on machine words.
pub(crate) fn rdiv_exec(num: i64, den: i64) -> (out: i64)
    requires
        0 < den <= 0x1000_0000_0000_0000,
        -0x1000_0000_0000_0000 <= num <= 0x1000_0000_0000_0000,
    ensures
        out as int == rdiv(num as int, den as int),
{
    if num >= 0 {
        proof {
            assert(num <= den * (num as int + 1)) by (nonlinear_arith)
                requires
                    0 < den,
                    0 <= num,
            ;
            lemma_half_round_le(num as int, den as int, num as int + 1);
        }
        let q: u64 = half_round_u(num as u64, den as u64);
        q as i64
    } else {
        let m: i64 = -num;
        proof {
            assert(m <= den * (m as int + 1)) by (nonlinear_arith)
                requires
                    0 < den,
                    0 <= m,
            ;
            lemma_half_round_le(m as int, den as int, m as int + 1);
        }
        let q: u64 = half_round_u(m as u64, den as u64);
        -(q as i64)
    }
}

/// Half the stripe count of a brush stroke of the given size.
pub open spec fn line_half(size: int) -> int {
    (5 * size + 2) / 2
}

/// The squared length of the stroke's direction vector.
pub open spec fn line_len2(x0: int, y0: int, x1: int, y1: int) -> int {
    (x1 - x0) * (x1 - x0) + (y1 - y0) * (y1 - y0)
}

/// The x offset of the stroke's `i`-th stripe: the perpendicular unit
/// vector `(dy, -dx) / len` scaled by `(i - size) / 10` and rounded.
pub open spec fn stripe_ox(x0: int, y0: int, x1: int, y1: int, size: int, i: int) -> int {
    rdiv((y1 - y0) * (i - size), 10 * sqrt_floor(line_len2(x0, y0, x1, y1)))
}

/// The y offset of the stroke's `i`-th stripe.
pub open spec fn stripe_oy(x0: int, y0: int, x1: int, y1: int, size: int, i: int) -> int {
    rdiv((x0 - x1) * (i - size), 10 * sqrt_floor(line_len2(x0, y0, x1, y1)))
}

/// `b` after the stripes from index `i` up have been painted.
pub open spec fn line_from(
    b: BufView,
    x0: int,
    y0: int,
    x1: int,
    y1: int,
    size: int,
    c: Rgba,
    i: int,
) -> BufView
    decreases line_half(size) - i,
{
    if i >= line_half(size) {
        b
    } else {
        line_from(
            seg_painted(
                b,
                x0 + stripe_ox(x0, y0, x1, y1, size, i),
                y0 + stripe_oy(x0, y0, x1, y1, size, i),
                x1 + stripe_ox(x0, y0, x1, y1, size, i),
                y1 + stripe_oy(x0, y0, x1, y1, size, i),
                c,
            ),
            x0,
            y0,
            x1,
            y1,
            size,
            c,
            i + 1,
        )
    }
}

/// `b` with the full brush stroke painted: one rasterized segment per
/// stripe index in `[-line_half(size), line_half(size))`, each shifted
/// along the stroke's perpendicular.  A zero-length stroke paints nothing.
pub open spec fn line_painted(
    b: BufView,
    x0: int,
    y0: int,
    x1: int,
    y1: int,
    size: int,
    c: Rgba,
) -> BufView {
    if x0 == x1 && y0 == y1 {
        b
    } else {
        line_from(b, x0, y0, x1, y1, size, c, -line_half(size))
    }
}

/// Painting stripes never changes the buffer's dimensions.
pub proof fn lemma_line_from_dims(
    b: BufView,
    x0: int,
    y0: int,
    x1: int,
    y1: int,
    size: int,
    c: Rgba,
    i: int,
)
    ensures
        line_from(b, x0, y0, x1, y1, size, c, i).width == b.width,
        line_from(b, x0, y0, x1, y1, size, c, i).height == b.height,
        line_from(b, x0, y0, x1, y1, size, c, i).data.len() == b.data.len(),
    decreases imax(line_half(size) - i, 0),
{
    if i < line_half(size) {
        lemma_line_from_dims(
            seg_painted(
                b,
                x0 + stripe_ox(x0, y0, x1, y1, size, i),
                y0 + stripe_oy(x0, y0, x1, y1, size, i),
                x1 + stripe_ox(x0, y0, x1, y1, size, i),
                y1 + stripe_oy(x0, y0, x1, y1, size, i),
                c,
            ),
            x0,
            y0,
            x1,
            y1,
            size,
            c,
            i + 1,
        );
    }
}

/// A painted stroke never changes the buffer's dimensions.
pub proof fn lemma_line_painted_dims(
    b: BufView,
    x0: int,
    y0: int,
    x1: int,
    y1: int,
    size: int,
    c: Rgba,
)
    ensures
        line_painted(b, x0, y0, x1, y1, size, c).width == b.width,
        line_painted(b, x0, y0, x1, y1, size, c).height == b.height,
        line_painted(b, x0, y0, x1, y1, size, c).data.len() == b.data.len(),
{
    lemma_line_from_dims(b, x0, y0, x1, y1, size, c, -line_half(size));
}

/// No coordinate span exceeds the vector's length.
pub proof fn lemma_span_le_sqrt(dx: int, dy: int, len: int)
    requires
        is_sqrt(dx * dx + dy * dy, len),
    ensures
        iabs(dx) <= len,
        iabs(dy) <= len,
{
    assert(iabs(dx) <= len && iabs(dy) <= len) by (nonlinear_arith)
        requires
            0 <= len,
            len * len <= dx * dx + dy * dy,
            dx * dx + dy * dy < (len + 1) * (len + 1),
    ;
}

/// Draws the brush stroke from `(x0, y0)` to `(x1, y1)`: a stack of
/// parallel one-pixel segments offset along the stroke's perpendicular.
pub(crate) fn draw_stripes(
    buf: &mut RasterBuffer,
    x0: i64,
    y0: i64,
    x1: i64,
    y1: i64,
    size: i64,
    color: Rgba,
)
    requires
        old(buf)@.wf(),
        -POS_LIMIT <= x0 <= POS_LIMIT,
        -POS_LIMIT <= y0 <= POS_LIMIT,
        -POS_LIMIT <= x1 <= POS_LIMIT,
        -POS_LIMIT <= y1 <= POS_LIMIT,
        0 <= size <= SIZE_LIMIT,
    ensures
        final(buf)@ == line_painted(
            old(buf)@,
            x0 as int,
            y0 as int,
            x1 as int,
            y1 as int,
            size as int,
            color,
        ),
        final(buf)@.wf(),
{
    let ghost b0 = buf@;
    let ghost gx0 = x0 as int;
    let ghost gy0 = y0 as int;
    let ghost gx1 = x1 as int;
    let ghost gy1 = y1 as int;
    let ghost gsize = size as int;
    if x0 == x1 && y0 == y1 {
        return ;
    }
    let dx: i64 = x1 - x0;
    let dy: i64 = y1 - y0;
    proof {
        lemma_prod_bound(dx as int, dx as int, 2097152, 2097152);
        lemma_prod_bound(dy as int, dy as int, 2097152, 2097152);
        assert(dx * dx + dy * dy >= 1) by (nonlinear_arith)
            requires
                dx != 0 || dy != 0,
        ;
    }
    let v: u64 = (dx * dx + dy * dy) as u64;
    let len: u64 = isqrt(v);
    proof {
        assert(v as int == line_len2(gx0, gy0, gx1, gy1));
        assert(len >= 1) by (nonlinear_arith)
            requires
                len as int * len as int <= v as int,
                (v as int) < (len as int + 1) * (len as int + 1),
                v >= 1,
                0 <= len,
        ;
        assert(len as int * len as int <= 0x4000_0000_0000) by (nonlinear_arith)
            requires
                is_sqrt(v as int, len as int),
                v <= 0x4000_0000_0000,
        ;
        assert(len <= 0x200_0000) by (nonlinear_arith)
            requires
                len as int * len as int <= 0x4000_0000_0000,
                0 <= len,
        ;
        lemma_span_le_sqrt(dx as int, dy as int, len as int);
    }
    let den: i64 = 10 * (len as i64);
    let half_t: i64 = ((5 * (size as u64) + 2) / 2) as i64;
    proof {
        assert(half_t as int == line_half(gsize));
    }
    let mut i: i64 = -half_t;
    while i < half_t
        invariant
            -half_t <= i <= half_t,
            line_from(b0, gx0, gy0, gx1, gy1, gsize, color, -half_t as int) == line_from(
                buf@,
                gx0,
                gy0,
                gx1,
                gy1,
                gsize,
                color,
                i as int,
            ),
            buf@.wf(),
            buf@.width == b0.width,
            buf@.height == b0.height,
        decreases half_t - i,
    {
        proof {
            lemma_prod_bound(dy as int, i - size, 0x200_0000, 4096);
            lemma_prod_bound((x0 - x1) as int, i - size, 0x200_0000, 4096);
        }
        let num_x: i64 = dy * (i - size);
        let num_y: i64 = (x0 - x1) * (i - size);
        let ox: i64 = rdiv_exec(num_x, den);
        let oy: i64 = rdiv_exec(num_y, den);
        proof {
            assert(iabs(num_x as int) <= den * iabs(i - size)) by (nonlinear_arith)
                requires
                    num_x == dy * (i - size),
                    iabs(dy as int) <= len,
                    den == 10 * len,
                    len >= 1,
            ;
            assert(iabs(num_y as int) <= den * iabs(i - size)) by (nonlinear_arith)
                requires
                    num_y == (x0 - x1) * (i - size),
                    iabs((x0 - x1) as int) <= len,
                    den == 10 * len,
                    len >= 1,
            ;
            lemma_rdiv_le(num_x as int, den as int, iabs(i - size));
            lemma_rdiv_le(num_y as int, den as int, iabs(i - size));
            assert(ox as int == stripe_ox(gx0, gy0, gx1, gy1, gsize, i as int));
            assert(oy as int == stripe_oy(gx0, gy0, gx1, gy1, gsize, i as int));
        }
        let ghost prev = buf@;
        draw_segment(buf, x0 + ox, y0 + oy, x1 + ox, y1 + oy, color);
        proof {
            assert(line_from(prev, gx0, gy0, gx1, gy1, gsize, color, i as int) == line_from(
                buf@,
                gx0,
                gy0,
                gx1,
                gy1,
                gsize,
                color,
                i + 1,
            ));
        }
        i = i + 1;
    }
}

/// `working` with every pixel of the erase disc restored from `committed`:
/// the disc is centred at `(x, y)` with radius `r`, takes effect only when
/// the centre is strictly inside `working`, and restores only pixels that
/// both buffers contain.
pub open spec fn erase_applied(
    working: BufView,
    committed: BufView,
    x: int,
    y: int,
    r: int,
) -> BufView {
    if 0 < x < working.width && 0 < y < working.height {
        BufView {
            width: working.width,
            height: working.height,
            data: Seq::new(
                working.data.len(),
                |p: int|
                    {
                        let px = p % working.width as int;
                        let py = p / working.width as int;
                        if x - r <= px < x + r && y - r <= py < y + r && (px - x) * (px - x) + (py
                            - y) * (py - y) <= r * r && committed.contains(px, py) {
                            committed.pix(px, py)
                        } else {
                            working.data[p]
                        }
                    },
            ),
        }
    } else {
        working
    }
}

/// The part of [`erase_applied`] finished when the column scan stands at
/// `(xi, yj)`.
pub(crate) open spec fn erase_partial(
    working: BufView,
    committed: BufView,
    x: int,
    y: int,
    r: int,
    xi: int,
    yj: int,
) -> BufView {
    BufView {
        width: working.width,
        height: working.height,
        data: Seq::new(
            working.data.len(),
            |p: int|
                {
                    let px = p % working.width as int;
                    let py = p / working.width as int;
                    if x - r <= px < x + r && y - r <= py < y + r && (px - x) * (px - x) + (py - y)
                        * (py - y) <= r * r && committed.contains(px, py) && (px < xi || (px == xi
                        && py < yj)) {
                        committed.pix(px, py)
                    } else {
                        working.data[p]
                    }
                },
        ),
    }
}

/// Restores the pixels of the erase disc in `dst` from `src`.
pub(crate) fn erase_disc(dst: &mut RasterBuffer, src: &RasterBuffer, x: i64, y: i64, r: i64)
    requires
        old(dst)@.wf(),
        src@.wf(),
        -POS_LIMIT <= x <= POS_LIMIT,
        -POS_LIMIT <= y <= POS_LIMIT,
        -POS_LIMIT <= r <= POS_LIMIT,
    ensures
        final(dst)@ == erase_applied(old(dst)@, src@, x as int, y as int, r as int),
        final(dst)@.wf(),
{
    let ghost d0 = dst@;
    let w: usize = dst.width();
    let h: usize = dst.height();
    let sw: usize = src.width();
    let sh: usize = src.height();
    if !(x > 0 && x < w as i64 && y > 0 && y < h as i64) {
        return ;
    }
    let ghost target = erase_applied(d0, src@, x as int, y as int, r as int);
    let cx0: i64 = if x - r > 0 {
        x - r
    } else {
        0
    };
    let cx1: i64 = if x + r < w as i64 {
        x + r
    } else {
        w as i64
    };
    let cy0: i64 = if y - r > 0 {
        y - r
    } else {
        0
    };
    let cy1: i64 = if y + r < h as i64 {
        y + r
    } else {
        h as i64
    };
    if cx0 >= cx1 || cy0 >= cy1 {
        proof {
            assert forall|p: int| 0 <= p < d0.data.len() implies target.data[p] == d0.data[p] by {
                lemma_mul_is_commutative(d0.width as int, d0.height as int);
                lemma_index_decomp(d0.width as int, d0.height as int, p);
            }
            assert(target.data =~= d0.data);
            assert(target =~= d0);
        }
        return ;
    }
    let mut xi: i64 = cx0;
    while xi < cx1
        invariant
            cx0 <= xi <= cx1,
            dst@ == erase_partial(d0, src@, x as int, y as int, r as int, xi as int, cy0 as int),
            dst@.wf(),
            dst@.width == d0.width,
            dst@.height == d0.height,
        decreases cx1 - xi,
    {
        let mut yj: i64 = cy0;
        while yj < cy1
            invariant
                cy0 <= yj <= cy1,
                cx0 <= xi < cx1,
                dst@ == erase_partial(
                    d0,
                    src@,
                    x as int,
                    y as int,
                    r as int,
                    xi as int,
                    yj as int,
                ),
                dst@.wf(),
                dst@.width == d0.width,
                dst@.height == d0.height,
            decreases cy1 - yj,
        {
            let ghost prev = dst@;
            let ghost wi = d0.width as int;
            let ghost hi = d0.height as int;
            let ghost p0 = yj * wi + xi;
            proof {
                lemma_xy_index(wi, hi, xi as int, yj as int);
                lemma_prod_bound((xi - x) as int, (xi - x) as int, 2097152, 2097152);
                lemma_prod_bound((yj - y) as int, (yj - y) as int, 2097152, 2097152);
                lemma_prod_bound(r as int, r as int, 2097152, 2097152);
            }
            if (xi - x) * (xi - x) + (yj - y) * (yj - y) <= r * r && xi < sw as i64 && yj
                < sh as i64 {
                let restored = src.get_pixel(xi as usize, yj as usize);
                dst.put_pixel(xi as usize, yj as usize, restored);
            }
            proof {
                let next = erase_partial(d0, src@, x as int, y as int, r as int, xi as int, yj + 1);
                assert forall|p: int| 0 <= p < d0.data.len() implies dst@.data[p]
                    == next.data[p] by {
                    lemma_mul_is_commutative(wi, hi);
                    lemma_index_decomp(wi, hi, p);
                    if p == p0 {
                        assert(p % wi == xi as int && p / wi == yj as int);
                    }
                }
                assert(dst@.data =~= next.data);
                assert(dst@ =~= next);
            }
            yj = yj + 1;
        }
        proof {
            let at_col_end = erase_partial(
                d0,
                src@,
                x as int,
                y as int,
                r as int,
                xi as int,
                cy1 as int,
            );
            let next_col = erase_partial(
                d0,
                src@,
                x as int,
                y as int,
                r as int,
                xi + 1,
                cy0 as int,
            );
            assert forall|p: int| 0 <= p < d0.data.len() implies at_col_end.data[p]
                == next_col.data[p] by {
                lemma_mul_is_commutative(d0.width as int, d0.height as int);
                lemma_index_decomp(d0.width as int, d0.height as int, p);
            }
            assert(at_col_end.data =~= next_col.data);
            assert(at_col_end =~= next_col);
        }
        xi = xi + 1;
    }
    proof {
        let done = erase_partial(d0, src@, x as int, y as int, r as int, cx1 as int, cy0 as int);
        assert forall|p: int| 0 <= p < d0.data.len() implies done.data[p] == target.data[p] by {
            lemma_mul_is_commutative(d0.width as int, d0.height as int);
            lemma_index_decomp(d0.width as int, d0.height as int, p);
        }
        assert(done.data =~= target.data);
        assert(done =~= target);
    }
}

} // verus!
