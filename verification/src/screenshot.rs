//! The three-buffer canvas at the heart of the engine, and the pixel-level
//! drawing tools that edit it.
//!
//! `committed` holds the pristine capture, `checkpoint` the last committed
//! edit state, and `working` the buffer that is displayed and edited.
//! Destructive tools accumulate onto `working`; preview tools first reset
//! `working` from `checkpoint` so a drag never compounds.

use vstd::prelude::*;

use crate::buffer::{
    blend_view, crop_view, min_int, rgba_bytes_view, rotate_ccw_view, rotate_cw_view, BufView,
    RasterBuffer, MAX_DIM,
};
use crate::color::{blend_spec, rgba_of, Rgba};
use crate::error::ScreenShotError;
use crate::raster::{
    draw_segment, draw_stripes, erase_applied, erase_disc, iabs, isqrt,
    lemma_line_painted_dims, lemma_prod_bound, lemma_rdiv_le, line_painted, rdiv, rdiv_exec,
    scan_paint, scan_painted, seg_painted, sqrt_floor, Mask, POS_LIMIT, SIZE_LIMIT,
};

verus! {

/// Mathematical view of the canvas: its three pixel buffers.
#[verifier::ext_equal]
pub ghost struct CanvasView {
    pub committed: BufView,
    pub checkpoint: BufView,
    pub working: BufView,
}

impl CanvasView {
    /// All three buffers are well-formed.  The dimensions of `checkpoint`
    /// may lag behind the other two between a crop or rotate and the next
    /// commit: callers are expected to commit right after those calls.
    pub open spec fn wf(self) -> bool {
        self.committed.wf() && self.checkpoint.wf() && self.working.wf()
    }
}

/// `checkpoint` becomes a copy of `working`.
pub open spec fn commit_spec(v: CanvasView) -> CanvasView {
    CanvasView { checkpoint: v.working, ..v }
}

/// `working` becomes a copy of `checkpoint`.
pub open spec fn rollback_spec(v: CanvasView) -> CanvasView {
    CanvasView { working: v.checkpoint, ..v }
}

/// Whether the crop region is negative or exceeds the working buffer.
pub open spec fn crop_invalid(v: CanvasView, x: int, y: int, height: int, width: int) -> bool {
    height < 0 || width < 0 || v.working.width < x + width || v.working.height < y + height
}

/// `working` and `committed` cropped to the region; `checkpoint` untouched.
pub open spec fn crop_spec(v: CanvasView, x: int, y: int, width: int, height: int) -> CanvasView {
    CanvasView {
        working: crop_view(v.working, x, y, width, height),
        committed: crop_view(v.committed, x, y, width, height),
        checkpoint: v.checkpoint,
    }
}

/// `working` and `committed` rotated a quarter turn clockwise;
/// `checkpoint` untouched.
pub open spec fn rotate_left_spec(v: CanvasView) -> CanvasView {
    CanvasView {
        working: rotate_cw_view(v.working),
        committed: rotate_cw_view(v.committed),
        checkpoint: v.checkpoint,
    }
}

/// `working` and `committed` rotated a quarter turn counterclockwise;
/// `checkpoint` untouched.
pub open spec fn rotate_right_spec(v: CanvasView) -> CanvasView {
    CanvasView {
        working: rotate_ccw_view(v.working),
        committed: rotate_ccw_view(v.committed),
        checkpoint: v.checkpoint,
    }
}

/// The captured image with its annotation state.
pub struct Screenshot {
    working: RasterBuffer,
    committed: RasterBuffer,
    checkpoint: RasterBuffer,
}

impl View for Screenshot {
    type V = CanvasView;

    closed spec fn view(&self) -> CanvasView {
        CanvasView { committed: self.committed@, checkpoint: self.checkpoint@, working: self.working@ }
    }
}

impl Screenshot {
    /// A canvas with three empty buffers.
    pub fn new_empty() -> (out: Screenshot)
        ensures
            out@.wf(),
            out@.working.width == 0,
            out@.working.height == 0,
            out@.committed == out@.working,
            out@.checkpoint == out@.working,
    {
        let out = Screenshot {
            working: RasterBuffer::new_filled(0, 0, Rgba { r: 0, g: 0, b: 0, a: 0 }),
            committed: RasterBuffer::new_filled(0, 0, Rgba { r: 0, g: 0, b: 0, a: 0 }),
            checkpoint: RasterBuffer::new_filled(0, 0, Rgba { r: 0, g: 0, b: 0, a: 0 }),
        };
        proof {
            assert(out@.committed.data =~= out@.working.data);
            assert(out@.checkpoint.data =~= out@.working.data);
            assert(out@.committed =~= out@.working);
            assert(out@.checkpoint =~= out@.working);
        }
        out
    }

    /// Captures a canvas from a raw RGBA byte stream.  All three buffers
    /// start as independent copies of the captured pixels.  Fails when the
    /// dimensions are out of range or the stream does not hold exactly
    /// `width * height` four-byte pixels.
    pub fn new(width: usize, height: usize, rgba: &Vec<u8>) -> (out: Result<
        Screenshot,
        ScreenShotError,
    >)
        ensures
            out is Ok <==> (width <= MAX_DIM && height <= MAX_DIM && rgba@.len() == width * height
                * 4),
            out is Err ==> out->Err_0 == ScreenShotError::Capture,
            out is Ok ==> {
                let v = out->Ok_0@;
                &&& v.wf()
                &&& v.working.width == width
                &&& v.working.height == height
                &&& rgba_bytes_view(v.working) == rgba@
                &&& v.committed == v.working
                &&& v.checkpoint == v.working
            },
    {
        if width > MAX_DIM || height > MAX_DIM {
            return Err(ScreenShotError::Capture);
        }
        match RasterBuffer::from_rgba_bytes(width, height, rgba) {
            None => Err(ScreenShotError::Capture),
            Some(working) => {
                let committed = working.duplicate();
                let checkpoint = working.duplicate();
                Ok(Screenshot { working, committed, checkpoint })
            },
        }
    }

    /// A copy of the working buffer, for display conversion or export.
    pub fn get_image(&self) -> (out: RasterBuffer)
        ensures
            out@ == self@.working,
    {
        self.working.duplicate()
    }

    /// The working buffer's width in pixels.
    pub fn get_width(&self) -> (out: usize)
        ensures
            out == self@.working.width,
    {
        self.working.width()
    }

    /// The working buffer's height in pixels.
    pub fn get_height(&self) -> (out: usize)
        ensures
            out == self@.working.height,
    {
        self.working.height()
    }

    /// Commits the current edit state: the checkpoint becomes a copy of
    /// the working buffer.
    pub fn save_intermediate_image(&mut self)
        ensures
            final(self)@ == commit_spec(old(self)@),
    {
        self.checkpoint = self.working.duplicate();
    }

    /// Discards the in-progress edit: the working buffer becomes a copy of
    /// the checkpoint.  Idempotent.
    pub fn rollback_changes(&mut self)
        ensures
            final(self)@ == rollback_spec(old(self)@),
    {
        self.working = self.checkpoint.duplicate();
    }

    /// Crops the working and committed buffers to the region with origin
    /// `(x, y)` and the given height and width.  Fails with
    /// `InvalidRegion`, leaving every buffer unchanged, when a dimension is
    /// negative or the region exceeds the working buffer's bounds.  The
    /// checkpoint keeps its prior dimensions until the next commit, so
    /// callers should commit right after a successful crop.
    pub fn resize_image(&mut self, x: u32, y: u32, height: i32, width: i32) -> (out: Result<
        (),
        ScreenShotError,
    >)
        requires
            old(self)@.wf(),
        ensures
            final(self)@.wf(),
            out is Err <==> crop_invalid(old(self)@, x as int, y as int, height as int, width as int),
            out is Err ==> out->Err_0 == ScreenShotError::InvalidRegion && final(self)@ == old(self)@,
            out is Ok ==> final(self)@ == crop_spec(
                old(self)@,
                x as int,
                y as int,
                width as int,
                height as int,
            ),
    {
        let w64: u64 = self.working.width() as u64;
        let h64: u64 = self.working.height() as u64;
        if height < 0 || width < 0 || w64 < x as u64 + width as u64 || h64 < y as u64
            + height as u64 {
            return Err(ScreenShotError::InvalidRegion);
        }
        self.working = self.working.crop_clamped(x as usize, y as usize, width as usize, height as usize);
        self.committed = self.committed.crop_clamped(
            x as usize,
            y as usize,
            width as usize,
            height as usize,
        );
        Ok(())
    }

    /// Rotates the working and committed buffers a quarter turn clockwise.
    /// The checkpoint is not rotated: callers should commit right after.
    pub fn rotate_sx_90(&mut self)
        requires
            old(self)@.wf(),
        ensures
            final(self)@ == rotate_left_spec(old(self)@),
            final(self)@.wf(),
    {
        self.working = self.working.rotate_cw();
        self.committed = self.committed.rotate_cw();
    }

    /// Rotates the working and committed buffers a quarter turn
    /// counterclockwise.  The checkpoint is not rotated.
    pub fn rotate_dx_90(&mut self)
        requires
            old(self)@.wf(),
        ensures
            final(self)@ == rotate_right_spec(old(self)@),
            final(self)@.wf(),
    {
        self.working = self.working.rotate_ccw();
        self.committed = self.committed.rotate_ccw();
    }

    /// Alpha blend of `foreground` over `background`: the blended RGB
    /// channels keep the background's own alpha.
    pub fn blend_colors(background: Rgba, foreground: Rgba) -> (out: Rgba)
        ensures
            out == blend_spec(background, foreground),
    {
        crate::color::blend_rgba(background, foreground)
    }
}


/// The fully transparent pixel.
pub open spec fn clear_pixel() -> Rgba {
    Rgba { r: 0, g: 0, b: 0, a: 0 }
}

/// The translucent highlight ink: the given RGB at alpha 64 of 255.
pub open spec fn highlight_ink(c: [u8; 3]) -> Rgba {
    Rgba { r: c[0], g: c[1], b: c[2], a: 64 }
}

/// The point stamp: the loose disc around `(x, y)` is painted, but only
/// when the centre lies strictly inside the buffer.
pub open spec fn point_stamp(b: BufView, x: i64, y: i64, r: i64, c: Rgba) -> BufView {
    if 0 < x < b.width && 0 < y < b.height {
        scan_painted(b, x - r, x + r + 1, y - r, y + r + 1, Mask::Disc { cx: x, cy: y, r }, c)
    } else {
        b
    }
}

/// [`point_stamp`] applied to the working buffer.
pub open spec fn draw_point_spec(v: CanvasView, x: i64, y: i64, r: i64, color: [u8; 4]) -> CanvasView {
    CanvasView { working: point_stamp(v.working, x, y, r, rgba_of(color)), ..v }
}

/// The brush stroke painted onto the working buffer.
pub open spec fn draw_line_spec(
    v: CanvasView,
    sp: (i64, i64),
    ep: (i64, i64),
    color: [u8; 4],
    size: i64,
) -> CanvasView {
    CanvasView {
        working: line_painted(
            v.working,
            sp.0 as int,
            sp.1 as int,
            ep.0 as int,
            ep.1 as int,
            size as int,
            rgba_of(color),
        ),
        ..v
    }
}

/// A `w` by `h` buffer of fully transparent pixels.
pub open spec fn transparent_buf(w: nat, h: nat) -> BufView {
    BufView { width: w, height: h, data: Seq::new(w * h, |p: int| clear_pixel()) }
}

/// The highlight overlay after the offset copies from index `i` up have
/// been stamped: each copy is the base segment shifted up by `i` rows.
pub open spec fn hl_overlay_from(
    ov: BufView,
    sx: int,
    sy: int,
    ex: int,
    ey: int,
    ink: Rgba,
    size: int,
    i: int,
) -> BufView
    decreases size - i + 1,
{
    if i > size {
        ov
    } else {
        hl_overlay_from(seg_painted(ov, sx, sy - i, ex, ey - i, ink), sx, sy, ex, ey, ink, size, i + 1)
    }
}

/// The full highlight overlay: the base segment plus `size` copies offset
/// by one row each, stamped with the translucent ink onto a transparent
/// buffer of the given dimensions.
pub open spec fn hl_overlay(
    w: nat,
    h: nat,
    sx: int,
    sy: int,
    ex: int,
    ey: int,
    ink: Rgba,
    size: int,
) -> BufView {
    hl_overlay_from(
        seg_painted(transparent_buf(w, h), sx, sy, ex, ey, ink),
        sx,
        sy,
        ex,
        ey,
        ink,
        size,
        1,
    )
}

/// The highlight overlay alpha-blended onto the working buffer.
pub open spec fn highlight_spec(
    v: CanvasView,
    sp: (i64, i64),
    ep: (i64, i64),
    size: i64,
    color: [u8; 3],
) -> CanvasView {
    CanvasView {
        working: blend_view(
            v.working,
            hl_overlay(
                v.working.width,
                v.working.height,
                sp.0 as int,
                sp.1 as int,
                ep.0 as int,
                ep.1 as int,
                highlight_ink(color),
                size as int,
            ),
        ),
        ..v
    }
}

/// The erase disc applied to the working buffer, restoring pixels from
/// the committed (original) capture.
pub open spec fn erase_spec(v: CanvasView, x: i64, y: i64, r: i64) -> CanvasView {
    CanvasView { working: erase_applied(v.working, v.committed, x as int, y as int, r as int), ..v }
}

/// The vertical corner offset of the `d`-th concentric rectangle: the
/// sign matches `d` when the drag is diagonally concordant and flips
/// otherwise.
pub open spec fn ring_delta_y(sx: int, sy: int, ex: int, ey: int, d: int) -> int {
    if ((sx > ex) != (sy > ey)) {
        -d
    } else {
        d
    }
}

/// Whether the `d`-th concentric rectangle is drawn: its first corner must
/// lie strictly inside the buffer and its extents must be non-zero.
pub open spec fn ring_valid(w: int, h: int, sx: int, sy: int, ex: int, ey: int, d: int) -> bool {
    let dy = ring_delta_y(sx, sy, ex, ey, d);
    let nsx = sx - d;
    let nsy = sy - dy;
    let nex = ex + d;
    let ney = ey + dy;
    nsx > 0 && nsx < w && nsy > 0 && nsy < h && nex != nsx && ney != nsy
}

/// The one-pixel hollow rectangle border with origin `(x0, y0)` and size
/// `bw` by `bh`: its top and bottom rows and its left and right columns.
pub open spec fn border_painted(b: BufView, x0: int, y0: int, bw: int, bh: int, c: Rgba) -> BufView {
    scan_painted(
        scan_painted(
            scan_painted(
                scan_painted(b, x0, x0 + bw, y0, y0 + 1, Mask::Full, c),
                x0,
                x0 + bw,
                y0 + bh - 1,
                y0 + bh,
                Mask::Full,
                c,
            ),
            x0,
            x0 + 1,
            y0,
            y0 + bh,
            Mask::Full,
            c,
        ),
        x0 + bw - 1,
        x0 + bw,
        y0,
        y0 + bh,
        Mask::Full,
        c,
    )
}

/// The `d`-th concentric rectangle painted, when it is valid.  The
/// bounds test uses the dimensions the working buffer had before the
/// preview reset, as the tool samples them up front.
pub open spec fn ring_applied(
    b: BufView,
    condw: int,
    condh: int,
    sx: int,
    sy: int,
    ex: int,
    ey: int,
    d: int,
    c: Rgba,
) -> BufView {
    if ring_valid(condw, condh, sx, sy, ex, ey, d) {
        let dy = ring_delta_y(sx, sy, ex, ey, d);
        let nsx = sx - d;
        let nsy = sy - dy;
        let nex = ex + d;
        let ney = ey + dy;
        border_painted(
            b,
            min_int(nsx, nex),
            min_int(nsy, ney),
            iabs(nex - nsx),
            iabs(ney - nsy),
            c,
        )
    } else {
        b
    }
}

/// `b` after the concentric rectangles from offset `d` up have been drawn.
pub open spec fn rect_rings_from(
    b: BufView,
    condw: int,
    condh: int,
    sx: int,
    sy: int,
    ex: int,
    ey: int,
    half: int,
    c: Rgba,
    d: int,
) -> BufView
    decreases half - d + 1,
{
    if d > half {
        b
    } else {
        rect_rings_from(
            ring_applied(b, condw, condh, sx, sy, ex, ey, d, c),
            condw,
            condh,
            sx,
            sy,
            ex,
            ey,
            half,
            c,
            d + 1,
        )
    }
}

/// The rectangle preview: the working buffer is reset from the checkpoint
/// and the concentric hollow rectangles are drawn onto it.
pub open spec fn rectangle_spec(
    v: CanvasView,
    sp: (i64, i64),
    ep: (i64, i64),
    size: i64,
    color: [u8; 4],
) -> CanvasView {
    let half = size as int / 2;
    CanvasView {
        working: rect_rings_from(
            v.checkpoint,
            v.working.width as int,
            v.working.height as int,
            sp.0 as int,
            sp.1 as int,
            ep.0 as int,
            ep.1 as int,
            half,
            rgba_of(color),
            -half,
        ),
        ..v
    }
}

/// The centre test of the circle tool: lexicographically above `(0, 0)`
/// and below the shrunken corner `(condw, condh)`.
pub open spec fn circle_cond(cx: int, cy: int, condw: int, condh: int) -> bool {
    (cx > 0 || (cx == 0 && cy > 0)) && (cx < condw || (cx == condw && cy < condh))
}

/// The ring mask of radius `radius` around `(cx, cy)`.
pub open spec fn ring_mask(cx: int, cy: int, radius: int) -> Mask {
    Mask::Ring { cx: cx as i64, cy: cy as i64, radius: radius as i64 }
}

/// One pass of the circle tool: the concentric circle outlines with radius
/// offsets `dr` up to `half`, each drawn only when the centre test holds.
pub open spec fn circle_pass(
    b: BufView,
    cx: int,
    cy: int,
    radius: int,
    half: int,
    condw: int,
    condh: int,
    c: Rgba,
    dr: int,
) -> BufView
    decreases half - dr + 1,
{
    if dr > half {
        b
    } else {
        let r = radius + dr;
        let b2 = if circle_cond(cx, cy, condw, condh) {
            scan_painted(b, cx - r, cx + r + 1, cy - r, cy + r + 1, ring_mask(cx, cy, r), c)
        } else {
            b
        };
        circle_pass(b2, cx, cy, radius, half, condw, condh, c, dr + 1)
    }
}

/// The circle preview: the working buffer is reset from the checkpoint,
/// then two passes of concentric circle outlines are drawn, the centre
/// nudged one pixel right and the radius grown by one between passes.
/// The radius is the distance from the centre to the sample, less two.
pub open spec fn circle_spec(
    v: CanvasView,
    center: (i64, i64),
    ep: (i64, i64),
    size: i64,
    color: [u8; 4],
) -> CanvasView {
    let cx = center.0 as int;
    let cy = center.1 as int;
    let condw = v.working.width - 2;
    let condh = v.working.height - 2;
    let ddx = ep.0 - center.0;
    let ddy = ep.1 - center.1;
    let rad = sqrt_floor(ddx * ddx + ddy * ddy) - 2;
    let half = size as int / 2;
    let pass0 = circle_pass(v.checkpoint, cx, cy, rad, half, condw, condh, rgba_of(color), -half);
    let pass1 = circle_pass(pass0, cx + 1, cy, rad + 1, half, condw, condh, rgba_of(color), -half);
    CanvasView { working: pass1, ..v }
}

/// The smallest of three integers.
pub open spec fn min3(a: int, b: int, c: int) -> int {
    min_int(min_int(a, b), c)
}

/// The largest of three integers.
pub open spec fn max3(a: int, b: int, c: int) -> int {
    if a >= b && a >= c {
        a
    } else if b >= c {
        b
    } else {
        c
    }
}

/// The triangle mask with the given corners.
pub open spec fn tri_mask(tx: int, ty: int, lx: int, ly: int, rx: int, ry: int) -> Mask {
    Mask::Tri {
        ax: tx as i64,
        ay: ty as i64,
        bx: lx as i64,
        by: ly as i64,
        cx: rx as i64,
        cy: ry as i64,
    }
}

/// The filled arrowhead triangle, skipped when the tip coincides with
/// either base corner.
pub open spec fn head_painted(
    b: BufView,
    tx: int,
    ty: int,
    lx: int,
    ly: int,
    rx: int,
    ry: int,
    c: Rgba,
) -> BufView {
    if (tx == lx && ty == ly) || (tx == rx && ty == ry) {
        b
    } else {
        scan_painted(
            b,
            min3(tx, lx, rx),
            max3(tx, lx, rx) + 1,
            min3(ty, ly, ry),
            max3(ty, ly, ry) + 1,
            tri_mask(tx, ty, lx, ly, rx, ry),
            c,
        )
    }
}

/// The arrow preview: the working buffer is reset from the checkpoint,
/// the stroke body is drawn, and the arrowhead triangle is filled at the
/// ending point.  A zero-length arrow draws nothing.
pub open spec fn arrow_spec(
    v: CanvasView,
    sp: (i64, i64),
    ep: (i64, i64),
    size: i64,
    color: [u8; 4],
) -> CanvasView {
    let sx = sp.0 as int;
    let sy = sp.1 as int;
    let ex = ep.0 as int;
    let ey = ep.1 as int;
    let gsize = size as int;
    let body = line_painted(v.checkpoint, sx, sy, ex, ey, gsize, rgba_of(color));
    let dx = ex - sx;
    let dy = ey - sy;
    if dx == 0 && dy == 0 {
        CanvasView { working: body, ..v }
    } else {
        let len = sqrt_floor(dx * dx + dy * dy);
        let tx = ex + rdiv(3 * gsize * dx, len);
        let ty = ey + rdiv(3 * gsize * dy, len);
        let lx = ex - rdiv(2 * gsize * dy, len);
        let ly = ey + rdiv(2 * gsize * dx, len);
        let rx = ex + rdiv(2 * gsize * dy, len);
        let ry = ey - rdiv(2 * gsize * dx, len);
        CanvasView { working: head_painted(body, tx, ty, lx, ly, rx, ry, rgba_of(color)), ..v }
    }
}


impl Screenshot {
    /// Stamps a filled point at `(x, y)`: every pixel whose squared
    /// distance from the centre is at most `r` (the radius itself — the
    /// stamp is deliberately tighter than a true disc) takes the colour.
    /// Nothing is drawn when the centre is not strictly inside the image.
    pub fn draw_point(&mut self, x: i64, y: i64, r: i64, color: [u8; 4])
        requires
            old(self)@.wf(),
            -POS_LIMIT <= x <= POS_LIMIT,
            -POS_LIMIT <= y <= POS_LIMIT,
            -POS_LIMIT <= r <= POS_LIMIT,
        ensures
            final(self)@ == draw_point_spec(old(self)@, x, y, r, color),
            final(self)@.wf(),
    {
        let col = Rgba::from_channels(color);
        let w: usize = self.working.width();
        let h: usize = self.working.height();
        if x > 0 && x < w as i64 && y > 0 && y < h as i64 {
            scan_paint(
                &mut self.working,
                x - r,
                x + r + 1,
                y - r,
                y + r + 1,
                Mask::Disc { cx: x, cy: y, r },
                col,
            );
        }
        proof {
            assert(self@ =~= draw_point_spec(old(self)@, x, y, r, color));
        }
    }

    /// Draws a brush stroke from `starting_point` to `ending_point` onto
    /// the working buffer: a stack of parallel one-pixel lines offset
    /// along the stroke's perpendicular.
    pub fn draw_line(
        &mut self,
        starting_point: (i64, i64),
        ending_point: (i64, i64),
        color: [u8; 4],
        size: i64,
    )
        requires
            old(self)@.wf(),
            -POS_LIMIT <= starting_point.0 <= POS_LIMIT,
            -POS_LIMIT <= starting_point.1 <= POS_LIMIT,
            -POS_LIMIT <= ending_point.0 <= POS_LIMIT,
            -POS_LIMIT <= ending_point.1 <= POS_LIMIT,
            0 <= size <= SIZE_LIMIT,
    ensures
            final(self)@ == draw_line_spec(old(self)@, starting_point, ending_point, color, size),
            final(self)@.wf(),
    {
        let col = Rgba::from_channels(color);
        draw_stripes(
            &mut self.working,
            starting_point.0,
            starting_point.1,
            ending_point.0,
            ending_point.1,
            size,
            col,
        );
        proof {
            lemma_line_painted_dims(
                old(self)@.working,
                starting_point.0 as int,
                starting_point.1 as int,
                ending_point.0 as int,
                ending_point.1 as int,
                size as int,
                col,
            );
            assert(self@ =~= draw_line_spec(old(self)@, starting_point, ending_point, color, size));
        }
    }

    /// Highlights the stripe between the two points: the base segment and
    /// `size` copies shifted up one row each are stamped at alpha 64/255
    /// onto a transparent overlay, which is then alpha-blended onto the
    /// working buffer.
    pub fn highlight_line(
        &mut self,
        starting_point: (i64, i64),
        ending_point: (i64, i64),
        size: i64,
        color: [u8; 3],
    )
        requires
            old(self)@.wf(),
            -POS_LIMIT <= starting_point.0 <= POS_LIMIT,
            -POS_LIMIT <= starting_point.1 <= POS_LIMIT,
            -POS_LIMIT <= ending_point.0 <= POS_LIMIT,
            -POS_LIMIT <= ending_point.1 <= POS_LIMIT,
            0 <= size <= SIZE_LIMIT,
        ensures
            final(self)@ == highlight_spec(old(self)@, starting_point, ending_point, size, color),
            final(self)@.wf(),
    {
        let ink = Rgba { r: color[0], g: color[1], b: color[2], a: 64 };
        let w: usize = self.working.width();
        let h: usize = self.working.height();
        let ghost gsx = starting_point.0 as int;
        let ghost gsy = starting_point.1 as int;
        let ghost gex = ending_point.0 as int;
        let ghost gey = ending_point.1 as int;
        let ghost gsize = size as int;
        let mut overlay = RasterBuffer::new_filled(w, h, Rgba { r: 0, g: 0, b: 0, a: 0 });
        proof {
            assert(overlay@.data =~= transparent_buf(w as nat, h as nat).data);
            assert(overlay@ =~= transparent_buf(w as nat, h as nat));
        }
        draw_segment(
            &mut overlay,
            starting_point.0,
            starting_point.1,
            ending_point.0,
            ending_point.1,
            ink,
        );
        let ghost base = overlay@;
        let mut i: i64 = 1;
        while i <= size
            invariant
                1 <= i <= size + 1,
                hl_overlay_from(base, gsx, gsy, gex, gey, ink, gsize, 1) == hl_overlay_from(
                    overlay@,
                    gsx,
                    gsy,
                    gex,
                    gey,
                    ink,
                    gsize,
                    i as int,
                ),
                overlay@.wf(),
                overlay@.width == w,
                overlay@.height == h,
            decreases size - i + 1,
        {
            let ghost prev = overlay@;
            draw_segment(
                &mut overlay,
                starting_point.0,
                starting_point.1 - i,
                ending_point.0,
                ending_point.1 - i,
                ink,
            );
            proof {
                assert(hl_overlay_from(prev, gsx, gsy, gex, gey, ink, gsize, i as int)
                    == hl_overlay_from(overlay@, gsx, gsy, gex, gey, ink, gsize, i + 1));
            }
            i = i + 1;
        }
        self.working.blend_from(&overlay);
        proof {
            assert(overlay@ == hl_overlay(w as nat, h as nat, gsx, gsy, gex, gey, ink, gsize));
            assert(self@ =~= highlight_spec(old(self)@, starting_point, ending_point, size, color));
        }
    }

    /// Erases annotations within the disc of radius `r` around `(x, y)`:
    /// each pixel with `dx^2 + dy^2 <= r^2` is restored to its value in
    /// the committed (original) capture, reaching back past every commit.
    /// Nothing happens when the centre is not strictly inside the image.
    pub fn erase_point(&mut self, x: i64, y: i64, r: i64)
        requires
            old(self)@.wf(),
            -POS_LIMIT <= x <= POS_LIMIT,
            -POS_LIMIT <= y <= POS_LIMIT,
            -POS_LIMIT <= r <= POS_LIMIT,
        ensures
            final(self)@ == erase_spec(old(self)@, x, y, r),
            final(self)@.wf(),
    {
        erase_disc(&mut self.working, &self.committed, x, y, r);
        proof {
            assert(self@ =~= erase_spec(old(self)@, x, y, r));
        }
    }

    /// The rectangle preview: resets the working buffer from the
    /// checkpoint, then draws `size / 2 * 2 + 1` concentric hollow
    /// rectangles around the diagonal from `starting_point` to
    /// `ending_point`, skipping rings with an out-of-bounds first corner
    /// or a zero extent.
    pub fn rectangle(
        &mut self,
        starting_point: (i64, i64),
        ending_point: (i64, i64),
        size: i64,
        color: [u8; 4],
    )
        requires
            old(self)@.wf(),
            -POS_LIMIT <= starting_point.0 <= POS_LIMIT,
            -POS_LIMIT <= starting_point.1 <= POS_LIMIT,
            -POS_LIMIT <= ending_point.0 <= POS_LIMIT,
            -POS_LIMIT <= ending_point.1 <= POS_LIMIT,
            0 <= size <= SIZE_LIMIT,
        ensures
            final(self)@ == rectangle_spec(old(self)@, starting_point, ending_point, size, color),
            final(self)@.wf(),
    {
        let sx: i64 = starting_point.0;
        let sy: i64 = starting_point.1;
        let ex: i64 = ending_point.0;
        let ey: i64 = ending_point.1;
        let ghost gsx = sx as int;
        let ghost gsy = sy as int;
        let ghost gex = ex as int;
        let ghost gey = ey as int;
        let col = Rgba::from_channels(color);
        let half: i64 = ((size as u64) / 2) as i64;
        let ghost ghalf = half as int;
        let w: usize = self.working.width();
        let h: usize = self.working.height();
        let ghost gcw = w as int;
        let ghost gch = h as int;
        self.working = self.checkpoint.duplicate();
        let ghost base = old(self)@.checkpoint;
        let mut d: i64 = -half;
        while d <= half
            invariant
                -half <= d <= half + 1,
                rect_rings_from(base, gcw, gch, gsx, gsy, gex, gey, ghalf, col, -ghalf)
                    == rect_rings_from(
                    self@.working,
                    gcw,
                    gch,
                    gsx,
                    gsy,
                    gex,
                    gey,
                    ghalf,
                    col,
                    d as int,
                ),
                self@.working.wf(),
                self@.working.width == base.width,
                self@.working.height == base.height,
                self@.checkpoint == old(self)@.checkpoint,
                self@.committed == old(self)@.committed,
            decreases half + 1 - d,
        {
            let ghost prev = self@.working;
            let mut dy: i64 = d;
            if (sx > ex) != (sy > ey) {
                dy = -d;
            }
            let nsx: i64 = sx - d;
            let nsy: i64 = sy - dy;
            let nex: i64 = ex + d;
            let ney: i64 = ey + dy;
            if nsx > 0 && nsx < w as i64 && nsy > 0 && nsy < h as i64 && nex != nsx && ney
                != nsy {
                let x0: i64 = if nsx <= nex {
                    nsx
                } else {
                    nex
                };
                let y0: i64 = if nsy <= ney {
                    nsy
                } else {
                    ney
                };
                let bw: i64 = if nex >= nsx {
                    nex - nsx
                } else {
                    nsx - nex
                };
                let bh: i64 = if ney >= nsy {
                    ney - nsy
                } else {
                    nsy - ney
                };
                scan_paint(&mut self.working, x0, x0 + bw, y0, y0 + 1, Mask::Full, col);
                scan_paint(&mut self.working, x0, x0 + bw, y0 + bh - 1, y0 + bh, Mask::Full, col);
                scan_paint(&mut self.working, x0, x0 + 1, y0, y0 + bh, Mask::Full, col);
                scan_paint(&mut self.working, x0 + bw - 1, x0 + bw, y0, y0 + bh, Mask::Full, col);
                proof {
                    assert(ring_valid(gcw, gch, gsx, gsy, gex, gey, d as int));
                    assert(self@.working == ring_applied(prev, gcw, gch, gsx, gsy, gex, gey, d as int, col));
                }
            } else {
                proof {
                    assert(!ring_valid(gcw, gch, gsx, gsy, gex, gey, d as int));
                    assert(self@.working == ring_applied(prev, gcw, gch, gsx, gsy, gex, gey, d as int, col));
                }
            }
            proof {
                assert(rect_rings_from(prev, gcw, gch, gsx, gsy, gex, gey, ghalf, col, d as int)
                    == rect_rings_from(self@.working, gcw, gch, gsx, gsy, gex, gey, ghalf, col, d + 1));
            }
            d = d + 1;
        }
        proof {
            assert(self@ =~= rectangle_spec(old(self)@, starting_point, ending_point, size, color));
        }
    }

    /// The circle preview: resets the working buffer from the checkpoint,
    /// then draws two passes of concentric circle outlines around
    /// `center`, with the radius taken from the distance to
    /// `ending_point` less two, the centre nudged one pixel right and the
    /// radius grown by one between passes.
    pub fn circle(
        &mut self,
        center: (i64, i64),
        ending_point: (i64, i64),
        size: i64,
        color: [u8; 4],
    )
        requires
            old(self)@.wf(),
            -POS_LIMIT <= center.0 <= POS_LIMIT,
            -POS_LIMIT <= center.1 <= POS_LIMIT,
            -POS_LIMIT <= ending_point.0 <= POS_LIMIT,
            -POS_LIMIT <= ending_point.1 <= POS_LIMIT,
            0 <= size <= SIZE_LIMIT,
        ensures
            final(self)@ == circle_spec(old(self)@, center, ending_point, size, color),
            final(self)@.wf(),
    {
        let col = Rgba::from_channels(color);
        let w0: usize = self.working.width();
        let h0: usize = self.working.height();
        let condw: i64 = w0 as i64 - 2;
        let condh: i64 = h0 as i64 - 2;
        let ddx: i64 = ending_point.0 - center.0;
        let ddy: i64 = ending_point.1 - center.1;
        proof {
            lemma_prod_bound(ddx as int, ddx as int, 2097152, 2097152);
            lemma_prod_bound(ddy as int, ddy as int, 2097152, 2097152);
            assert(ddx * ddx >= 0 && ddy * ddy >= 0) by (nonlinear_arith);
        }
        let dist2: u64 = (ddx * ddx + ddy * ddy) as u64;
        let rt: u64 = isqrt(dist2);
        proof {
            assert(rt <= 3000000) by (nonlinear_arith)
                requires
                    rt as int * rt as int <= dist2 as int,
                    dist2 <= 0x800_0000_0000,
                    0 <= rt,
            ;
        }
        let radius: i64 = rt as i64 - 2;
        let half: i64 = ((size as u64) / 2) as i64;
        let ghost gcx = center.0 as int;
        let ghost gcy = center.1 as int;
        let ghost grad = radius as int;
        let ghost ghalf = half as int;
        let ghost gcw = condw as int;
        let ghost gch = condh as int;
        self.working = self.checkpoint.duplicate();
        let ghost base = old(self)@.checkpoint;
        let mut dr: i64 = -half;
        while dr <= half
            invariant
                -half <= dr <= half + 1,
                circle_pass(base, gcx, gcy, grad, ghalf, gcw, gch, col, -ghalf) == circle_pass(
                    self@.working,
                    gcx,
                    gcy,
                    grad,
                    ghalf,
                    gcw,
                    gch,
                    col,
                    dr as int,
                ),
                self@.working.wf(),
                self@.checkpoint == old(self)@.checkpoint,
                self@.committed == old(self)@.committed,
            decreases half + 1 - dr,
        {
            let ghost prev = self@.working;
            let rr: i64 = radius + dr;
            if (center.0 > 0 || (center.0 == 0 && center.1 > 0)) && (center.0 < condw || (center.0
                == condw && center.1 < condh)) {
                scan_paint(
                    &mut self.working,
                    center.0 - rr,
                    center.0 + rr + 1,
                    center.1 - rr,
                    center.1 + rr + 1,
                    Mask::Ring { cx: center.0, cy: center.1, radius: rr },
                    col,
                );
            }
            proof {
                assert(circle_pass(prev, gcx, gcy, grad, ghalf, gcw, gch, col, dr as int)
                    == circle_pass(self@.working, gcx, gcy, grad, ghalf, gcw, gch, col, dr + 1));
            }
            dr = dr + 1;
        }
        let ghost mid = self@.working;
        let cx1: i64 = center.0 + 1;
        let rad1: i64 = radius + 1;
        let mut dr2: i64 = -half;
        while dr2 <= half
            invariant
                -half <= dr2 <= half + 1,
                circle_pass(mid, gcx + 1, gcy, grad + 1, ghalf, gcw, gch, col, -ghalf)
                    == circle_pass(
                    self@.working,
                    gcx + 1,
                    gcy,
                    grad + 1,
                    ghalf,
                    gcw,
                    gch,
                    col,
                    dr2 as int,
                ),
                self@.working.wf(),
                self@.checkpoint == old(self)@.checkpoint,
                self@.committed == old(self)@.committed,
            decreases half + 1 - dr2,
        {
            let ghost prev = self@.working;
            let rr: i64 = rad1 + dr2;
            if (cx1 > 0 || (cx1 == 0 && center.1 > 0)) && (cx1 < condw || (cx1 == condw
                && center.1 < condh)) {
                scan_paint(
                    &mut self.working,
                    cx1 - rr,
                    cx1 + rr + 1,
                    center.1 - rr,
                    center.1 + rr + 1,
                    Mask::Ring { cx: cx1, cy: center.1, radius: rr },
                    col,
                );
            }
            proof {
                assert(circle_pass(prev, gcx + 1, gcy, grad + 1, ghalf, gcw, gch, col, dr2 as int)
                    == circle_pass(
                    self@.working,
                    gcx + 1,
                    gcy,
                    grad + 1,
                    ghalf,
                    gcw,
                    gch,
                    col,
                    dr2 + 1,
                ));
            }
            dr2 = dr2 + 1;
        }
        proof {
            assert(self@ =~= circle_spec(old(self)@, center, ending_point, size, color));
        }
    }

    /// The arrow preview: resets the working buffer from the checkpoint,
    /// draws the stroke body, and fills the arrowhead triangle at the
    /// ending point unless the tip coincides with a base corner.
    pub fn arrow(
        &mut self,
        starting_point: (i64, i64),
        ending_point: (i64, i64),
        size: i64,
        color: [u8; 4],
    )
        requires
            old(self)@.wf(),
            -POS_LIMIT <= starting_point.0 <= POS_LIMIT,
            -POS_LIMIT <= starting_point.1 <= POS_LIMIT,
            -POS_LIMIT <= ending_point.0 <= POS_LIMIT,
            -POS_LIMIT <= ending_point.1 <= POS_LIMIT,
            0 <= size <= SIZE_LIMIT,
        ensures
            final(self)@ == arrow_spec(old(self)@, starting_point, ending_point, size, color),
            final(self)@.wf(),
    {
        let col = Rgba::from_channels(color);
        let ghost gsx = starting_point.0 as int;
        let ghost gsy = starting_point.1 as int;
        let ghost gex = ending_point.0 as int;
        let ghost gey = ending_point.1 as int;
        let ghost gsize = size as int;
        self.working = self.checkpoint.duplicate();
        draw_stripes(
            &mut self.working,
            starting_point.0,
            starting_point.1,
            ending_point.0,
            ending_point.1,
            size,
            col,
        );
        proof {
            lemma_line_painted_dims(old(self)@.checkpoint, gsx, gsy, gex, gey, gsize, col);
        }
        let dx: i64 = ending_point.0 - starting_point.0;
        let dy: i64 = ending_point.1 - starting_point.1;
        if dx == 0 && dy == 0 {
            proof {
                assert(self@ =~= arrow_spec(old(self)@, starting_point, ending_point, size, color));
            }
            return ;
        }
        proof {
            lemma_prod_bound(dx as int, dx as int, 2097152, 2097152);
            lemma_prod_bound(dy as int, dy as int, 2097152, 2097152);
            assert(dx * dx + dy * dy >= 1) by (nonlinear_arith)
                requires
                    dx != 0 || dy != 0,
            ;
        }
        let dist2: u64 = (dx * dx + dy * dy) as u64;
        let len_u: u64 = isqrt(dist2);
        proof {
            assert(len_u >= 1) by (nonlinear_arith)
                requires
                    len_u as int * len_u as int <= dist2 as int,
                    (dist2 as int) < (len_u as int + 1) * (len_u as int + 1),
                    dist2 >= 1,
                    0 <= len_u,
            ;
            assert(len_u <= 3000000) by (nonlinear_arith)
                requires
                    len_u as int * len_u as int <= dist2 as int,
                    dist2 <= 0x800_0000_0000,
                    0 <= len_u,
            ;
            crate::raster::lemma_span_le_sqrt(dx as int, dy as int, len_u as int);
        }
        let den: i64 = len_u as i64;
        proof {
            lemma_prod_bound(3 * size, dx as int, 3072, 2097152);
            lemma_prod_bound(3 * size, dy as int, 3072, 2097152);
            lemma_prod_bound(2 * size, dy as int, 2048, 2097152);
            lemma_prod_bound(2 * size, dx as int, 2048, 2097152);
        }
        let n_tip_x: i64 = 3 * size * dx;
        let n_tip_y: i64 = 3 * size * dy;
        let n_side_x: i64 = 2 * size * dy;
        let n_side_y: i64 = 2 * size * dx;
        proof {
            assert(iabs(n_tip_x as int) <= den * (3 * gsize)) by (nonlinear_arith)
                requires
                    n_tip_x == 3 * gsize * dx,
                    iabs(dx as int) <= den,
                    0 <= gsize,
                    den >= 1,
            ;
            assert(iabs(n_tip_y as int) <= den * (3 * gsize)) by (nonlinear_arith)
                requires
                    n_tip_y == 3 * gsize * dy,
                    iabs(dy as int) <= den,
                    0 <= gsize,
                    den >= 1,
            ;
            assert(iabs(n_side_x as int) <= den * (2 * gsize)) by (nonlinear_arith)
                requires
                    n_side_x == 2 * gsize * dy,
                    iabs(dy as int) <= den,
                    0 <= gsize,
                    den >= 1,
            ;
            assert(iabs(n_side_y as int) <= den * (2 * gsize)) by (nonlinear_arith)
                requires
                    n_side_y == 2 * gsize * dx,
                    iabs(dx as int) <= den,
                    0 <= gsize,
                    den >= 1,
            ;
            lemma_rdiv_le(n_tip_x as int, den as int, 3 * gsize);
            lemma_rdiv_le(n_tip_y as int, den as int, 3 * gsize);
            lemma_rdiv_le(n_side_x as int, den as int, 2 * gsize);
            lemma_rdiv_le(n_side_y as int, den as int, 2 * gsize);
        }
        let o_tip_x: i64 = rdiv_exec(n_tip_x, den);
        let o_tip_y: i64 = rdiv_exec(n_tip_y, den);
        let o_side_x: i64 = rdiv_exec(n_side_x, den);
        let o_side_y: i64 = rdiv_exec(n_side_y, den);
        let tx: i64 = ending_point.0 + o_tip_x;
        let ty: i64 = ending_point.1 + o_tip_y;
        let lx: i64 = ending_point.0 - o_side_x;
        let ly: i64 = ending_point.1 + o_side_y;
        let rx: i64 = ending_point.0 + o_side_x;
        let ry: i64 = ending_point.1 - o_side_y;
        if (tx == lx && ty == ly) || (tx == rx && ty == ry) {
            proof {
                assert(self@ =~= arrow_spec(old(self)@, starting_point, ending_point, size, color));
            }
            return ;
        }
        let bx0: i64 = if tx <= lx && tx <= rx {
            tx
        } else if lx <= rx {
            lx
        } else {
            rx
        };
        let bx1: i64 = if tx >= lx && tx >= rx {
            tx
        } else if lx >= rx {
            lx
        } else {
            rx
        };
        let by0: i64 = if ty <= ly && ty <= ry {
            ty
        } else if ly <= ry {
            ly
        } else {
            ry
        };
        let by1: i64 = if ty >= ly && ty >= ry {
            ty
        } else if ly >= ry {
            ly
        } else {
            ry
        };
        proof {
            assert(bx0 as int == min3(tx as int, lx as int, rx as int));
            assert(bx1 as int == max3(tx as int, lx as int, rx as int));
            assert(by0 as int == min3(ty as int, ly as int, ry as int));
            assert(by1 as int == max3(ty as int, ly as int, ry as int));
        }
        scan_paint(
            &mut self.working,
            bx0,
            bx1 + 1,
            by0,
            by1 + 1,
            Mask::Tri { ax: tx, ay: ty, bx: lx, by: ly, cx: rx, cy: ry },
            col,
        );
        proof {
            assert(self@ =~= arrow_spec(old(self)@, starting_point, ending_point, size, color));
        }
    }
}


/// Rolling back is idempotent: a second rollback right after a first one
/// changes nothing, so both leave the same working buffer.
pub proof fn lemma_rollback_idempotent(v: CanvasView)
    ensures
        rollback_spec(rollback_spec(v)) == rollback_spec(v),
{
    assert(rollback_spec(rollback_spec(v)) =~= rollback_spec(v));
}

/// A commit followed by a rollback is a no-op on the working buffer, and
/// indeed on the whole canvas reached by the commit.
pub proof fn lemma_commit_then_rollback(v: CanvasView)
    ensures
        rollback_spec(commit_spec(v)).working == v.working,
        rollback_spec(commit_spec(v)) == commit_spec(v),
{
    assert(rollback_spec(commit_spec(v)) =~= commit_spec(v));
}

/// The concentric rectangles never change the buffer's dimensions.
pub proof fn lemma_rect_rings_dims(
    b: BufView,
    condw: int,
    condh: int,
    sx: int,
    sy: int,
    ex: int,
    ey: int,
    half: int,
    c: Rgba,
    d: int,
)
    ensures
        rect_rings_from(b, condw, condh, sx, sy, ex, ey, half, c, d).width == b.width,
        rect_rings_from(b, condw, condh, sx, sy, ex, ey, half, c, d).height == b.height,
    decreases crate::raster::imax(half - d + 1, 0),
{
    if d <= half {
        lemma_rect_rings_dims(
            ring_applied(b, condw, condh, sx, sy, ex, ey, d, c),
            condw,
            condh,
            sx,
            sy,
            ex,
            ey,
            half,
            c,
            d + 1,
        );
    }
}

/// The rectangle preview is idempotent whenever the working buffer and
/// the checkpoint agree in size — which holds away from the transient
/// window between a crop or rotate and the next commit.  The size
/// matters because the tool's bounds test reads the working buffer's
/// dimensions before resetting it.
pub proof fn lemma_rectangle_preview_idempotent(
    v: CanvasView,
    sp: (i64, i64),
    ep: (i64, i64),
    size: i64,
    color: [u8; 4],
)
    requires
        v.working.width == v.checkpoint.width,
        v.working.height == v.checkpoint.height,
    ensures
        rectangle_spec(rectangle_spec(v, sp, ep, size, color), sp, ep, size, color)
            == rectangle_spec(v, sp, ep, size, color),
{
    let half = size as int / 2;
    lemma_rect_rings_dims(
        v.checkpoint,
        v.working.width as int,
        v.working.height as int,
        sp.0 as int,
        sp.1 as int,
        ep.0 as int,
        ep.1 as int,
        half,
        rgba_of(color),
        -half,
    );
    assert(rectangle_spec(rectangle_spec(v, sp, ep, size, color), sp, ep, size, color)
        =~= rectangle_spec(v, sp, ep, size, color));
}

/// The arrow preview is idempotent, for the same reason.
pub proof fn lemma_arrow_preview_idempotent(
    v: CanvasView,
    sp: (i64, i64),
    ep: (i64, i64),
    size: i64,
    color: [u8; 4],
)
    ensures
        arrow_spec(arrow_spec(v, sp, ep, size, color), sp, ep, size, color) == arrow_spec(
            v,
            sp,
            ep,
            size,
            color,
        ),
{
    assert(arrow_spec(arrow_spec(v, sp, ep, size, color), sp, ep, size, color) =~= arrow_spec(
        v,
        sp,
        ep,
        size,
        color,
    ));
}

/// One pass of the circle tool never changes the buffer's dimensions.
pub proof fn lemma_circle_pass_dims(
    b: BufView,
    cx: int,
    cy: int,
    radius: int,
    half: int,
    condw: int,
    condh: int,
    c: Rgba,
    dr: int,
)
    ensures
        circle_pass(b, cx, cy, radius, half, condw, condh, c, dr).width == b.width,
        circle_pass(b, cx, cy, radius, half, condw, condh, c, dr).height == b.height,
    decreases crate::raster::imax(half - dr + 1, 0),
{
    if dr <= half {
        let r = radius + dr;
        let b2 = if circle_cond(cx, cy, condw, condh) {
            scan_painted(b, cx - r, cx + r + 1, cy - r, cy + r + 1, ring_mask(cx, cy, r), c)
        } else {
            b
        };
        lemma_circle_pass_dims(b2, cx, cy, radius, half, condw, condh, c, dr + 1);
    }
}

/// The circle preview is idempotent whenever the working buffer and the
/// checkpoint agree in size — which holds away from the transient window
/// between a crop or rotate and the next commit.  The size matters
/// because the tool's centre test reads the working buffer's dimensions.
pub proof fn lemma_circle_preview_idempotent(
    v: CanvasView,
    center: (i64, i64),
    ep: (i64, i64),
    size: i64,
    color: [u8; 4],
)
    requires
        v.working.width == v.checkpoint.width,
        v.working.height == v.checkpoint.height,
    ensures
        circle_spec(circle_spec(v, center, ep, size, color), center, ep, size, color)
            == circle_spec(v, center, ep, size, color),
{
    let once = circle_spec(v, center, ep, size, color);
    let cx = center.0 as int;
    let cy = center.1 as int;
    let condw = v.working.width - 2;
    let condh = v.working.height - 2;
    let ddx = ep.0 - center.0;
    let ddy = ep.1 - center.1;
    let rad = sqrt_floor(ddx * ddx + ddy * ddy) - 2;
    let half = size as int / 2;
    let pass0 = circle_pass(v.checkpoint, cx, cy, rad, half, condw, condh, rgba_of(color), -half);
    lemma_circle_pass_dims(v.checkpoint, cx, cy, rad, half, condw, condh, rgba_of(color), -half);
    lemma_circle_pass_dims(pass0, cx + 1, cy, rad + 1, half, condw, condh, rgba_of(color), -half);
    assert(once.working.width == v.checkpoint.width);
    assert(circle_spec(once, center, ep, size, color) =~= once);
}

/// Inside the erase disc, erasing restores exactly the committed
/// (original) capture, pixel for pixel — no matter how many destructive
/// edits and commits came before, since no drawing tool ever touches the
/// committed buffer.
pub proof fn lemma_erase_restores_committed(
    v: CanvasView,
    x: i64,
    y: i64,
    r: i64,
    px: int,
    py: int,
)
    requires
        v.working.wf(),
        0 < x < v.working.width,
        0 < y < v.working.height,
        r > 0,
        x - r <= px < x + r,
        y - r <= py < y + r,
        (px - x) * (px - x) + (py - y) * (py - y) <= r * r,
        v.working.contains(px, py),
        v.committed.contains(px, py),
    ensures
        erase_spec(v, x, y, r).working.pix(px, py) == v.committed.pix(px, py),
{
    let w = v.working.width as int;
    let h = v.working.height as int;
    crate::buffer::lemma_xy_index(w, h, px, py);
    vstd::arithmetic::mul::lemma_mul_is_commutative(w, h);
}

/// No drawing tool, commit or rollback ever changes the committed buffer:
/// that is why erasing always reaches back to the original capture.
pub proof fn lemma_edits_keep_committed(
    v: CanvasView,
    sp: (i64, i64),
    ep: (i64, i64),
    x: i64,
    y: i64,
    r: i64,
    size: i64,
    color4: [u8; 4],
    color3: [u8; 3],
)
    ensures
        commit_spec(v).committed == v.committed,
        rollback_spec(v).committed == v.committed,
        draw_point_spec(v, x, y, r, color4).committed == v.committed,
        draw_line_spec(v, sp, ep, color4, size).committed == v.committed,
        highlight_spec(v, sp, ep, size, color3).committed == v.committed,
        erase_spec(v, x, y, r).committed == v.committed,
        rectangle_spec(v, sp, ep, size, color4).committed == v.committed,
        circle_spec(v, sp, ep, size, color4).committed == v.committed,
        arrow_spec(v, sp, ep, size, color4).committed == v.committed,
{
}

} // verus!
