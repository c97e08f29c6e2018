//! Row-major RGBA pixel buffers and their mathematical view.

use vstd::arithmetic::div_mod::lemma_fundamental_div_mod;
use vstd::arithmetic::div_mod::lemma_fundamental_div_mod_converse;
use vstd::arithmetic::mul::lemma_mul_is_commutative;
use vstd::prelude::*;

use crate::color::{blend_spec, Rgba};

verus! {

/// Largest width or height a buffer may have.
pub const MAX_DIM: usize = 16384;

/// Mathematical view of a raster buffer: a width, a height and the pixels
/// in row-major order.
#[verifier::ext_equal]
pub ghost struct BufView {
    pub width: nat,
    pub height: nat,
    pub data: Seq<Rgba>,
}

impl BufView {
    /// Well-formed: the pixel sequence covers exactly `width * height`
    /// entries and both dimensions are within the supported range.
    pub open spec fn wf(self) -> bool {
        &&& self.data.len() == self.width * self.height
        &&& self.width <= MAX_DIM
        &&& self.height <= MAX_DIM
    }

    /// Whether `(x, y)` lies inside the buffer.
    pub open spec fn contains(self, x: int, y: int) -> bool {
        0 <= x < self.width && 0 <= y < self.height
    }

    /// The pixel at `(x, y)`.
    pub open spec fn pix(self, x: int, y: int) -> Rgba {
        self.data[y * self.width + x]
    }
}

/// Relates a pixel coordinate to its row-major index and bounds the index
/// by the buffer size.
pub proof fn lemma_xy_index(w: int, h: int, x: int, y: int)
    requires
        0 < w,
        0 <= x < w,
        0 <= y < h,
        w <= MAX_DIM,
        h <= MAX_DIM,
    ensures
        0 <= y * w + x < h * w,
        h * w == w * h,
        h * w <= 268435456,
        (y * w + x) % w == x,
        (y * w + x) / w == y,
{
    lemma_fundamental_div_mod_converse(y * w + x, w, y, x);
    assert(y * w + x < h * w && h * w == w * h && h * w <= 268435456) by (nonlinear_arith)
        requires
            0 < w,
            0 <= x < w,
            0 <= y < h,
            w <= 16384,
            h <= 16384,
    ;
}

/// Decomposes a row-major index into its pixel coordinate.
pub proof fn lemma_index_decomp(w: int, h: int, p: int)
    requires
        0 < w,
        0 <= p < h * w,
    ensures
        0 <= p % w < w,
        0 <= p / w < h,
        (p / w) * w + (p % w) == p,
{
    lemma_fundamental_div_mod(p, w);
    lemma_mul_is_commutative(p / w, w);
    assert(0 <= p % w < w) by (nonlinear_arith)
        requires
            0 < w,
            0 <= p,
    ;
    assert(0 <= p / w < h) by (nonlinear_arith)
        requires
            0 < w,
            0 <= p < h * w,
            p == w * (p / w) + p % w,
            0 <= p % w < w,
    ;
}

/// The cropped view of `b`: the rectangle with origin `(x, y)` and requested
/// size `w` by `h`, clipped against the bounds of `b`.
pub open spec fn crop_view(b: BufView, x: int, y: int, w: int, h: int) -> BufView {
    let cw = if x <= b.width { min_int(w, b.width - x) } else { 0 };
    let ch = if y <= b.height { min_int(h, b.height - y) } else { 0 };
    BufView {
        width: cw as nat,
        height: ch as nat,
        data: Seq::new((cw * ch) as nat, |p: int| b.pix(x + p % cw, y + p / cw)),
    }
}

/// The view of `b` rotated a quarter turn clockwise.
pub open spec fn rotate_cw_view(b: BufView) -> BufView {
    BufView {
        width: b.height,
        height: b.width,
        data: Seq::new(
            b.data.len(),
            |p: int| b.pix(p / b.height as int, b.height - 1 - p % b.height as int),
        ),
    }
}

/// The view of `b` rotated a quarter turn counterclockwise.
pub open spec fn rotate_ccw_view(b: BufView) -> BufView {
    BufView {
        width: b.height,
        height: b.width,
        data: Seq::new(
            b.data.len(),
            |p: int| b.pix(b.width - 1 - p / b.height as int, p % b.height as int),
        ),
    }
}

/// Pixel-wise alpha blend of `overlay` onto `base`.
pub open spec fn blend_view(base: BufView, overlay: BufView) -> BufView {
    BufView {
        width: base.width,
        height: base.height,
        data: Seq::new(base.data.len(), |p: int| blend_spec(base.data[p], overlay.data[p])),
    }
}

/// The raw RGBA byte stream of `b`: four bytes per pixel, row-major.
pub open spec fn rgba_bytes_view(b: BufView) -> Seq<u8> {
    Seq::new(
        b.data.len() * 4,
        |i: int|
            {
                let px = b.data[i / 4];
                if i % 4 == 0 {
                    px.r
                } else if i % 4 == 1 {
                    px.g
                } else if i % 4 == 2 {
                    px.b
                } else {
                    px.a
                }
            },
    )
}

/// The smaller of two integers.
pub open spec fn min_int(a: int, b: int) -> int {
    if a <= b {
        a
    } else {
        b
    }
}

/// A row-major RGBA pixel buffer with bounded dimensions.
pub struct RasterBuffer {
    width: usize,
    height: usize,
    pixels: Vec<Rgba>,
}

impl View for RasterBuffer {
    type V = BufView;

    closed spec fn view(&self) -> BufView {
        BufView { width: self.width as nat, height: self.height as nat, data: self.pixels@ }
    }
}

impl RasterBuffer {
    /// A `width` by `height` buffer filled with `color`.
    pub fn new_filled(width: usize, height: usize, color: Rgba) -> (out: RasterBuffer)
        requires
            width <= MAX_DIM,
            height <= MAX_DIM,
        ensures
            out@.wf(),
            out@.width == width,
            out@.height == height,
            forall|p: int| 0 <= p < out@.data.len() ==> out@.data[p] == color,
    {
        proof {
            assert(width * height <= MAX_DIM * MAX_DIM) by (nonlinear_arith)
                requires
                    width <= MAX_DIM,
                    height <= MAX_DIM,
            ;
        }
        let n: usize = width * height;
        let pixels: Vec<Rgba> = vec![color; n];
        RasterBuffer { width, height, pixels }
    }

    /// Rebuilds a buffer from a raw RGBA byte stream; `None` when the stream
    /// does not hold exactly `width * height` four-byte pixels.
    pub fn from_rgba_bytes(width: usize, height: usize, bytes: &Vec<u8>) -> (out: Option<
        RasterBuffer,
    >)
        requires
            width <= MAX_DIM,
            height <= MAX_DIM,
        ensures
            out is Some <==> bytes@.len() == width * height * 4,
            out is Some ==> {
                let b = out->0@;
                &&& b.wf()
                &&& b.width == width
                &&& b.height == height
                &&& rgba_bytes_view(b) == bytes@
            },
    {
        proof {
            assert(width * height <= MAX_DIM * MAX_DIM) by (nonlinear_arith)
                requires
                    width <= MAX_DIM,
                    height <= MAX_DIM,
            ;
        }
        let n: usize = width * height;
        if bytes.len() != n * 4 {
            return None;
        }
        let mut pixels: Vec<Rgba> = Vec::new();
        let mut p: usize = 0;
        while p < n
            invariant
                p <= n,
                pixels@.len() == p,
                forall|q: int|
                    0 <= q < p ==> #[trigger] pixels@[q] == (Rgba {
                        r: bytes@[4 * q],
                        g: bytes@[4 * q + 1],
                        b: bytes@[4 * q + 2],
                        a: bytes@[4 * q + 3],
                    }),
            decreases n - p,
        {
            let px = Rgba {
                r: bytes[4 * p],
                g: bytes[4 * p + 1],
                b: bytes[4 * p + 2],
                a: bytes[4 * p + 3],
            };
            pixels.push(px);
            p = p + 1;
        }
        let out = RasterBuffer { width, height, pixels };
        proof {
            let b = out@;
            assert forall|i: int| 0 <= i < b.data.len() * 4 implies rgba_bytes_view(b)[i]
                == bytes@[i] by {
                lemma_index_decomp(4, b.data.len() as int, i);
            }
            assert(rgba_bytes_view(b) =~= bytes@);
        }
        Some(out)
    }

    /// The buffer width in pixels.
    pub fn width(&self) -> (out: usize)
        ensures
            out == self@.width,
    {
        self.width
    }

    /// The buffer height in pixels.
    pub fn height(&self) -> (out: usize)
        ensures
            out == self@.height,
    {
        self.height
    }

    /// Reads the pixel at `(x, y)`.
    pub fn get_pixel(&self, x: usize, y: usize) -> (out: Rgba)
        requires
            self@.wf(),
            x < self@.width,
            y < self@.height,
        ensures
            out == self@.pix(x as int, y as int),
    {
        proof {
            lemma_xy_index(self@.width as int, self@.height as int, x as int, y as int);
        }
        self.pixels[y * self.width + x]
    }

    /// Overwrites the pixel at `(x, y)`.
    pub fn put_pixel(&mut self, x: usize, y: usize, color: Rgba)
        requires
            old(self)@.wf(),
            x < old(self)@.width,
            y < old(self)@.height,
        ensures
            final(self)@ == (BufView {
                data: old(self)@.data.update(y * old(self)@.width + x, color),
                ..old(self)@
            }),
            final(self)@.wf(),
    {
        proof {
            lemma_xy_index(self@.width as int, self@.height as int, x as int, y as int);
        }
        let i: usize = y * self.width + x;
        self.pixels[i] = color;
    }

    /// An independent copy of the buffer.
    pub fn duplicate(&self) -> (out: RasterBuffer)
        ensures
            out@ == self@,
    {
        let mut pixels: Vec<Rgba> = Vec::new();
        let mut p: usize = 0;
        let n: usize = self.pixels.len();
        while p < n
            invariant
                p <= n,
                n == self.pixels@.len(),
                pixels@.len() == p,
                forall|q: int| 0 <= q < p ==> pixels@[q] == self.pixels@[q],
            decreases n - p,
        {
            pixels.push(self.pixels[p]);
            p = p + 1;
        }
        let out = RasterBuffer { width: self.width, height: self.height, pixels };
        proof {
            assert(out@.data =~= self@.data);
            assert(out@ =~= self@);
        }
        out
    }

    /// Whether two buffers have the same dimensions and pixels.
    pub fn same_as(&self, other: &RasterBuffer) -> (out: bool)
        ensures
            out <==> self@ == other@,
    {
        if self.width != other.width || self.height != other.height {
            return false;
        }
        if self.pixels.len() != other.pixels.len() {
            return false;
        }
        let n: usize = self.pixels.len();
        let mut p: usize = 0;
        while p < n
            invariant
                p <= n,
                n == self.pixels@.len(),
                n == other.pixels@.len(),
                forall|q: int| 0 <= q < p ==> self.pixels@[q] == other.pixels@[q],
            decreases n - p,
        {
            if self.pixels[p] != other.pixels[p] {
                proof {
                    assert(self@.data[p as int] != other@.data[p as int]);
                }
                return false;
            }
            p = p + 1;
        }
        proof {
            assert(self@.data =~= other@.data);
            assert(self@ =~= other@);
        }
        true
    }

    /// The raw RGBA byte stream of the buffer, four bytes per pixel.
    pub fn to_rgba_bytes(&self) -> (out: Vec<u8>)
        requires
            self@.wf(),
        ensures
            out@ == rgba_bytes_view(self@),
    {
        let n: usize = self.pixels.len();
        proof {
            assert(self@.width * self@.height <= 268435456) by (nonlinear_arith)
                requires
                    self@.width <= 16384,
                    self@.height <= 16384,
            ;
        }
        let mut out: Vec<u8> = Vec::new();
        let mut p: usize = 0;
        while p < n
            invariant
                p <= n,
                n == self.pixels@.len(),
                n <= 268435456,
                out@.len() == 4 * p,
                forall|i: int|
                    0 <= i < 4 * p ==> #[trigger] out@[i] == rgba_bytes_view(self@)[i],
            decreases n - p,
        {
            let px = self.pixels[p];
            out.push(px.r);
            out.push(px.g);
            out.push(px.b);
            out.push(px.a);
            proof {
                assert forall|i: int| 4 * p <= i < 4 * (p + 1) implies #[trigger] out@[i]
                    == rgba_bytes_view(self@)[i] by {
                    lemma_fundamental_div_mod_converse(i, 4, p as int, i - 4 * p);
                }
            }
            p = p + 1;
        }
        proof {
            assert(out@ =~= rgba_bytes_view(self@));
        }
        out
    }

    /// The cropped copy of the buffer: origin `(x, y)`, requested size
    /// `w` by `h`, clipped against the current bounds.
    pub fn crop_clamped(&self, x: usize, y: usize, w: usize, h: usize) -> (out: RasterBuffer)
        requires
            self@.wf(),
            w <= MAX_DIM,
            h <= MAX_DIM,
        ensures
            out@ == crop_view(self@, x as int, y as int, w as int, h as int),
            out@.wf(),
    {
        let cw: usize = if x <= self.width {
            if w <= self.width - x {
                w
            } else {
                self.width - x
            }
        } else {
            0
        };
        let ch: usize = if y <= self.height {
            if h <= self.height - y {
                h
            } else {
                self.height - y
            }
        } else {
            0
        };
        let ghost target = crop_view(self@, x as int, y as int, w as int, h as int);
        proof {
            assert(target.width == cw && target.height == ch);
            assert(cw * ch <= MAX_DIM * MAX_DIM) by (nonlinear_arith)
                requires
                    cw <= MAX_DIM,
                    ch <= MAX_DIM,
            ;
        }
        let mut pixels: Vec<Rgba> = Vec::new();
        let mut j: usize = 0;
        while j < ch
            invariant
                j <= ch,
                pixels@.len() == j * cw,
                forall|p: int| 0 <= p < j * cw ==> #[trigger] pixels@[p] == target.data[p],
            decreases ch - j,
        {
            let mut i: usize = 0;
            while i < cw
                invariant
                    i <= cw,
                    j < ch,
                    pixels@.len() == j * cw + i,
                    forall|p: int|
                        0 <= p < j * cw + i ==> #[trigger] pixels@[p] == target.data[p],
                decreases cw - i,
            {
                proof {
                    assert(x + i < self@.width && y + j < self@.height);
                    lemma_xy_index(cw as int, ch as int, i as int, j as int);
                    lemma_xy_index(self@.width as int, self@.height as int, x + i, y + j);
                }
                pixels.push(self.pixels[(y + j) * self.width + (x + i)]);
                i = i + 1;
            }
            j = j + 1;
            proof {
                assert(j * cw == (j - 1) * cw + cw) by (nonlinear_arith);
            }
        }
        let out = RasterBuffer { width: cw, height: ch, pixels };
        proof {
            lemma_mul_is_commutative(ch as int, cw as int);
            assert(out@.data =~= target.data);
            assert(out@ =~= target);
        }
        out
    }

    /// A copy of the buffer rotated a quarter turn clockwise.
    pub fn rotate_cw(&self) -> (out: RasterBuffer)
        requires
            self@.wf(),
        ensures
            out@ == rotate_cw_view(self@),
            out@.wf(),
    {
        let nw: usize = self.height;
        let nh: usize = self.width;
        let ghost target = rotate_cw_view(self@);
        let mut pixels: Vec<Rgba> = Vec::new();
        let mut j: usize = 0;
        proof {
            lemma_mul_is_commutative(nh as int, nw as int);
        }
        while j < nh
            invariant
                j <= nh,
                pixels@.len() == j * nw,
                forall|p: int| 0 <= p < j * nw ==> #[trigger] pixels@[p] == target.data[p],
            decreases nh - j,
        {
            let mut i: usize = 0;
            while i < nw
                invariant
                    i <= nw,
                    j < nh,
                    pixels@.len() == j * nw + i,
                    forall|p: int|
                        0 <= p < j * nw + i ==> #[trigger] pixels@[p] == target.data[p],
                decreases nw - i,
            {
                // destination (i, j) reads source (j, height - 1 - i)
                proof {
                    lemma_xy_index(nw as int, nh as int, i as int, j as int);
                    lemma_xy_index(
                        self@.width as int,
                        self@.height as int,
                        j as int,
                        self@.height - 1 - i,
                    );
                    assert((self@.height * self@.width) as int == self@.width * self@.height)
                        by (nonlinear_arith);
                }
                pixels.push(self.pixels[(self.height - 1 - i) * self.width + j]);
                i = i + 1;
            }
            j = j + 1;
            proof {
                assert(j * nw == (j - 1) * nw + nw) by (nonlinear_arith);
            }
        }
        let out = RasterBuffer { width: nw, height: nh, pixels };
        proof {
            lemma_mul_is_commutative(nh as int, nw as int);
            assert(out@.data =~= target.data);
            assert(out@ =~= target);
        }
        out
    }

    /// A copy of the buffer rotated a quarter turn counterclockwise.
    pub fn rotate_ccw(&self) -> (out: RasterBuffer)
        requires
            self@.wf(),
        ensures
            out@ == rotate_ccw_view(self@),
            out@.wf(),
    {
        let nw: usize = self.height;
        let nh: usize = self.width;
        let ghost target = rotate_ccw_view(self@);
        let mut pixels: Vec<Rgba> = Vec::new();
        let mut j: usize = 0;
        proof {
            lemma_mul_is_commutative(nh as int, nw as int);
        }
        while j < nh
            invariant
                j <= nh,
                pixels@.len() == j * nw,
                forall|p: int| 0 <= p < j * nw ==> #[trigger] pixels@[p] == target.data[p],
            decreases nh - j,
        {
            let mut i: usize = 0;
            while i < nw
                invariant
                    i <= nw,
                    j < nh,
                    pixels@.len() == j * nw + i,
                    forall|p: int|
                        0 <= p < j * nw + i ==> #[trigger] pixels@[p] == target.data[p],
                decreases nw - i,
            {
                // destination (i, j) reads source (width - 1 - j, i)
                proof {
                    lemma_xy_index(nw as int, nh as int, i as int, j as int);
                    lemma_xy_index(
                        self@.width as int,
                        self@.height as int,
                        self@.width - 1 - j,
                        i as int,
                    );
                    assert((self@.height * self@.width) as int == self@.width * self@.height)
                        by (nonlinear_arith);
                }
                pixels.push(self.pixels[i * self.width + (self.width - 1 - j)]);
                i = i + 1;
            }
            j = j + 1;
            proof {
                assert(j * nw == (j - 1) * nw + nw) by (nonlinear_arith);
            }
        }
        let out = RasterBuffer { width: nw, height: nh, pixels };
        proof {
            lemma_mul_is_commutative(nh as int, nw as int);
            assert(out@.data =~= target.data);
            assert(out@ =~= target);
        }
        out
    }

    /// Alpha-blends `overlay` onto this buffer, pixel by pixel.
    pub fn blend_from(&mut self, overlay: &RasterBuffer)
        requires
            old(self)@.wf(),
            overlay@.width == old(self)@.width,
            overlay@.height == old(self)@.height,
            overlay@.wf(),
        ensures
            final(self)@ == blend_view(old(self)@, overlay@),
            final(self)@.wf(),
    {
        let n: usize = self.pixels.len();
        let ghost target = blend_view(old(self)@, overlay@);
        let mut p: usize = 0;
        while p < n
            invariant
                p <= n,
                n == self.pixels@.len(),
                self.width == old(self).width,
                self.height == old(self).height,
                overlay.pixels@.len() == n,
                forall|q: int| 0 <= q < p ==> #[trigger] self.pixels@[q] == target.data[q],
                forall|q: int|
                    p <= q < n ==> #[trigger] self.pixels@[q] == old(self).pixels@[q],
            decreases n - p,
        {
            let blended = crate::color::blend_rgba(self.pixels[p], overlay.pixels[p]);
            self.pixels[p] = blended;
            p = p + 1;
        }
        proof {
            assert(self@.data =~= target.data);
            assert(self@ =~= target);
        }
    }
}

} // verus!
