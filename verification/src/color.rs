//! RGBA pixels and alpha blending.

use vstd::prelude::*;

verus! {

/// One RGBA pixel, eight bits per channel.
#[derive(Clone, Copy, Debug, PartialEq, Eq, Structural)]
pub struct Rgba {
    pub r: u8,
    pub g: u8,
    pub b: u8,
    pub a: u8,
}

impl Rgba {
    /// Builds a pixel from the `[r, g, b, a]` channel layout used by raw
    /// RGBA byte streams.
    pub fn from_channels(c: [u8; 4]) -> (out: Rgba)
        ensures
            out == rgba_of(c),
    {
        Rgba { r: c[0], g: c[1], b: c[2], a: c[3] }
    }
}

/// The pixel described by the `[r, g, b, a]` channel array.
pub open spec fn rgba_of(c: [u8; 4]) -> Rgba {
    Rgba { r: c[0], g: c[1], b: c[2], a: c[3] }
}

/// The pixel with the given RGB channels and full opacity.
pub open spec fn rgb_opaque(c: [u8; 3]) -> Rgba {
    Rgba { r: c[0], g: c[1], b: c[2], a: 255 }
}

/// Blend of one colour channel: `fg * alpha + bg * (1 - alpha)`, with the
/// alpha expressed in 255ths and the result rounded down.
pub open spec fn blend_channel(fg: int, bg: int, alpha: int) -> int {
    (fg * alpha + bg * (255 - alpha)) / 255
}

/// Alpha blend of `foreground` over `background`.  The result keeps the
/// background's own alpha: blending never changes the destination's opacity.
pub open spec fn blend_spec(background: Rgba, foreground: Rgba) -> Rgba {
    Rgba {
        r: blend_channel(foreground.r as int, background.r as int, foreground.a as int) as u8,
        g: blend_channel(foreground.g as int, background.g as int, foreground.a as int) as u8,
        b: blend_channel(foreground.b as int, background.b as int, foreground.a as int) as u8,
        a: background.a,
    }
}

/// A blended channel stays within one byte.
pub proof fn lemma_blend_channel_in_range(fg: int, bg: int, alpha: int)
    requires
        0 <= fg <= 255,
        0 <= bg <= 255,
        0 <= alpha <= 255,
    ensures
        0 <= blend_channel(fg, bg, alpha) <= 255,
{
    assert(0 <= (fg * alpha + bg * (255 - alpha)) / 255 <= 255) by (nonlinear_arith)
        requires
            0 <= fg <= 255,
            0 <= bg <= 255,
            0 <= alpha <= 255,
    ;
}

/// Blending a fully transparent foreground leaves the background unchanged.
pub proof fn lemma_blend_transparent(background: Rgba, foreground: Rgba)
    requires
        foreground.a == 0,
    ensures
        blend_spec(background, foreground) == background,
{
    assert(background.r as int * 255 / 255 == background.r as int) by (nonlinear_arith);
    assert(background.g as int * 255 / 255 == background.g as int) by (nonlinear_arith);
    assert(background.b as int * 255 / 255 == background.b as int) by (nonlinear_arith);
}

/// Computes [`blend_spec`] on channel bytes.
pub(crate) fn blend_rgba(background: Rgba, foreground: Rgba) -> (out: Rgba)
    ensures
        out == blend_spec(background, foreground),
{
    let alpha: u32 = foreground.a as u32;
    let inv: u32 = 255 - alpha;
    proof {
        lemma_blend_channel_in_range(
            foreground.r as int,
            background.r as int,
            foreground.a as int,
        );
        lemma_blend_channel_in_range(
            foreground.g as int,
            background.g as int,
            foreground.a as int,
        );
        lemma_blend_channel_in_range(
            foreground.b as int,
            background.b as int,
            foreground.a as int,
        );
    }
    let r: u32 = (foreground.r as u32 * alpha + background.r as u32 * inv) / 255;
    let g: u32 = (foreground.g as u32 * alpha + background.g as u32 * inv) / 255;
    let b: u32 = (foreground.b as u32 * alpha + background.b as u32 * inv) / 255;
    Rgba { r: r as u8, g: g as u8, b: b as u8, a: background.a }
}

} // verus!
