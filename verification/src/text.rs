//! Text layout: splits the annotation text on newlines and assigns each
//! line the position it is rendered at.  Glyph rasterization itself is
//! the font collaborator's concern.

use vstd::prelude::*;

use crate::raster::{lemma_prod_bound, POS_LIMIT};

verus! {

/// One line of annotation text: the byte range `[start, end)` of the
/// line within the UTF-8 text, and the position it is rendered at.
#[derive(Clone, Copy, Debug, PartialEq, Eq, Structural)]
pub struct TextLine {
    pub start: usize,
    pub end: usize,
    pub x: i64,
    pub y: i64,
}

/// Splits `text` on newline bytes and places line `i` at
/// `(x, y + i * line_height)`.  The returned ranges partition the text:
/// they are separated by exactly the newline bytes, in order, and no
/// range contains one.
pub fn layout_text(text: &[u8], x: i64, y: i64, line_height: i64) -> (out: Vec<TextLine>)
    requires
        text@.len() <= 1048576,
        -POS_LIMIT <= y <= POS_LIMIT,
        0 <= line_height <= 16384,
    ensures
        out@.len() >= 1,
        out@[0].start == 0,
        out@[out@.len() - 1].end == text@.len(),
        forall|i: int|
            0 <= i < out@.len() ==> (#[trigger] out@[i]).start <= out@[i].end <= text@.len()
                && out@[i].x == x && out@[i].y == y + i * line_height,
        forall|i: int|
            0 <= i < out@.len() - 1 ==> (#[trigger] out@[i]).end < text@.len() && text@[out@[i].end as int]
                == 10 && out@[i + 1].start == out@[i].end + 1,
        forall|i: int, j: int|
            #![trigger out@[i], text@[j]]
            0 <= i < out@.len() && out@[i].start <= j < out@[i].end ==> text@[j] != 10,
{
    let n: usize = text.len();
    let mut out: Vec<TextLine> = Vec::new();
    let mut start: usize = 0;
    let mut cur_y: i64 = y;
    let mut j: usize = 0;
    while j < n
        invariant
            start <= j <= n,
            n == text@.len(),
            out@.len() <= start,
            cur_y == y + out@.len() * line_height,
            forall|i: int|
                0 <= i < out@.len() ==> (#[trigger] out@[i]).start <= out@[i].end < n && out@[i].x
                    == x && out@[i].y == y + i * line_height,
            forall|i: int|
                0 <= i < out@.len() ==> text@[(#[trigger] out@[i]).end as int] == 10,
            forall|i: int|
                0 <= i < out@.len() - 1 ==> (#[trigger] out@[i + 1]).start == out@[i].end + 1,
            out@.len() == 0 ==> start == 0,
            out@.len() > 0 ==> out@[0].start == 0 && out@[out@.len() - 1].end + 1 == start,
            forall|k: int| start <= k < j ==> text@[k] != 10,
            forall|i: int, k: int|
                #![trigger out@[i], text@[k]]
                0 <= i < out@.len() && out@[i].start <= k < out@[i].end ==> text@[k] != 10,
        decreases n - j,
    {
        if text[j] == 10 {
            proof {
                lemma_prod_bound(out@.len() as int, line_height as int, 1048577, 16384);
                assert((out@.len() as int + 1) * line_height == out@.len() as int * line_height
                    + line_height) by (nonlinear_arith);
            }
            out.push(TextLine { start, end: j, x, y: cur_y });
            start = j + 1;
            cur_y = cur_y + line_height;
        }
        j = j + 1;
    }
    proof {
        lemma_prod_bound(out@.len() as int, line_height as int, 1048577, 16384);
    }
    out.push(TextLine { start, end: n, x, y: cur_y });
    out
}

} // verus!
