//! The interactive tool session: one pointer sample per redraw tick is
//! fed to the active tool routine, which tracks the drag anchor, edits the
//! canvas and reports whether an interaction happened.

use vstd::prelude::*;

use crate::buffer::min_int;
use crate::raster::{iabs, POS_LIMIT, SIZE_LIMIT};
use crate::screenshot::{
    arrow_spec, circle_spec, commit_spec, draw_line_spec, erase_spec, highlight_spec,
    rectangle_spec, rollback_spec, Screenshot,
};

verus! {

/// The tool currently driving the canvas.
#[derive(Clone, Copy, Debug, PartialEq, Eq, Structural)]
pub enum DrawingMode {
    Paint,
    Highlight,
    Erase,
    Shape,
    Text,
    Pause,
    Crop,
}

impl DrawingMode {
    /// The tool's display name.
    pub fn name(&self) -> (out: &'static str)
        ensures
            out@ == mode_name_spec(*self),
    {
        match self {
            DrawingMode::Paint => "Paint",
            DrawingMode::Highlight => "Highlight",
            DrawingMode::Erase => "Erase",
            DrawingMode::Shape => "Shape",
            DrawingMode::Text => "Text",
            DrawingMode::Pause => "Pause",
            DrawingMode::Crop => "Crop",
        }
    }
}

/// The display name of each tool.
pub open spec fn mode_name_spec(m: DrawingMode) -> Seq<char> {
    match m {
        DrawingMode::Paint => "Paint"@,
        DrawingMode::Highlight => "Highlight"@,
        DrawingMode::Erase => "Erase"@,
        DrawingMode::Shape => "Shape"@,
        DrawingMode::Text => "Text"@,
        DrawingMode::Pause => "Pause"@,
        DrawingMode::Crop => "Crop"@,
    }
}

/// The shape drawn by the shape tool.
#[derive(Clone, Copy, Debug, PartialEq, Eq, Structural)]
pub enum Shape {
    Rectangle,
    Circle,
    Arrow,
}

/// One pointer sample in image-space coordinates, as handed over by the
/// window collaborator each redraw tick: no pointer at all, a pointer
/// outside the rendered image (the coordinate mapping failed), or a
/// mapped position.
#[derive(Clone, Copy, Debug, PartialEq, Eq, Structural)]
pub enum PointerSample {
    Absent,
    Unmapped,
    At(i64, i64),
}

/// Whether a mapped sample's position is within the supported coordinate
/// range (strictly, so that the highlight tool's one-pixel anchor nudge
/// stays in range too).
pub open spec fn sample_ok(s: PointerSample) -> bool {
    match s {
        PointerSample::At(x, y) => -POS_LIMIT < x < POS_LIMIT && -POS_LIMIT < y < POS_LIMIT,
        _ => true,
    }
}

/// Whether an anchor position is within the supported coordinate range.
pub open spec fn anchor_ok(a: Option<(i64, i64)>) -> bool {
    match a {
        Some(p) => -POS_LIMIT <= p.0 <= POS_LIMIT && -POS_LIMIT <= p.1 <= POS_LIMIT,
        None => true,
    }
}

/// The interactive annotation session: the canvas plus the drag state and
/// tool selection that drive it.
pub struct ScreenshotStr {
    pub screenshot: Screenshot,
    pub starting_point: Option<(i64, i64)>,
    pub drawing_mode: Option<DrawingMode>,
    pub shape: Option<Shape>,
    pub tool_color: [u8; 3],
    pub tool_size: i64,
    pub show_image: bool,
    pub instant: u64,
}

impl ScreenshotStr {
    /// The session is usable: the canvas is well-formed and the anchor,
    /// if set, is in range.
    pub open spec fn wf(self) -> bool {
        self.screenshot@.wf() && anchor_ok(self.starting_point)
    }

    /// Everything but the canvas and the anchor is unchanged.
    pub open spec fn same_tools(self, other: ScreenshotStr) -> bool {
        self.drawing_mode == other.drawing_mode && self.shape == other.shape && self.tool_color
            == other.tool_color && self.tool_size == other.tool_size && self.show_image
            == other.show_image && self.instant == other.instant
    }

    /// A fresh session around a captured canvas, with no gesture in
    /// progress and the defaults the application starts from.
    pub fn new(screenshot: Screenshot) -> (out: ScreenshotStr)
        ensures
            out.screenshot == screenshot,
            out.starting_point is None,
            out.drawing_mode is None,
            out.shape == Some(Shape::Rectangle),
            out.tool_color == [0u8, 0u8, 0u8],
            out.tool_size == 10,
            out.show_image == false,
            out.instant == 0,
    {
        ScreenshotStr {
            screenshot,
            starting_point: None,
            drawing_mode: None,
            shape: Some(Shape::Rectangle),
            tool_color: [0, 0, 0],
            tool_size: 10,
            show_image: false,
            instant: 0,
        }
    }

    /// Selects `mode`, or deselects it when it is already active, and
    /// turns the image display on.
    pub fn toggle_drawing_mode(&mut self, mode: DrawingMode)
        ensures
            final(self).drawing_mode == (if old(self).drawing_mode == Some(mode) {
                Option::<DrawingMode>::None
            } else {
                Some(mode)
            }),
            final(self).show_image == true,
            final(self).screenshot == old(self).screenshot,
            final(self).starting_point == old(self).starting_point,
            final(self).shape == old(self).shape,
            final(self).tool_color == old(self).tool_color,
            final(self).tool_size == old(self).tool_size,
            final(self).instant == old(self).instant,
    {
        if self.drawing_mode == Some(mode) {
            self.drawing_mode = None;
        } else {
            self.drawing_mode = Some(mode);
        }
        self.show_image = true;
    }

    /// The display-conversion rate limiter: reports whether a conversion
    /// is due at `now_ms` and, when it is, schedules the next one five
    /// milliseconds later.  This bounds conversion frequency no matter
    /// how often the drawing routines run.
    pub fn conversion(&mut self, now_ms: u64) -> (out: bool)
        requires
            old(self).instant <= 0xFFFF_FFFF_FFFF_0000,
        ensures
            out == (now_ms > old(self).instant),
            final(self).instant == (if now_ms > old(self).instant {
                old(self).instant + 5
            } else {
                old(self).instant as int
            }),
            final(self).screenshot == old(self).screenshot,
            final(self).starting_point == old(self).starting_point,
            final(self).drawing_mode == old(self).drawing_mode,
            final(self).shape == old(self).shape,
            final(self).tool_color == old(self).tool_color,
            final(self).tool_size == old(self).tool_size,
            final(self).show_image == old(self).show_image,
    {
        if now_ms > self.instant {
            self.instant = self.instant + 5;
            true
        } else {
            false
        }
    }

    /// The freehand stroke tool, fed one pointer sample.  While the
    /// pointer is down, each mapped sample draws a stroke from the anchor
    /// to the sample and advances the anchor; the first sample only
    /// plants the anchor.  Releasing clears the anchor; a sample outside
    /// the image clears it too.  Returns whether the pointer interacted
    /// with the image.
    pub fn draw_paint(&mut self, pointer: PointerSample, down: bool, size: i64, color: [u8; 4])
        -> (out: bool)
        requires
            old(self).wf(),
            sample_ok(pointer),
            0 <= size <= SIZE_LIMIT,
        ensures
            final(self).wf(),
            final(self).same_tools(*old(self)),
            final(self).screenshot@.committed == old(self).screenshot@.committed,
            final(self).screenshot@.checkpoint == old(self).screenshot@.checkpoint,
            out == (pointer is At),
            pointer is Absent ==> final(self).screenshot@ == old(self).screenshot@ && final(self).starting_point == old(self).starting_point,
            pointer is Unmapped ==> final(self).screenshot@ == old(self).screenshot@ && final(self).starting_point is None,
            pointer matches PointerSample::At(x, y) ==> {
                if !down {
                    final(self).screenshot@ == old(self).screenshot@ && final(self).starting_point is None
                } else if old(self).starting_point is None {
                    final(self).screenshot@ == old(self).screenshot@ && final(self).starting_point
                        == Some((x, y))
                } else {
                    final(self).screenshot@ == draw_line_spec(
                        old(self).screenshot@,
                        old(self).starting_point->0,
                        (x, y),
                        color,
                        size,
                    ) && final(self).starting_point == Some((x, y))
                }
            },
    {
        match pointer {
            PointerSample::Absent => false,
            PointerSample::Unmapped => {
                self.starting_point = None;
                false
            },
            PointerSample::At(x, y) => {
                if down {
                    match self.starting_point {
                        None => {
                            self.starting_point = Some((x, y));
                        },
                        Some(anchor) => {
                            self.screenshot.draw_line(anchor, (x, y), color, size);
                            self.starting_point = Some((x, y));
                        },
                    }
                } else {
                    self.starting_point = None;
                }
                true
            },
        }
    }

    /// The highlight tool.  Like the freehand stroke, but each stroke is
    /// stamped translucently through an overlay, and the anchor advances
    /// by one pixel horizontally (towards the sample) instead of jumping
    /// to it, producing a dense stripe.  An absent pointer also clears
    /// the anchor.
    pub fn draw_highlight(&mut self, pointer: PointerSample, down: bool, size: i64, color: [u8; 3])
        -> (out: bool)
        requires
            old(self).wf(),
            sample_ok(pointer),
            0 <= size <= SIZE_LIMIT,
        ensures
            final(self).wf(),
            final(self).same_tools(*old(self)),
            final(self).screenshot@.committed == old(self).screenshot@.committed,
            final(self).screenshot@.checkpoint == old(self).screenshot@.checkpoint,
            out == (pointer is At),
            !(pointer is At) ==> final(self).screenshot@ == old(self).screenshot@ && final(self).starting_point is None,
            pointer matches PointerSample::At(x, y) ==> {
                if !down {
                    final(self).screenshot@ == old(self).screenshot@ && final(self).starting_point is None
                } else if old(self).starting_point is None {
                    final(self).screenshot@ == old(self).screenshot@ && final(self).starting_point
                        == Some((x, y))
                } else {
                    let a = old(self).starting_point->0;
                    final(self).screenshot@ == highlight_spec(
                        old(self).screenshot@,
                        a,
                        (x, y),
                        size,
                        color,
                    ) && final(self).starting_point == Some(
                        (((if a.0 > x {
                            x - 1
                        } else {
                            x + 1
                        }) as i64), y),
                    )
                }
            },
    {
        match pointer {
            PointerSample::Absent => {
                self.starting_point = None;
                false
            },
            PointerSample::Unmapped => {
                self.starting_point = None;
                false
            },
            PointerSample::At(x, y) => {
                if down {
                    match self.starting_point {
                        None => {
                            self.starting_point = Some((x, y));
                        },
                        Some(anchor) => {
                            self.screenshot.highlight_line(anchor, (x, y), size, color);
                            let dx: i64 = if anchor.0 > x {
                                -1
                            } else {
                                1
                            };
                            self.starting_point = Some((x + dx, y));
                        },
                    }
                } else {
                    self.starting_point = None;
                }
                true
            },
        }
    }

    /// The erase tool: while the pointer is down, each mapped sample
    /// restores the disc around it from the committed capture.  The
    /// anchor is untouched by mapped samples and cleared by the others.
    pub fn erase(&mut self, pointer: PointerSample, down: bool, size: i64) -> (out: bool)
        requires
            old(self).wf(),
            sample_ok(pointer),
            0 <= size <= SIZE_LIMIT,
        ensures
            final(self).wf(),
            final(self).same_tools(*old(self)),
            final(self).screenshot@.committed == old(self).screenshot@.committed,
            final(self).screenshot@.checkpoint == old(self).screenshot@.checkpoint,
            out == (pointer is At),
            !(pointer is At) ==> final(self).screenshot@ == old(self).screenshot@ && final(self).starting_point is None,
            pointer matches PointerSample::At(x, y) ==> final(self).starting_point == old(self).starting_point && final(self).screenshot@ == (if down {
                erase_spec(old(self).screenshot@, x, y, size)
            } else {
                old(self).screenshot@
            }),
    {
        match pointer {
            PointerSample::Absent => {
                self.starting_point = None;
                false
            },
            PointerSample::Unmapped => {
                self.starting_point = None;
                false
            },
            PointerSample::At(x, y) => {
                if down {
                    self.screenshot.erase_point(x, y, size);
                }
                true
            },
        }
    }

    /// The rectangle preview tool.  Dragging redraws the preview from the
    /// checkpoint on every sample; releasing draws once more, commits,
    /// and returns the finalized `(start, end)` pair.  A sample away from
    /// the image abandons the gesture: the anchor is cleared and the
    /// working buffer rolled back.
    pub fn draw_rectangle(&mut self, pointer: PointerSample, down: bool, size: i64, color: [u8; 4])
        -> (out: Option<((i64, i64), (i64, i64))>)
        requires
            old(self).wf(),
            sample_ok(pointer),
            0 <= size <= SIZE_LIMIT,
        ensures
            final(self).wf(),
            final(self).same_tools(*old(self)),
            final(self).screenshot@.committed == old(self).screenshot@.committed,
            !(pointer is At) ==> final(self).screenshot@ == rollback_spec(old(self).screenshot@)
                && final(self).starting_point is None && out is None,
            pointer matches PointerSample::At(x, y) ==> {
                if down {
                    out is None && (if old(self).starting_point is None {
                        final(self).screenshot@ == old(self).screenshot@ && final(self).starting_point == Some((x, y))
                    } else {
                        final(self).screenshot@ == rectangle_spec(
                            old(self).screenshot@,
                            old(self).starting_point->0,
                            (x, y),
                            size,
                            color,
                        ) && final(self).starting_point == old(self).starting_point
                    })
                } else {
                    if old(self).starting_point is None {
                        final(self).screenshot@ == old(self).screenshot@ && final(self).starting_point is None && out is None
                    } else {
                        final(self).screenshot@ == commit_spec(
                            rectangle_spec(
                                old(self).screenshot@,
                                old(self).starting_point->0,
                                (x, y),
                                size,
                                color,
                            ),
                        ) && final(self).starting_point is None && out == Some(
                            (old(self).starting_point->0, (x, y)),
                        )
                    }
                }
            },
    {
        match pointer {
            PointerSample::At(x, y) => {
                if down {
                    match self.starting_point {
                        None => {
                            self.starting_point = Some((x, y));
                        },
                        Some(anchor) => {
                            self.screenshot.rectangle(anchor, (x, y), size, color);
                        },
                    }
                    None
                } else {
                    match self.starting_point {
                        None => None,
                        Some(anchor) => {
                            self.screenshot.rectangle(anchor, (x, y), size, color);
                            self.starting_point = None;
                            self.screenshot.save_intermediate_image();
                            Some((anchor, (x, y)))
                        },
                    }
                }
            },
            _ => {
                self.starting_point = None;
                self.screenshot.rollback_changes();
                None
            },
        }
    }

    /// The circle preview tool.  Dragging redraws from the checkpoint on
    /// every sample; releasing draws once more (when a gesture was in
    /// progress), clears the anchor and commits.  A sample away from the
    /// image abandons the gesture.
    pub fn draw_circle(&mut self, pointer: PointerSample, down: bool, size: i64, color: [u8; 4])
        requires
            old(self).wf(),
            sample_ok(pointer),
            0 <= size <= SIZE_LIMIT,
        ensures
            final(self).wf(),
            final(self).same_tools(*old(self)),
            final(self).screenshot@.committed == old(self).screenshot@.committed,
            !(pointer is At) ==> final(self).screenshot@ == rollback_spec(old(self).screenshot@)
                && final(self).starting_point is None,
            pointer matches PointerSample::At(x, y) ==> {
                if down {
                    if old(self).starting_point is None {
                        final(self).screenshot@ == old(self).screenshot@ && final(self).starting_point == Some((x, y))
                    } else {
                        final(self).screenshot@ == circle_spec(
                            old(self).screenshot@,
                            old(self).starting_point->0,
                            (x, y),
                            size,
                            color,
                        ) && final(self).starting_point == old(self).starting_point
                    }
                } else {
                    final(self).starting_point is None && final(self).screenshot@ == (if old(self).starting_point is None {
                        commit_spec(old(self).screenshot@)
                    } else {
                        commit_spec(
                            circle_spec(
                                old(self).screenshot@,
                                old(self).starting_point->0,
                                (x, y),
                                size,
                                color,
                            ),
                        )
                    })
                }
            },
    {
        match pointer {
            PointerSample::At(x, y) => {
                if down {
                    match self.starting_point {
                        None => {
                            self.starting_point = Some((x, y));
                        },
                        Some(anchor) => {
                            self.screenshot.circle(anchor, (x, y), size, color);
                        },
                    }
                } else {
                    match self.starting_point {
                        None => {},
                        Some(anchor) => {
                            self.screenshot.circle(anchor, (x, y), size, color);
                        },
                    }
                    self.starting_point = None;
                    self.screenshot.save_intermediate_image();
                }
            },
            _ => {
                self.starting_point = None;
                self.screenshot.rollback_changes();
            },
        }
    }

    /// The arrow preview tool, with the same protocol as the rectangle.
    pub fn draw_arrow(&mut self, pointer: PointerSample, down: bool, size: i64, color: [u8; 4])
        -> (out: Option<((i64, i64), (i64, i64))>)
        requires
            old(self).wf(),
            sample_ok(pointer),
            0 <= size <= SIZE_LIMIT,
        ensures
            final(self).wf(),
            final(self).same_tools(*old(self)),
            final(self).screenshot@.committed == old(self).screenshot@.committed,
            !(pointer is At) ==> final(self).screenshot@ == rollback_spec(old(self).screenshot@)
                && final(self).starting_point is None && out is None,
            pointer matches PointerSample::At(x, y) ==> {
                if down {
                    out is None && (if old(self).starting_point is None {
                        final(self).screenshot@ == old(self).screenshot@ && final(self).starting_point == Some((x, y))
                    } else {
                        final(self).screenshot@ == arrow_spec(
                            old(self).screenshot@,
                            old(self).starting_point->0,
                            (x, y),
                            size,
                            color,
                        ) && final(self).starting_point == old(self).starting_point
                    })
                } else {
                    if old(self).starting_point is None {
                        final(self).screenshot@ == old(self).screenshot@ && final(self).starting_point is None && out is None
                    } else {
                        final(self).screenshot@ == commit_spec(
                            arrow_spec(
                                old(self).screenshot@,
                                old(self).starting_point->0,
                                (x, y),
                                size,
                                color,
                            ),
                        ) && final(self).starting_point is None && out == Some(
                            (old(self).starting_point->0, (x, y)),
                        )
                    }
                }
            },
    {
        match pointer {
            PointerSample::At(x, y) => {
                if down {
                    match self.starting_point {
                        None => {
                            self.starting_point = Some((x, y));
                        },
                        Some(anchor) => {
                            self.screenshot.arrow(anchor, (x, y), size, color);
                        },
                    }
                    None
                } else {
                    match self.starting_point {
                        None => None,
                        Some(anchor) => {
                            self.screenshot.arrow(anchor, (x, y), size, color);
                            self.starting_point = None;
                            self.screenshot.save_intermediate_image();
                            Some((anchor, (x, y)))
                        },
                    }
                }
            },
            _ => {
                self.starting_point = None;
                self.screenshot.rollback_changes();
                None
            },
        }
    }
}


/// `v`, or zero when `v` is negative.
pub open spec fn clamp0(v: int) -> int {
    if v < 0 {
        0
    } else {
        v
    }
}

/// Turns the pair a finished crop-marquee gesture reports into the
/// region handed to the crop call: the inner rectangle two pixels inside
/// the marquee, as `(x, y, height, width)`, with negative origins
/// clamped to zero.
pub fn crop_marquee_region(start: (i64, i64), end: (i64, i64)) -> (out: (u32, u32, i32, i32))
    requires
        -POS_LIMIT <= start.0 <= POS_LIMIT,
        -POS_LIMIT <= start.1 <= POS_LIMIT,
        -POS_LIMIT <= end.0 <= POS_LIMIT,
        -POS_LIMIT <= end.1 <= POS_LIMIT,
    ensures
        out.0 == clamp0(min_int(start.0 as int, end.0 as int)) + 2,
        out.1 == clamp0(min_int(start.1 as int, end.1 as int)) + 2,
        out.2 == iabs(start.1 - end.1) - 4,
        out.3 == iabs(start.0 - end.0) - 4,
{
    let min_x: i64 = if start.0 <= end.0 {
        start.0
    } else {
        end.0
    };
    let min_y: i64 = if start.1 <= end.1 {
        start.1
    } else {
        end.1
    };
    let clamped_x: i64 = if min_x < 0 {
        0
    } else {
        min_x
    };
    let clamped_y: i64 = if min_y < 0 {
        0
    } else {
        min_y
    };
    let height: i64 = if start.1 >= end.1 {
        start.1 - end.1
    } else {
        end.1 - start.1
    };
    let width: i64 = if start.0 >= end.0 {
        start.0 - end.0
    } else {
        end.0 - start.0
    };
    (
        (clamped_x + 2) as u32,
        (clamped_y + 2) as u32,
        (height - 4) as i32,
        (width - 4) as i32,
    )
}

} // verus!
