//! The interactive session protocol, and the export, settings, hotkey
//! and text-layout helpers.

use rusty_capture::color::Rgba;
use rusty_capture::error::ScreenShotError;
use rusty_capture::export::{extension, save_file_name, ImageFormat, Timestamp};
use rusty_capture::hotkey::{shortcut_enabled, ActiveShortcuts, KeyType};
use rusty_capture::screenshot::Screenshot;
use rusty_capture::session::{crop_marquee_region, DrawingMode, PointerSample, ScreenshotStr, Shape};
use rusty_capture::settings::Settings;
use rusty_capture::text::layout_text;

fn solid(width: usize, height: usize, c: [u8; 4]) -> Vec<u8> {
    let mut bytes = Vec::new();
    for _ in 0..width * height {
        bytes.extend_from_slice(&c);
    }
    bytes
}

const RED: [u8; 4] = [255, 0, 0, 255];
const BLUE: [u8; 4] = [0, 0, 255, 255];

const RED_PX: Rgba = Rgba { r: 255, g: 0, b: 0, a: 255 };
const BLUE_PX: Rgba = Rgba { r: 0, g: 0, b: 255, a: 255 };

fn red_session(width: usize, height: usize) -> ScreenshotStr {
    let bytes = solid(width, height, RED);
    ScreenshotStr::new(Screenshot::new(width, height, &bytes).unwrap())
}

#[test]
fn rectangle_gesture_end_to_end() {
    let mut s = red_session(100, 100);
    // press plants the anchor
    assert_eq!(s.draw_rectangle(PointerSample::At(10, 10), true, 4, BLUE), None);
    assert_eq!(s.starting_point, Some((10, 10)));
    // dragging previews without finishing
    assert_eq!(s.draw_rectangle(PointerSample::At(50, 50), true, 4, BLUE), None);
    assert_eq!(s.starting_point, Some((10, 10)));
    // release finishes, commits and reports the pair
    let done = s.draw_rectangle(PointerSample::At(50, 50), false, 4, BLUE);
    assert_eq!(done, Some(((10, 10), (50, 50))));
    assert_eq!(s.starting_point, None);
    let img = s.screenshot.get_image();
    assert_eq!(img.get_pixel(30, 10), BLUE_PX);
    assert_eq!(img.get_pixel(30, 30), RED_PX);
    assert_eq!(img.get_pixel(0, 0), RED_PX);
    // the release committed: rolling back keeps the border
    s.screenshot.rollback_changes();
    assert_eq!(s.screenshot.get_image().get_pixel(30, 10), BLUE_PX);
}

#[test]
fn rectangle_gesture_abandons_offscreen() {
    let mut s = red_session(100, 100);
    s.draw_rectangle(PointerSample::At(10, 10), true, 4, BLUE);
    s.draw_rectangle(PointerSample::At(50, 50), true, 4, BLUE);
    // the pointer leaves the image: the preview is rolled back
    assert_eq!(s.draw_rectangle(PointerSample::Unmapped, true, 4, BLUE), None);
    assert_eq!(s.starting_point, None);
    let img = s.screenshot.get_image();
    assert_eq!(img.get_pixel(30, 10), RED_PX);
}

#[test]
fn erase_after_committed_rectangle_restores_red() {
    let mut s = red_session(100, 100);
    s.draw_rectangle(PointerSample::At(10, 10), true, 4, BLUE);
    let _ = s.draw_rectangle(PointerSample::At(50, 50), false, 4, BLUE);
    // erase at the spot the testable property names: the disc is red again
    assert!(s.erase(PointerSample::At(30, 30), true, 5));
    assert_eq!(s.screenshot.get_image().get_pixel(30, 30), RED_PX);
    // and erasing over the committed border restores the capture too
    assert!(s.erase(PointerSample::At(30, 10), true, 5));
    let img = s.screenshot.get_image();
    assert_eq!(img.get_pixel(30, 10), RED_PX);
    assert_eq!(img.get_pixel(45, 10), BLUE_PX);
}

#[test]
fn paint_gesture_draws_between_samples() {
    let mut s = red_session(40, 40);
    assert!(s.draw_paint(PointerSample::At(5, 20), true, 2, BLUE));
    assert_eq!(s.starting_point, Some((5, 20)));
    assert!(s.draw_paint(PointerSample::At(30, 20), true, 2, BLUE));
    // the anchor advanced to the latest sample
    assert_eq!(s.starting_point, Some((30, 20)));
    assert_eq!(s.screenshot.get_image().get_pixel(15, 20), BLUE_PX);
    // releasing clears the anchor without drawing
    assert!(s.draw_paint(PointerSample::At(30, 20), false, 2, BLUE));
    assert_eq!(s.starting_point, None);
}

#[test]
fn paint_keeps_anchor_without_pointer_but_drops_it_offscreen() {
    let mut s = red_session(40, 40);
    s.draw_paint(PointerSample::At(5, 20), true, 2, BLUE);
    assert!(!s.draw_paint(PointerSample::Absent, true, 2, BLUE));
    assert_eq!(s.starting_point, Some((5, 20)));
    assert!(!s.draw_paint(PointerSample::Unmapped, true, 2, BLUE));
    assert_eq!(s.starting_point, None);
}

#[test]
fn highlight_gesture_nudges_the_anchor() {
    let mut s = red_session(40, 40);
    s.draw_highlight(PointerSample::At(5, 20), true, 3, [0, 0, 0]);
    assert_eq!(s.starting_point, Some((5, 20)));
    s.draw_highlight(PointerSample::At(10, 20), true, 3, [0, 0, 0]);
    // the anchor advances one pixel towards the sample, not onto it
    assert_eq!(s.starting_point, Some((11, 20)));
    s.draw_highlight(PointerSample::At(8, 20), true, 3, [0, 0, 0]);
    assert_eq!(s.starting_point, Some((7, 20)));
    // an absent pointer clears the anchor for this tool
    assert!(!s.draw_highlight(PointerSample::Absent, true, 3, [0, 0, 0]));
    assert_eq!(s.starting_point, None);
}

#[test]
fn circle_gesture_commits_on_release() {
    let mut s = red_session(60, 60);
    s.draw_circle(PointerSample::At(30, 30), true, 2, BLUE);
    s.draw_circle(PointerSample::At(30, 40), true, 2, BLUE);
    s.draw_circle(PointerSample::At(30, 40), false, 2, BLUE);
    assert_eq!(s.starting_point, None);
    // radius 8 around (30, 30): the outline is blue, the centre is not
    let img = s.screenshot.get_image();
    assert_eq!(img.get_pixel(38, 30), BLUE_PX);
    assert_eq!(img.get_pixel(30, 30), RED_PX);
    // the release committed
    s.screenshot.rollback_changes();
    assert_eq!(s.screenshot.get_image().get_pixel(38, 30), BLUE_PX);
}

#[test]
fn arrow_gesture_reports_endpoints() {
    let mut s = red_session(60, 60);
    assert_eq!(s.draw_arrow(PointerSample::At(10, 30), true, 2, BLUE), None);
    assert_eq!(s.draw_arrow(PointerSample::At(40, 30), true, 2, BLUE), None);
    let done = s.draw_arrow(PointerSample::At(40, 30), false, 2, BLUE);
    assert_eq!(done, Some(((10, 30), (40, 30))));
    assert_eq!(s.screenshot.get_image().get_pixel(25, 30), BLUE_PX);
}

#[test]
fn toggle_drawing_mode_flips_the_selection() {
    let mut s = red_session(10, 10);
    assert_eq!(s.drawing_mode, None);
    s.toggle_drawing_mode(DrawingMode::Paint);
    assert_eq!(s.drawing_mode, Some(DrawingMode::Paint));
    assert!(s.show_image);
    s.toggle_drawing_mode(DrawingMode::Paint);
    assert_eq!(s.drawing_mode, None);
    s.toggle_drawing_mode(DrawingMode::Crop);
    assert_eq!(s.drawing_mode, Some(DrawingMode::Crop));
    assert_eq!(s.shape, Some(Shape::Rectangle));
}

#[test]
fn drawing_mode_names() {
    assert_eq!(DrawingMode::Paint.name(), "Paint");
    assert_eq!(DrawingMode::Highlight.name(), "Highlight");
    assert_eq!(DrawingMode::Crop.name(), "Crop");
}

#[test]
fn conversion_is_rate_limited() {
    let mut s = red_session(10, 10);
    assert_eq!(s.instant, 0);
    assert!(s.conversion(1));
    assert_eq!(s.instant, 5);
    assert!(!s.conversion(4));
    assert_eq!(s.instant, 5);
    assert!(s.conversion(6));
    assert_eq!(s.instant, 10);
}

#[test]
fn shortcut_policy_follows_the_application_state() {
    assert!(!shortcut_enabled(ActiveShortcuts::Pause, KeyType::Quick));
    assert!(!shortcut_enabled(ActiveShortcuts::Pause, KeyType::Save));
    assert!(shortcut_enabled(ActiveShortcuts::ScreenshotWaiting, KeyType::Quick));
    assert!(shortcut_enabled(ActiveShortcuts::ScreenshotWaiting, KeyType::NewScreenshot));
    assert!(!shortcut_enabled(ActiveShortcuts::ScreenshotWaiting, KeyType::Pen));
    assert!(shortcut_enabled(ActiveShortcuts::ScreenshotDone, KeyType::Rubber));
}

#[test]
fn default_settings_and_validation() {
    let s = Settings::default();
    assert_eq!(s.quick, "Q");
    assert_eq!(s.new_screenshot, "N");
    assert_eq!(s.save, "S");
    assert_eq!(s.pen, "P");
    assert_eq!(s.rubber, "R");
    assert_eq!(s.get_path(), "./");
    assert!(s.hotkeys_valid());
    let mut broken = Settings::default();
    broken.pen = String::new();
    assert!(!broken.hotkeys_valid());
}

#[test]
fn extensions_for_supported_formats_only() {
    assert_eq!(extension(ImageFormat::Png).unwrap(), "png");
    assert_eq!(extension(ImageFormat::Jpeg).unwrap(), "jpg");
    assert_eq!(extension(ImageFormat::Gif).unwrap(), "gif");
    assert_eq!(extension(ImageFormat::Bmp).unwrap_err(), ScreenShotError::UnsupportedFormat);
    assert_eq!(extension(ImageFormat::Tiff).unwrap_err(), ScreenShotError::UnsupportedFormat);
}

#[test]
fn save_file_name_follows_the_timestamp_pattern() {
    let ts = Timestamp { day: 7, month: 3, year: 2024, hour: 9, minute: 5, second: 30, milli: 42 };
    let name = save_file_name(true, ImageFormat::Png, ts).unwrap();
    assert_eq!(name, "screenshot-07-03-2024-09-05-30_042.png");
    assert_eq!(
        save_file_name(false, ImageFormat::Png, ts).unwrap_err(),
        ScreenShotError::NotADirectory,
    );
    assert_eq!(
        save_file_name(true, ImageFormat::Ico, ts).unwrap_err(),
        ScreenShotError::UnsupportedFormat,
    );
}

#[test]
fn text_layout_splits_on_newlines() {
    let text = b"ab\ncd\n\nx";
    let lines = layout_text(text, 4, 10, 7);
    assert_eq!(lines.len(), 4);
    assert_eq!((lines[0].start, lines[0].end, lines[0].x, lines[0].y), (0, 2, 4, 10));
    assert_eq!((lines[1].start, lines[1].end, lines[1].x, lines[1].y), (3, 5, 4, 17));
    assert_eq!((lines[2].start, lines[2].end, lines[2].x, lines[2].y), (6, 6, 4, 24));
    assert_eq!((lines[3].start, lines[3].end, lines[3].x, lines[3].y), (7, 8, 4, 31));
    let single = layout_text(b"hello", 0, 0, 12);
    assert_eq!(single.len(), 1);
    assert_eq!((single[0].start, single[0].end), (0, 5));
}

#[test]
fn crop_marquee_flow_end_to_end() {
    let mut s = red_session(100, 100);
    // the crop marquee reuses the rectangle routine at size 2 in white
    s.draw_rectangle(PointerSample::At(10, 10), true, 2, [255, 255, 255, 255]);
    s.draw_rectangle(PointerSample::At(50, 50), true, 2, [255, 255, 255, 255]);
    let pair = s.draw_rectangle(PointerSample::At(50, 50), false, 2, [255, 255, 255, 255]);
    let (start, end) = pair.unwrap();
    let (x, y, height, width) = crop_marquee_region(start, end);
    assert_eq!((x, y, height, width), (12, 12, 36, 36));
    s.screenshot.resize_image(x, y, height, width).unwrap();
    s.screenshot.save_intermediate_image();
    assert_eq!(s.screenshot.get_width(), 36);
    assert_eq!(s.screenshot.get_height(), 36);
}

#[test]
fn crop_marquee_region_clamps_negative_origins() {
    let (x, y, height, width) = crop_marquee_region((-7, 30), (20, -5));
    assert_eq!((x, y), (2, 2));
    assert_eq!((height, width), (31, 23));
}
