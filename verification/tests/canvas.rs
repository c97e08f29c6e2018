//! Canvas lifecycle: capture, commit, rollback, crop, rotate, blending.

use rusty_capture::buffer::RasterBuffer;
use rusty_capture::color::Rgba;
use rusty_capture::error::ScreenShotError;
use rusty_capture::screenshot::Screenshot;

fn solid(width: usize, height: usize, c: [u8; 4]) -> Vec<u8> {
    let mut bytes = Vec::new();
    for _ in 0..width * height {
        bytes.extend_from_slice(&c);
    }
    bytes
}

fn px(r: u8, g: u8, b: u8, a: u8) -> Rgba {
    Rgba { r, g, b, a }
}

const RED: [u8; 4] = [255, 0, 0, 255];
const BLUE: [u8; 4] = [0, 0, 255, 255];

#[test]
fn capture_makes_three_equal_buffers() {
    let bytes = solid(10, 10, RED);
    let mut shot = Screenshot::new(10, 10, &bytes).unwrap();
    let captured = shot.get_image();
    assert_eq!(captured.to_rgba_bytes(), bytes);
    // the checkpoint equals the capture: rolling back changes nothing
    shot.rollback_changes();
    assert!(shot.get_image().same_as(&captured));
    // the committed buffer equals the capture: erasing everywhere is a no-op
    shot.erase_point(5, 5, 20);
    assert!(shot.get_image().same_as(&captured));
}

#[test]
fn capture_rejects_wrong_byte_count() {
    let bytes = solid(10, 10, RED);
    match Screenshot::new(10, 9, &bytes) {
        Err(e) => assert_eq!(e, ScreenShotError::Capture),
        Ok(_) => panic!("capture accepted a mismatched byte stream"),
    }
}

#[test]
fn capture_rejects_oversized_dimensions() {
    let bytes = Vec::new();
    match Screenshot::new(20000, 1, &bytes) {
        Err(e) => assert_eq!(e, ScreenShotError::Capture),
        Ok(_) => panic!("capture accepted an oversized image"),
    }
}

#[test]
fn new_empty_has_no_pixels() {
    let shot = Screenshot::new_empty();
    assert_eq!(shot.get_width(), 0);
    assert_eq!(shot.get_height(), 0);
    assert_eq!(shot.get_image().to_rgba_bytes().len(), 0);
}

#[test]
fn rollback_is_idempotent() {
    let bytes = solid(20, 20, RED);
    let mut shot = Screenshot::new(20, 20, &bytes).unwrap();
    shot.draw_line((2, 10), (18, 10), BLUE, 3);
    shot.rollback_changes();
    let once = shot.get_image();
    shot.rollback_changes();
    let twice = shot.get_image();
    assert!(once.same_as(&twice));
    assert_eq!(once.to_rgba_bytes(), bytes);
}

#[test]
fn commit_then_rollback_is_noop_on_working() {
    let bytes = solid(20, 20, RED);
    let mut shot = Screenshot::new(20, 20, &bytes).unwrap();
    shot.draw_line((2, 10), (18, 10), BLUE, 3);
    let before = shot.get_image();
    shot.save_intermediate_image();
    shot.rollback_changes();
    assert!(shot.get_image().same_as(&before));
}

#[test]
fn crop_rejects_negative_and_oversized_regions() {
    let bytes = solid(100, 100, RED);
    let mut shot = Screenshot::new(100, 100, &bytes).unwrap();
    shot.draw_line((10, 50), (90, 50), BLUE, 2);
    let before = shot.get_image();

    assert_eq!(shot.resize_image(0, 0, -1, 10).unwrap_err(), ScreenShotError::InvalidRegion);
    assert_eq!(shot.resize_image(0, 0, 10, -3).unwrap_err(), ScreenShotError::InvalidRegion);
    assert_eq!(shot.resize_image(0, 0, 101, 10).unwrap_err(), ScreenShotError::InvalidRegion);
    assert_eq!(shot.resize_image(95, 0, 10, 10).unwrap_err(), ScreenShotError::InvalidRegion);

    // the working buffer is untouched by the failed crops
    assert!(shot.get_image().same_as(&before));
    // the checkpoint is untouched: rolling back restores the capture
    shot.rollback_changes();
    assert_eq!(shot.get_image().to_rgba_bytes(), bytes);
    // the committed buffer is untouched: erasing everywhere restores red
    shot.erase_point(50, 50, 200);
    assert_eq!(shot.get_image().to_rgba_bytes(), bytes);
}

#[test]
fn crop_resizes_working_and_committed_but_not_checkpoint() {
    let bytes = solid(100, 100, RED);
    let mut shot = Screenshot::new(100, 100, &bytes).unwrap();
    // resize_image takes (x, y, height, width)
    shot.resize_image(10, 20, 30, 40).unwrap();
    assert_eq!(shot.get_width(), 40);
    assert_eq!(shot.get_height(), 30);
    // the committed buffer was cropped in lock-step: erasing keeps the size
    shot.erase_point(20, 15, 100);
    assert_eq!(shot.get_width(), 40);
    // the checkpoint still has the old dimensions until the next commit
    shot.rollback_changes();
    assert_eq!(shot.get_width(), 100);
    assert_eq!(shot.get_height(), 100);
}

#[test]
fn crop_keeps_the_right_pixels() {
    let mut bytes = solid(4, 4, RED);
    // paint pixel (2, 1) blue in the raw stream
    let idx = (1 * 4 + 2) * 4;
    bytes[idx..idx + 4].copy_from_slice(&BLUE);
    let mut shot = Screenshot::new(4, 4, &bytes).unwrap();
    shot.resize_image(1, 1, 2, 3).unwrap();
    let img = shot.get_image();
    assert_eq!(img.width(), 3);
    assert_eq!(img.height(), 2);
    assert_eq!(img.get_pixel(1, 0), px(0, 0, 255, 255));
    assert_eq!(img.get_pixel(0, 0), px(255, 0, 0, 255));
}

#[test]
fn rotations_move_pixels_a_quarter_turn() {
    // a 2x1 image: A on the left, B on the right
    let a = [1, 2, 3, 255];
    let b = [4, 5, 6, 255];
    let mut bytes = Vec::new();
    bytes.extend_from_slice(&a);
    bytes.extend_from_slice(&b);
    let mut shot = Screenshot::new(2, 1, &bytes).unwrap();
    shot.rotate_sx_90();
    let cw = shot.get_image();
    assert_eq!((cw.width(), cw.height()), (1, 2));
    assert_eq!(cw.get_pixel(0, 0), px(1, 2, 3, 255));
    assert_eq!(cw.get_pixel(0, 1), px(4, 5, 6, 255));
    // turning back the other way restores the row
    shot.rotate_dx_90();
    let back = shot.get_image();
    assert_eq!((back.width(), back.height()), (2, 1));
    assert_eq!(back.get_pixel(0, 0), px(1, 2, 3, 255));
    assert_eq!(back.get_pixel(1, 0), px(4, 5, 6, 255));
}

#[test]
fn blend_colors_keeps_background_alpha() {
    let white = px(255, 255, 255, 255);
    let black_quarter = px(0, 0, 0, 64);
    assert_eq!(Screenshot::blend_colors(white, black_quarter), px(191, 191, 191, 255));

    let translucent_bg = px(10, 20, 30, 40);
    let transparent_fg = px(200, 200, 200, 0);
    assert_eq!(Screenshot::blend_colors(translucent_bg, transparent_fg), translucent_bg);

    let opaque_fg = px(7, 8, 9, 255);
    assert_eq!(Screenshot::blend_colors(translucent_bg, opaque_fg), px(7, 8, 9, 40));
}

#[test]
fn raster_buffer_round_trips_rgba_bytes() {
    let bytes = vec![1, 2, 3, 4, 5, 6, 7, 8, 9, 10, 11, 12];
    let buf = RasterBuffer::from_rgba_bytes(3, 1, &bytes).unwrap();
    assert_eq!(buf.to_rgba_bytes(), bytes);
    assert!(RasterBuffer::from_rgba_bytes(3, 2, &bytes).is_none());
}

#[test]
fn same_as_compares_dimensions_and_pixels() {
    let red = RasterBuffer::new_filled(3, 2, px(255, 0, 0, 255));
    let also_red = RasterBuffer::new_filled(3, 2, px(255, 0, 0, 255));
    let taller = RasterBuffer::new_filled(2, 3, px(255, 0, 0, 255));
    let blue = RasterBuffer::new_filled(3, 2, px(0, 0, 255, 255));
    assert!(red.same_as(&also_red));
    assert!(!red.same_as(&taller));
    assert!(!red.same_as(&blue));
}

#[test]
fn error_messages_name_the_failure() {
    assert_eq!(ScreenShotError::Capture.message(), "capture source cannot be read");
    assert_eq!(ScreenShotError::InvalidRegion.message(), "sizes are not compatible");
    assert_eq!(ScreenShotError::NotADirectory.message(), "Path is not a dir");
    assert_eq!(ScreenShotError::UnsupportedFormat.message(), "extension error");
    assert_eq!(ScreenShotError::Clipboard.message(), "clipboard is unavailable");
}
