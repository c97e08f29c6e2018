//! The drawing tools: stroke, highlight, erase, point stamp, and the
//! rectangle, circle and arrow previews.

use rusty_capture::color::Rgba;
use rusty_capture::screenshot::Screenshot;

fn solid(width: usize, height: usize, c: [u8; 4]) -> Vec<u8> {
    let mut bytes = Vec::new();
    for _ in 0..width * height {
        bytes.extend_from_slice(&c);
    }
    bytes
}

fn px(r: u8, g: u8, b: u8, a: u8) -> Rgba {
    Rgba { r, g, b, a }
}

const RED: [u8; 4] = [255, 0, 0, 255];
const BLUE: [u8; 4] = [0, 0, 255, 255];
const WHITE: [u8; 4] = [255, 255, 255, 255];
const BLACK: [u8; 4] = [0, 0, 0, 255];

const RED_PX: Rgba = Rgba { r: 255, g: 0, b: 0, a: 255 };
const BLUE_PX: Rgba = Rgba { r: 0, g: 0, b: 255, a: 255 };
const BLACK_PX: Rgba = Rgba { r: 0, g: 0, b: 0, a: 255 };
const WHITE_PX: Rgba = Rgba { r: 255, g: 255, b: 255, a: 255 };

#[test]
fn draw_line_paints_the_stroke_band() {
    let bytes = solid(20, 20, WHITE);
    let mut shot = Screenshot::new(20, 20, &bytes).unwrap();
    shot.draw_line((5, 10), (15, 10), BLACK, 3);
    let img = shot.get_image();
    assert_eq!(img.get_pixel(5, 10), BLACK_PX);
    assert_eq!(img.get_pixel(10, 10), BLACK_PX);
    assert_eq!(img.get_pixel(15, 10), BLACK_PX);
    assert_eq!(img.get_pixel(10, 11), BLACK_PX);
    assert_eq!(img.get_pixel(10, 13), WHITE_PX);
    assert_eq!(img.get_pixel(4, 10), WHITE_PX);
    assert_eq!(img.get_pixel(16, 10), WHITE_PX);
}

#[test]
fn draw_line_between_equal_points_paints_nothing() {
    let bytes = solid(10, 10, WHITE);
    let mut shot = Screenshot::new(10, 10, &bytes).unwrap();
    shot.draw_line((5, 5), (5, 5), BLACK, 5);
    assert_eq!(shot.get_image().to_rgba_bytes(), bytes);
}

#[test]
fn draw_point_uses_the_tight_distance_test() {
    let bytes = solid(20, 20, WHITE);
    let mut shot = Screenshot::new(20, 20, &bytes).unwrap();
    shot.draw_point(10, 10, 3, BLACK);
    let img = shot.get_image();
    // squared distance is compared against the radius itself
    assert_eq!(img.get_pixel(10, 10), BLACK_PX);
    assert_eq!(img.get_pixel(11, 11), BLACK_PX); // 2 <= 3
    assert_eq!(img.get_pixel(10, 11), BLACK_PX); // 1 <= 3
    assert_eq!(img.get_pixel(12, 10), WHITE_PX); // 4 > 3
    assert_eq!(img.get_pixel(13, 13), WHITE_PX);
}

#[test]
fn draw_point_outside_the_image_is_a_noop() {
    let bytes = solid(10, 10, WHITE);
    let mut shot = Screenshot::new(10, 10, &bytes).unwrap();
    shot.draw_point(0, 5, 3, BLACK);
    shot.draw_point(12, 5, 3, BLACK);
    assert_eq!(shot.get_image().to_rgba_bytes(), bytes);
}

#[test]
fn highlight_blends_at_quarter_alpha() {
    let bytes = solid(20, 20, WHITE);
    let mut shot = Screenshot::new(20, 20, &bytes).unwrap();
    shot.highlight_line((2, 5), (15, 5), 3, [0, 0, 0]);
    let img = shot.get_image();
    // black at 64/255 over white gives 191 per channel, alpha untouched
    let blended = px(191, 191, 191, 255);
    assert_eq!(img.get_pixel(10, 5), blended);
    assert_eq!(img.get_pixel(10, 4), blended);
    assert_eq!(img.get_pixel(10, 3), blended);
    assert_eq!(img.get_pixel(10, 2), blended);
    assert_eq!(img.get_pixel(10, 6), WHITE_PX);
    assert_eq!(img.get_pixel(10, 1), WHITE_PX);
    assert_eq!(img.get_pixel(1, 5), WHITE_PX);
}

#[test]
fn erase_restores_the_original_capture() {
    let bytes = solid(100, 100, RED);
    let mut shot = Screenshot::new(100, 100, &bytes).unwrap();
    // draw and even commit a rectangle edit
    shot.rectangle((10, 10), (50, 50), 4, BLUE);
    shot.save_intermediate_image();
    assert_eq!(shot.get_image().get_pixel(30, 10), BLUE_PX);
    // erase over the border: the pixels go back to the capture,
    // reaching past the commit
    shot.erase_point(30, 10, 5);
    let img = shot.get_image();
    assert_eq!(img.get_pixel(30, 10), RED_PX);
    assert_eq!(img.get_pixel(28, 8), RED_PX);
    // outside the disc the committed edit stays
    assert_eq!(img.get_pixel(40, 10), BLUE_PX);
}

#[test]
fn erase_with_centre_outside_is_a_noop() {
    let bytes = solid(10, 10, RED);
    let mut shot = Screenshot::new(10, 10, &bytes).unwrap();
    shot.draw_line((1, 5), (8, 5), BLUE, 1);
    let before = shot.get_image();
    shot.erase_point(0, 5, 4);
    shot.erase_point(10, 5, 4);
    assert!(shot.get_image().same_as(&before));
}

#[test]
fn rectangle_preview_draws_a_hollow_border() {
    let bytes = solid(100, 100, RED);
    let mut shot = Screenshot::new(100, 100, &bytes).unwrap();
    shot.rectangle((10, 10), (50, 50), 4, BLUE);
    let img = shot.get_image();
    // rings at offsets -2..=2 give border rows 8..=12 and 47..=51
    assert_eq!(img.get_pixel(30, 8), BLUE_PX);
    assert_eq!(img.get_pixel(30, 10), BLUE_PX);
    assert_eq!(img.get_pixel(30, 12), BLUE_PX);
    assert_eq!(img.get_pixel(30, 49), BLUE_PX);
    assert_eq!(img.get_pixel(8, 30), BLUE_PX);
    assert_eq!(img.get_pixel(50, 30), BLUE_PX);
    // the interior and the outside stay red
    assert_eq!(img.get_pixel(30, 30), RED_PX);
    assert_eq!(img.get_pixel(30, 14), RED_PX);
    assert_eq!(img.get_pixel(0, 0), RED_PX);
    assert_eq!(img.get_pixel(99, 99), RED_PX);
}

#[test]
fn rectangle_preview_is_idempotent() {
    let bytes = solid(100, 100, RED);
    let mut shot = Screenshot::new(100, 100, &bytes).unwrap();
    shot.rectangle((10, 10), (50, 50), 4, BLUE);
    let once = shot.get_image();
    shot.rectangle((10, 10), (50, 50), 4, BLUE);
    let twice = shot.get_image();
    assert!(once.same_as(&twice));
}

#[test]
fn rectangle_preview_resets_from_the_checkpoint() {
    let bytes = solid(100, 100, RED);
    let mut shot = Screenshot::new(100, 100, &bytes).unwrap();
    shot.rectangle((10, 10), (50, 50), 4, BLUE);
    // a second preview elsewhere discards the first one entirely
    shot.rectangle((60, 60), (90, 90), 4, BLUE);
    let img = shot.get_image();
    assert_eq!(img.get_pixel(30, 10), RED_PX);
    assert_eq!(img.get_pixel(75, 60), BLUE_PX);
}

#[test]
fn circle_preview_draws_an_outline() {
    let bytes = solid(50, 50, RED);
    let mut shot = Screenshot::new(50, 50, &bytes).unwrap();
    // distance 10 from centre, so the base radius is 8
    shot.circle((25, 25), (25, 35), 2, BLUE);
    let img = shot.get_image();
    // (33, 25) is 8 to the right of the centre: squared distance 64 lies
    // in (64 - 8, 64 + 8], on the first pass's base ring
    assert_eq!(img.get_pixel(33, 25), BLUE_PX);
    assert_eq!(img.get_pixel(17, 25), BLUE_PX);
    // the centre and far corners stay red
    assert_eq!(img.get_pixel(25, 25), RED_PX);
    assert_eq!(img.get_pixel(0, 0), RED_PX);
    assert_eq!(img.get_pixel(49, 49), RED_PX);
}

#[test]
fn circle_preview_is_idempotent() {
    let bytes = solid(50, 50, RED);
    let mut shot = Screenshot::new(50, 50, &bytes).unwrap();
    shot.circle((25, 25), (25, 35), 3, BLUE);
    let once = shot.get_image();
    shot.circle((25, 25), (25, 35), 3, BLUE);
    let twice = shot.get_image();
    assert!(once.same_as(&twice));
}

#[test]
fn arrow_draws_body_and_filled_head() {
    let bytes = solid(50, 50, WHITE);
    let mut shot = Screenshot::new(50, 50, &bytes).unwrap();
    shot.arrow((10, 10), (30, 10), 2, BLACK);
    let img = shot.get_image();
    // the body runs along the stroke
    assert_eq!(img.get_pixel(20, 10), BLACK_PX);
    // the head is the filled triangle between (36,10), (30,14), (30,6)
    assert_eq!(img.get_pixel(32, 10), BLACK_PX);
    assert_eq!(img.get_pixel(30, 12), BLACK_PX);
    assert_eq!(img.get_pixel(35, 10), BLACK_PX);
    // beyond the tip it stays white
    assert_eq!(img.get_pixel(38, 10), WHITE_PX);
    assert_eq!(img.get_pixel(40, 20), WHITE_PX);
}

#[test]
fn arrow_preview_is_idempotent() {
    let bytes = solid(50, 50, WHITE);
    let mut shot = Screenshot::new(50, 50, &bytes).unwrap();
    shot.arrow((10, 10), (30, 25), 2, BLACK);
    let once = shot.get_image();
    shot.arrow((10, 10), (30, 25), 2, BLACK);
    let twice = shot.get_image();
    assert!(once.same_as(&twice));
}

#[test]
fn degenerate_arrow_paints_nothing() {
    let bytes = solid(20, 20, WHITE);
    let mut shot = Screenshot::new(20, 20, &bytes).unwrap();
    shot.arrow((5, 5), (5, 5), 3, BLACK);
    assert_eq!(shot.get_image().to_rgba_bytes(), bytes);
}
