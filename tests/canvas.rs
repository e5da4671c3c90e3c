use justshow::canvas::{blend_pixel, set_pixel, Canvas, Color, Vector2};
use justshow::draw::{
    circle_blend_with_anti_aliasing, circle_replace, distance_squared, inside_circle,
    inside_rectangle, rectangle_blend, rectangle_replace, thin_dashed_line, thin_line, LineIter,
};

fn v(x: u32, y: u32) -> Vector2<u32> {
    Vector2 { x, y }
}

const RED: Color = Color { r: 255, g: 0, b: 0, a: 255 };
const CLEAR: Color = Color { r: 0, g: 0, b: 0, a: 0 };

#[test]
fn set_pixel_writes_bgra() {
    let mut buf = vec![0u8; 2 * 2 * 4];
    set_pixel(&mut buf, v(2, 2), 1, 1, Color { r: 1, g: 2, b: 3, a: 4 });
    assert_eq!(&buf[12..16], &[3, 2, 1, 4]);
    assert!(buf[..12].iter().all(|b| *b == 0));
}

#[test]
fn blend_pixel_half_red_over_clear() {
    let mut buf = vec![0u8; 4];
    blend_pixel(&mut buf, v(1, 1), 0, 0, Color { r: 255, g: 0, b: 0, a: 128 });
    assert_eq!(buf, vec![0, 0, 128, 128]);
}

#[test]
fn blend_over_opaque_background() {
    let old = Color { r: 0, g: 0, b: 255, a: 255 };
    let c = Color::blend(old, Color { r: 255, g: 0, b: 0, a: 51 });
    // 255 * 51 / 255 = 51; 255 * 204 / 255 = 204
    assert_eq!(c, Color { r: 51, g: 0, b: 204, a: 255 });
}

#[test]
fn blend_transparent_keeps_pixel() {
    let old = Color { r: 10, g: 20, b: 30, a: 40 };
    assert_eq!(Color::blend(old, Color { r: 255, g: 255, b: 255, a: 0 }), old);
}

#[test]
fn rectangle_replace_clips_to_canvas() {
    let mut c = Canvas::new(v(4, 3));
    rectangle_replace(&mut c, v(2, 1), v(5, 5), RED);
    for y in 0..3 {
        for x in 0..4 {
            let inside = x >= 2 && y >= 1;
            assert_eq!(c.pixel(x, y), if inside { RED } else { CLEAR }, "({x}, {y})");
        }
    }
}

#[test]
fn rectangle_empty_size_draws_nothing() {
    let mut c = Canvas::new(v(3, 3));
    rectangle_replace(&mut c, v(1, 1), v(0, 2), RED);
    assert!(c.buf.iter().all(|b| *b == 0));
}

#[test]
fn rectangle_blend_blends_inside_only() {
    let mut c = Canvas::new(v(3, 1));
    rectangle_replace(&mut c, v(0, 0), v(3, 1), Color { r: 0, g: 0, b: 255, a: 255 });
    rectangle_blend(&mut c, v(1, 0), v(1, 1), Color { r: 255, g: 0, b: 0, a: 51 });
    assert_eq!(c.pixel(0, 0), Color { r: 0, g: 0, b: 255, a: 255 });
    assert_eq!(c.pixel(1, 0), Color { r: 51, g: 0, b: 204, a: 255 });
    assert_eq!(c.pixel(2, 0), Color { r: 0, g: 0, b: 255, a: 255 });
}

#[test]
fn circle_replace_fills_disc_in_box() {
    let mut c = Canvas::new(v(10, 10));
    circle_replace(&mut c, v(5, 5), 2, RED);
    for y in 0..10u32 {
        for x in 0..10u32 {
            let in_box = (3..7).contains(&x) && (3..7).contains(&y);
            let dx = x as i32 - 5;
            let dy = y as i32 - 5;
            let inside = in_box && dx * dx + dy * dy <= 4;
            assert_eq!(c.pixel(x, y), if inside { RED } else { CLEAR }, "({x}, {y})");
        }
    }
    assert_eq!(c.pixel(3, 5), RED);
    assert_eq!(c.pixel(7, 5), CLEAR);
}

#[test]
fn circle_near_origin_is_clipped() {
    let mut c = Canvas::new(v(4, 4));
    circle_replace(&mut c, v(0, 0), 2, RED);
    assert_eq!(c.pixel(0, 0), RED);
    assert_eq!(c.pixel(2, 0), RED);
    assert_eq!(c.pixel(2, 2), CLEAR);
}

#[test]
fn circle_anti_aliasing_coverage() {
    let mut c = Canvas::new(v(20, 20));
    circle_blend_with_anti_aliasing(&mut c, v(10, 10), 2, RED);
    // every sample of the centre pixel is inside
    assert_eq!(c.pixel(10, 10), RED);
    // three of nine samples of the corner pixel are inside: alpha 255 * 3 / 9
    assert_eq!(c.pixel(8, 8), Color { r: 85, g: 0, b: 0, a: 85 });
    // outside the box nothing changes
    assert_eq!(c.pixel(12, 10), CLEAR);
    assert_eq!(c.pixel(7, 10), CLEAR);
}

#[test]
fn distance_squared_values() {
    assert_eq!(distance_squared(v(1, 2), v(4, 6)), 25);
    assert_eq!(distance_squared(v(4, 6), v(1, 2)), 25);
    assert_eq!(distance_squared(v(7, 7), v(7, 7)), 0);
}

#[test]
fn inside_circle_edge_counts() {
    assert!(inside_circle(v(0, 0), 5, v(3, 4)));
    assert!(!inside_circle(v(0, 0), 4, v(3, 4)));
}

#[test]
fn inside_rectangle_includes_edges() {
    assert!(inside_rectangle(v(1, 1), v(2, 2), v(3, 3)));
    assert!(inside_rectangle(v(1, 1), v(2, 2), v(1, 1)));
    assert!(!inside_rectangle(v(1, 1), v(2, 2), v(4, 2)));
    assert!(!inside_rectangle(v(1, 1), v(2, 2), v(0, 2)));
}

fn collect(start: Vector2<u32>, end: Vector2<u32>) -> Vec<(u32, u32)> {
    let mut it = LineIter::new(start, end);
    let mut out = Vec::new();
    while let Some(p) = it.next() {
        out.push(p);
    }
    out
}

#[test]
fn line_points_shallow() {
    assert_eq!(collect(v(0, 0), v(4, 2)), vec![(0, 0), (1, 0), (2, 1), (3, 1), (4, 2)]);
    assert_eq!(collect(v(4, 2), v(0, 0)), vec![(0, 0), (1, 0), (2, 1), (3, 1), (4, 2)]);
}

#[test]
fn line_points_steep_and_degenerate() {
    assert_eq!(collect(v(1, 3), v(0, 0)), vec![(0, 0), (0, 1), (0, 2), (1, 3)]);
    assert_eq!(collect(v(2, 2), v(2, 2)), vec![]);
}

#[test]
fn thin_line_draws_points_on_canvas() {
    let mut c = Canvas::new(v(3, 3));
    thin_line(&mut c, v(0, 0), v(4, 2), RED);
    assert_eq!(c.pixel(0, 0), RED);
    assert_eq!(c.pixel(1, 0), RED);
    assert_eq!(c.pixel(2, 1), RED);
    assert_eq!(c.pixel(2, 0), CLEAR);
    assert_eq!(c.pixel(1, 1), CLEAR);
}

#[test]
fn dashed_line_alternates_ten_and_ten() {
    let mut c = Canvas::new(v(40, 1));
    thin_dashed_line(&mut c, v(0, 0), v(29, 0), RED);
    for x in 0..40 {
        let on = x < 10 || (20..30).contains(&x);
        assert_eq!(c.pixel(x, 0), if on { RED } else { CLEAR }, "x = {x}");
    }
}

#[test]
fn dashed_line_counts_only_visible_points() {
    let mut c = Canvas::new(v(15, 15));
    // the walk goes from y = 0 down; the points below the canvas are not drawn
    thin_dashed_line(&mut c, v(5, 20), v(5, 0), RED);
    for y in 0..15 {
        assert_eq!(c.pixel(5, y), if y < 10 { RED } else { CLEAR }, "y = {y}");
    }
}

use justshow::bdf::FontBoundingBox;
use justshow::draw::{glyph_bdf, text_bdf_width};

#[test]
fn text_width_sums_scaled_glyphs() {
    assert_eq!(text_bdf_width(&vec![3, 5], 2), 24);
    assert_eq!(text_bdf_width(&vec![], 7), 0);
    assert_eq!(text_bdf_width(&vec![0], 1), 2);
}

fn bbox(width: u32, height: u32, x_off: i32, y_off: i32) -> FontBoundingBox {
    FontBoundingBox { width, height, x_off, y_off }
}

#[test]
fn glyph_cells_are_drawn_right_to_left() {
    let mut c = Canvas::new(v(10, 10));
    glyph_bdf(&mut c, v(0, 0), 1, bbox(2, 1, 0, 0), &vec![0b0000_0011], RED);
    for y in 0..10 {
        for x in 0..10 {
            let on = y == 6 && (x == 7 || x == 8);
            assert_eq!(c.pixel(x, y), if on { RED } else { CLEAR }, "({x}, {y})");
        }
    }
}

#[test]
fn glyph_cells_scale_with_size() {
    let mut c = Canvas::new(v(20, 20));
    glyph_bdf(&mut c, v(0, 0), 2, bbox(2, 1, 0, 0), &vec![0b0000_0001], RED);
    let mut on = 0;
    for y in 0..20 {
        for x in 0..20 {
            if c.pixel(x, y) == RED {
                on += 1;
                assert!((16..18).contains(&x) && (12..14).contains(&y), "({x}, {y})");
            }
        }
    }
    assert_eq!(on, 4);
}

#[test]
fn glyph_cells_left_of_origin_are_skipped() {
    let mut c = Canvas::new(v(10, 10));
    glyph_bdf(&mut c, v(0, 0), 1, bbox(2, 1, 10, 0), &vec![0b1000_0001], RED);
    // cell 0 would sit at x = -2; cell 7 at x = -9
    assert!(c.buf.iter().all(|b| *b == 0));
    glyph_bdf(&mut c, v(0, 0), 1, bbox(2, 1, 6, 0), &vec![0b0000_0001], RED);
    assert_eq!(c.pixel(2, 6), RED);
}

#[test]
fn set_pixel_in_longer_buffer() {
    let mut buf = vec![9u8; 2 * 1 * 4 + 3];
    set_pixel(&mut buf, v(2, 1), 1, 0, Color { r: 1, g: 2, b: 3, a: 4 });
    assert_eq!(buf, vec![9, 9, 9, 9, 3, 2, 1, 4, 9, 9, 9]);
    blend_pixel(&mut buf, v(2, 1), 0, 0, Color { r: 0, g: 0, b: 0, a: 0 });
    assert_eq!(&buf[..4], &[9, 9, 9, 9]);
}

#[test]
fn circle_with_large_radius() {
    let mut c = Canvas::new(v(4, 4));
    circle_replace(&mut c, v(40000, 40000), 30000, RED);
    // the box starts at 10000, beyond this canvas
    assert!(c.buf.iter().all(|b| *b == 0));
    let mut c = Canvas::new(v(3, 3));
    circle_replace(&mut c, v(1, 1), 30000, RED);
    assert_eq!(c.pixel(2, 2), RED);
    let mut c = Canvas::new(v(3, 3));
    circle_blend_with_anti_aliasing(&mut c, v(1, 1), 30000, RED);
    assert_eq!(c.pixel(0, 0), RED);
}

#[test]
fn equal_endpoints_draw_nothing() {
    let mut c = Canvas::new(v(3, 3));
    thin_line(&mut c, v(0x9000_0000, 1), v(0x9000_0000, 1), RED);
    thin_dashed_line(&mut c, v(1, 1), v(1, 1), RED);
    thin_line(&mut c, v(2, 2), v(2, 2), RED);
    assert!(c.buf.iter().all(|b| *b == 0));
}

#[test]
fn glyph_at_large_scale_and_size_zero() {
    let mut c = Canvas::new(v(4, 4));
    // square at x = 8 * 40000, off this canvas
    glyph_bdf(&mut c, v(0, 0), 40000, bbox(1, 1, 0, 0), &vec![1], RED);
    assert!(c.buf.iter().all(|b| *b == 0));
    glyph_bdf(&mut c, v(0, 0), 0, bbox(0x8000, 1, 0, 0), &vec![0xff; 0x1000], RED);
    assert!(c.buf.iter().all(|b| *b == 0));
    // x_off shifts the square back onto the canvas: 0 + (8 - 7) * 3 = 3
    glyph_bdf(&mut c, v(0, 0), 3, bbox(1, 1, 7, 6), &vec![1], RED);
    assert_eq!(c.pixel(3, 0), RED);
    assert_eq!(c.pixel(2, 0), CLEAR);
}
