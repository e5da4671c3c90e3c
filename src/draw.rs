use vstd::prelude::*;

use crate::bdf::FontBoundingBox;
use crate::canvas::{
    blend_pixel, blend_spec, lemma_put_pixel, pixel, pixel_offset, put_color, set_pixel, Canvas,
    Color, Vector2,
};

verus! {

/// What a pixel of colour `old` becomes when `color` is drawn on it, replacing or blending.
pub open spec fn paint(old: Color, color: Color, blend: bool) -> Color {
    if blend {
        blend_spec(old, color)
    } else {
        color
    }
}

/// `(x, y)` lies in the rectangle with top-left corner `position` and extent `size`.
pub open spec fn in_rect(position: Vector2<u32>, size: Vector2<u32>, x: int, y: int) -> bool {
    position.x <= x < position.x + size.x && position.y <= y < position.y + size.y
}

fn paint_pixel(canvas: &mut Canvas, x: u32, y: u32, color: Color, blend: bool)
    requires
        old(canvas).wf(),
        x < old(canvas).window_size.x,
        y < old(canvas).window_size.y,
    ensures
        final(canvas).wf(),
        final(canvas).window_size == old(canvas).window_size,
        final(canvas).pixel_spec(x as int, y as int) == paint(
            old(canvas).pixel_spec(x as int, y as int),
            color,
            blend,
        ),
        forall|x2: int, y2: int|
            0 <= x2 < old(canvas).window_size.x && 0 <= y2 < old(canvas).window_size.y && (x2
                != x || y2 != y) ==> #[trigger] final(canvas).pixel_spec(x2, y2) == old(
                canvas,
            ).pixel_spec(x2, y2),
{
    let ws = canvas.window_size;
    let ghost prev = canvas.buf@;
    let ghost c = paint(pixel(prev, ws.x as int, x as int, y as int), color, blend);
    if blend {
        blend_pixel(canvas.buf.as_mut_slice(), ws, x, y, color);
    } else {
        set_pixel(canvas.buf.as_mut_slice(), ws, x, y, color);
    }
    proof {
        lemma_put_pixel(prev, ws, x as int, y as int, c);
    }
}

fn fill_rect(canvas: &mut Canvas, position: Vector2<u32>, size: Vector2<u32>, color: Color, blend: bool)
    requires
        old(canvas).wf(),
        position.x + size.x <= u32::MAX,
        position.y + size.y <= u32::MAX,
    ensures
        final(canvas).wf(),
        final(canvas).window_size == old(canvas).window_size,
        forall|x: int, y: int|
            0 <= x < old(canvas).window_size.x && 0 <= y < old(canvas).window_size.y
                ==> #[trigger] final(canvas).pixel_spec(x, y) == if in_rect(position, size, x, y) {
                paint(old(canvas).pixel_spec(x, y), color, blend)
            } else {
                old(canvas).pixel_spec(x, y)
            },
{
    let ws = canvas.window_size;
    let ghost orig = canvas.buf@;
    let ey: u32 = if position.y + size.y < ws.y { position.y + size.y } else { ws.y };
    let ex: u32 = if position.x + size.x < ws.x { position.x + size.x } else { ws.x };
    let mut cy: u32 = position.y;
    while cy < ey
        invariant
            canvas.wf(),
            canvas.window_size == ws,
            ws == old(canvas).window_size,
            orig == old(canvas).buf@,
            position.y <= cy,
            ey <= ws.y,
            ey <= position.y + size.y,
            ex <= ws.x,
            ex <= position.x + size.x,
            ey == ws.y || ey == position.y + size.y,
            ex == ws.x || ex == position.x + size.x,
            forall|x: int, y: int|
                0 <= x < ws.x && 0 <= y < ws.y ==> #[trigger] canvas.pixel_spec(x, y) == if in_rect(
                    position,
                    size,
                    x,
                    y,
                ) && y < cy {
                    paint(pixel(orig, ws.x as int, x, y), color, blend)
                } else {
                    pixel(orig, ws.x as int, x, y)
                },
        decreases ey - cy,
    {
        let mut cx: u32 = position.x;
        while cx < ex
            invariant
                canvas.wf(),
                canvas.window_size == ws,
                position.y <= cy < ey,
                ey <= ws.y,
                ex <= ws.x,
                ex <= position.x + size.x,
                ey <= position.y + size.y,
                position.x <= cx,
                forall|x: int, y: int|
                    0 <= x < ws.x && 0 <= y < ws.y ==> #[trigger] canvas.pixel_spec(x, y)
                        == if in_rect(position, size, x, y) && (y < cy || (y == cy && x < cx)) {
                        paint(pixel(orig, ws.x as int, x, y), color, blend)
                    } else {
                        pixel(orig, ws.x as int, x, y)
                    },
            decreases ex - cx,
        {
            paint_pixel(canvas, cx, cy, color, blend);
            cx = cx + 1;
        }
        cy = cy + 1;
    }
}

/// Sets every pixel of the rectangle at `position` of extent `size` that lies
/// on the canvas to `color`.
pub fn rectangle_replace(canvas: &mut Canvas, position: Vector2<u32>, size: Vector2<u32>, color: Color)
    requires
        old(canvas).wf(),
        position.x + size.x <= u32::MAX,
        position.y + size.y <= u32::MAX,
    ensures
        final(canvas).wf(),
        final(canvas).window_size == old(canvas).window_size,
        forall|x: int, y: int|
            0 <= x < old(canvas).window_size.x && 0 <= y < old(canvas).window_size.y
                ==> #[trigger] final(canvas).pixel_spec(x, y) == if in_rect(position, size, x, y) {
                color
            } else {
                old(canvas).pixel_spec(x, y)
            },
{
    fill_rect(canvas, position, size, color, false);
}

/// Composites `color` over every pixel of the rectangle at `position` of extent
/// `size` that lies on the canvas.
pub fn rectangle_blend(canvas: &mut Canvas, position: Vector2<u32>, size: Vector2<u32>, color: Color)
    requires
        old(canvas).wf(),
        position.x + size.x <= u32::MAX,
        position.y + size.y <= u32::MAX,
    ensures
        final(canvas).wf(),
        final(canvas).window_size == old(canvas).window_size,
        forall|x: int, y: int|
            0 <= x < old(canvas).window_size.x && 0 <= y < old(canvas).window_size.y
                ==> #[trigger] final(canvas).pixel_spec(x, y) == if in_rect(position, size, x, y) {
                blend_spec(old(canvas).pixel_spec(x, y), color)
            } else {
                old(canvas).pixel_spec(x, y)
            },
{
    fill_rect(canvas, position, size, color, true);
}

/// The squared Euclidean distance between two points.
pub open spec fn dist2(p1: Vector2<u32>, p2: Vector2<u32>) -> int {
    (p1.x - p2.x) * (p1.x - p2.x) + (p1.y - p2.y) * (p1.y - p2.y)
}

fn abs_diff(a: u32, b: u32) -> (r: u32)
    ensures
        r == if a >= b { a - b } else { b - a },
{
    if a >= b {
        a - b
    } else {
        b - a
    }
}

/// The squared distance between `p1` and `p2`.
pub fn distance_squared(p1: Vector2<u32>, p2: Vector2<u32>) -> (r: u32)
    requires
        dist2(p1, p2) <= u32::MAX,
    ensures
        r == dist2(p1, p2),
{
    let x_dist = abs_diff(p1.x, p2.x);
    let y_dist = abs_diff(p1.y, p2.y);
    proof {
        assert(x_dist * x_dist == (p1.x - p2.x) * (p1.x - p2.x)) by (nonlinear_arith)
            requires
                x_dist == p1.x - p2.x || x_dist == p2.x - p1.x,
        ;
        assert(y_dist * y_dist == (p1.y - p2.y) * (p1.y - p2.y)) by (nonlinear_arith)
            requires
                y_dist == p1.y - p2.y || y_dist == p2.y - p1.y,
        ;
        assert(0 <= x_dist * x_dist) by (nonlinear_arith);
        assert(0 <= y_dist * y_dist) by (nonlinear_arith);
    }
    x_dist * x_dist + y_dist * y_dist
}

/// `point` is at most `r` away from `center`.
pub fn inside_circle(center: Vector2<u32>, r: u32, point: Vector2<u32>) -> (res: bool)
    requires
        dist2(center, point) <= u32::MAX,
        r * r <= u32::MAX,
    ensures
        res == (dist2(center, point) <= r * r),
{
    distance_squared(center, point) <= r * r
}

/// `point` lies in the rectangle at `position` of extent `size`, edges included.
pub fn inside_rectangle(position: Vector2<u32>, size: Vector2<u32>, point: Vector2<u32>) -> (r: bool)
    requires
        position.x + size.x <= u32::MAX,
        position.y + size.y <= u32::MAX,
    ensures
        r == (position.x <= point.x <= position.x + size.x && position.y <= point.y <= position.y
            + size.y),
{
    point.x >= position.x && point.x <= position.x + size.x && point.y >= position.y && point.y
        <= size.y + position.y
}

/// `v - r`, or zero where that is negative.
pub open spec fn sat_sub(v: u32, r: u32) -> int {
    if v >= r {
        v - r
    } else {
        0
    }
}

/// `(x, y)` lies in the square of side `2 * r` whose top-left corner is `center`
/// moved up and left by `r`, clipped at zero.
pub open spec fn in_circle_box(center: Vector2<u32>, r: u32, x: int, y: int) -> bool {
    sat_sub(center.x, r) <= x < sat_sub(center.x, r) + 2 * r && sat_sub(center.y, r) <= y
        < sat_sub(center.y, r) + 2 * r
}

/// The pixels that `circle_replace` sets.
pub open spec fn in_circle(center: Vector2<u32>, r: u32, x: int, y: int) -> bool {
    in_circle_box(center, r, x, y) && (x - center.x) * (x - center.x) + (y - center.y) * (y
        - center.y) <= r * r
}

/// The square around the circle, clipped at zero, ends where `u32` coordinates can say.
pub open spec fn circle_fits(center: Vector2<u32>, r: u32) -> bool {
    sat_sub(center.x, r) + 2 * r <= u32::MAX && sat_sub(center.y, r) + 2 * r <= u32::MAX
}

fn abs_diff_wide(a: u32, b: u32) -> (r: u128)
    ensures
        r * r == (a - b) * (a - b),
        r <= u32::MAX,
{
    let d: u32 = abs_diff(a, b);
    proof {
        assert(d * d == (a - b) * (a - b)) by (nonlinear_arith)
            requires
                d == a - b || d == b - a,
        ;
    }
    d as u128
}

/// `(x, y)` is at most `r` away from `center`, computed without overflow.
fn within_radius(center: Vector2<u32>, r: u32, x: u32, y: u32) -> (res: bool)
    ensures
        res == ((x - center.x) * (x - center.x) + (y - center.y) * (y - center.y) <= r * r),
{
    let dx = abs_diff_wide(x, center.x);
    let dy = abs_diff_wide(y, center.y);
    proof {
        assert(dx * dx <= 0xffff_ffff * 0xffff_ffffu128) by (nonlinear_arith)
            requires
                0 <= dx <= 0xffff_ffff,
        ;
        assert(dy * dy <= 0xffff_ffff * 0xffff_ffffu128) by (nonlinear_arith)
            requires
                0 <= dy <= 0xffff_ffff,
        ;
        assert(r * r <= 0xffff_ffff * 0xffff_ffffu128) by (nonlinear_arith)
            requires
                0 <= r <= 0xffff_ffff,
        ;
        assert((x - center.x) * (x - center.x) == (center.x - x) * (center.x - x)) by (nonlinear_arith);
        assert((y - center.y) * (y - center.y) == (center.y - y) * (center.y - y)) by (nonlinear_arith);
        assert(0 <= dx * dx && 0 <= dy * dy) by (nonlinear_arith);
    }
    dx * dx + dy * dy <= r as u128 * r as u128
}

/// Sets every pixel of the square around `center` of side `2 * r` whose distance
/// to `center` is at most `r` to `color`.
pub fn circle_replace(ui: &mut Canvas, center: Vector2<u32>, r: u32, color: Color)
    requires
        old(ui).wf(),
        circle_fits(center, r),
    ensures
        final(ui).wf(),
        final(ui).window_size == old(ui).window_size,
        forall|x: int, y: int|
            0 <= x < old(ui).window_size.x && 0 <= y < old(ui).window_size.y
                ==> #[trigger] final(ui).pixel_spec(x, y) == if in_circle(center, r, x, y) {
                color
            } else {
                old(ui).pixel_spec(x, y)
            },
{
    let ws = ui.window_size;
    let ghost orig = ui.buf@;
    let x0: u32 = center.x.saturating_sub(r);
    let y0: u32 = center.y.saturating_sub(r);
    let ey: u32 = if y0 + r * 2 < ws.y { y0 + r * 2 } else { ws.y };
    let ex: u32 = if x0 + r * 2 < ws.x { x0 + r * 2 } else { ws.x };
    let mut cy: u32 = y0;
    while cy < ey
        invariant
            ui.wf(),
            ui.window_size == ws,
            ws == old(ui).window_size,
            orig == old(ui).buf@,
            circle_fits(center, r),
            x0 == sat_sub(center.x, r),
            y0 == sat_sub(center.y, r),
            y0 <= cy,
            ey <= ws.y,
            ex <= ws.x,
            ey == ws.y || ey == y0 + 2 * r,
            ex == ws.x || ex == x0 + 2 * r,
            ey <= y0 + 2 * r,
            ex <= x0 + 2 * r,
            forall|x: int, y: int|
                0 <= x < ws.x && 0 <= y < ws.y ==> #[trigger] ui.pixel_spec(x, y) == if in_circle(
                    center,
                    r,
                    x,
                    y,
                ) && y < cy {
                    color
                } else {
                    pixel(orig, ws.x as int, x, y)
                },
        decreases ey - cy,
    {
        let mut cx: u32 = x0;
        while cx < ex
            invariant
                ui.wf(),
                ui.window_size == ws,
                circle_fits(center, r),
                x0 == sat_sub(center.x, r),
                y0 == sat_sub(center.y, r),
                y0 <= cy < ey,
                ey <= ws.y,
                ex <= ws.x,
                ey <= y0 + 2 * r,
                ex <= x0 + 2 * r,
                x0 <= cx,
                forall|x: int, y: int|
                    0 <= x < ws.x && 0 <= y < ws.y ==> #[trigger] ui.pixel_spec(x, y) == if in_circle(
                        center,
                        r,
                        x,
                        y,
                    ) && (y < cy || (y == cy && x < cx)) {
                        color
                    } else {
                        pixel(orig, ws.x as int, x, y)
                    },
            decreases ex - cx,
        {
            if within_radius(center, r, cx, cy) {
                paint_pixel(ui, cx, cy, color, false);
            }
            cx = cx + 1;
        }
        cy = cy + 1;
    }
}

/// The sample at offset `(i, j)` (each in `0..3`) of the 3x3 grid inside pixel
/// `(x, y)` lies within `r` of `center`; the samples sit at quarters of the pixel,
/// so all coordinates are scaled by four.
pub open spec fn sub_hit(center: Vector2<u32>, r: u32, x: int, y: int, i: int, j: int) -> bool {
    let dx = 4 * x + 1 + i - 4 * center.x;
    let dy = 4 * y + 1 + j - 4 * center.y;
    dx * dx + dy * dy <= 16 * r * r
}

/// How many of the first `k` samples of pixel `(x, y)` lie in the circle, taken
/// row by row: sample `n` is at `(n / 3, n % 3)`.
pub open spec fn sub_hits(center: Vector2<u32>, r: u32, x: int, y: int, k: int) -> int
    decreases k,
{
    if k <= 0 {
        0
    } else {
        sub_hits(center, r, x, y, k - 1) + if sub_hit(center, r, x, y, (k - 1) / 3, (k - 1) % 3) {
            1int
        } else {
            0int
        }
    }
}

/// `color` with its opacity scaled by the share `count / 9` of samples in the circle.
pub open spec fn coverage_color(color: Color, count: int) -> Color {
    Color { a: (color.a * count / 9) as u8, ..color }
}

/// What `circle_blend_with_anti_aliasing` draws over pixel `(x, y)` of the box.
pub open spec fn aa_color(center: Vector2<u32>, r: u32, color: Color, x: int, y: int) -> Color {
    coverage_color(color, sub_hits(center, r, x, y, 9))
}

proof fn lemma_sub_hits_bounds(center: Vector2<u32>, r: u32, x: int, y: int, k: int)
    requires
        0 <= k,
    ensures
        0 <= sub_hits(center, r, x, y, k) <= k,
    decreases k,
{
    if k > 0 {
        lemma_sub_hits_bounds(center, r, x, y, k - 1);
    }
}

fn subpixel_hit(center: Vector2<u32>, r: u32, x: u32, y: u32, i: u32, j: u32) -> (res: bool)
    requires
        i < 3,
        j < 3,
    ensures
        res == sub_hit(center, r, x as int, y as int, i as int, j as int),
{
    let dx: i128 = 4 * (x as i128) + 1 + i as i128 - 4 * (center.x as i128);
    let dy: i128 = 4 * (y as i128) + 1 + j as i128 - 4 * (center.y as i128);
    proof {
        assert(0 <= dx * dx <= 0x8_0000_0000 * 0x8_0000_0000) by (nonlinear_arith)
            requires
                -0x8_0000_0000 <= dx <= 0x8_0000_0000,
        ;
        assert(0 <= dy * dy <= 0x8_0000_0000 * 0x8_0000_0000) by (nonlinear_arith)
            requires
                -0x8_0000_0000 <= dy <= 0x8_0000_0000,
        ;
        assert(0 <= 16 * r * r <= 16 * 0xffff_ffff * 0xffff_ffffu128) by (nonlinear_arith)
            requires
                0 <= r <= 0xffff_ffff,
        ;
    }
    let r2: i128 = 16 * (r as i128) * (r as i128);
    dx * dx + dy * dy <= r2
}

/// Composites `color` over every pixel of the square around `center` of side
/// `2 * r`, its opacity scaled by how many of nine samples in the pixel lie within
/// `r` of `center`.
pub fn circle_blend_with_anti_aliasing(ui: &mut Canvas, center: Vector2<u32>, radius: u32, color: Color)
    requires
        old(ui).wf(),
        circle_fits(center, radius),
    ensures
        final(ui).wf(),
        final(ui).window_size == old(ui).window_size,
        forall|x: int, y: int|
            0 <= x < old(ui).window_size.x && 0 <= y < old(ui).window_size.y
                ==> #[trigger] final(ui).pixel_spec(x, y) == if in_circle_box(center, radius, x, y) {
                blend_spec(old(ui).pixel_spec(x, y), aa_color(center, radius, color, x, y))
            } else {
                old(ui).pixel_spec(x, y)
            },
{
    let ws = ui.window_size;
    let ghost orig = ui.buf@;
    let x0: u32 = center.x.saturating_sub(radius);
    let y0: u32 = center.y.saturating_sub(radius);
    let ey: u32 = if y0 + radius * 2 < ws.y { y0 + radius * 2 } else { ws.y };
    let ex: u32 = if x0 + radius * 2 < ws.x { x0 + radius * 2 } else { ws.x };
    let mut cy: u32 = y0;
    while cy < ey
        invariant
            ui.wf(),
            ui.window_size == ws,
            ws == old(ui).window_size,
            orig == old(ui).buf@,
            circle_fits(center, radius),
            x0 == sat_sub(center.x, radius),
            y0 == sat_sub(center.y, radius),
            y0 <= cy,
            ey <= ws.y,
            ex <= ws.x,
            ey == ws.y || ey == y0 + 2 * radius,
            ex == ws.x || ex == x0 + 2 * radius,
            ey <= y0 + 2 * radius,
            ex <= x0 + 2 * radius,
            forall|x: int, y: int|
                0 <= x < ws.x && 0 <= y < ws.y ==> #[trigger] ui.pixel_spec(x, y) == if in_circle_box(
                    center,
                    radius,
                    x,
                    y,
                ) && y < cy {
                    blend_spec(pixel(orig, ws.x as int, x, y), aa_color(center, radius, color, x, y))
                } else {
                    pixel(orig, ws.x as int, x, y)
                },
        decreases ey - cy,
    {
        let mut cx: u32 = x0;
        while cx < ex
            invariant
                ui.wf(),
                ui.window_size == ws,
                circle_fits(center, radius),
                x0 == sat_sub(center.x, radius),
                y0 == sat_sub(center.y, radius),
                y0 <= cy < ey,
                ey <= ws.y,
                ex <= ws.x,
                ey <= y0 + 2 * radius,
                ex <= x0 + 2 * radius,
                x0 <= cx,
                forall|x: int, y: int|
                    0 <= x < ws.x && 0 <= y < ws.y ==> #[trigger] ui.pixel_spec(x, y)
                        == if in_circle_box(center, radius, x, y) && (y < cy || (y == cy && x
                        < cx)) {
                        blend_spec(
                            pixel(orig, ws.x as int, x, y),
                            aa_color(center, radius, color, x, y),
                        )
                    } else {
                        pixel(orig, ws.x as int, x, y)
                    },
            decreases ex - cx,
        {
            let mut count: u32 = 0;
            let mut i: u32 = 0;
            while i < 3
                invariant
                    circle_fits(center, radius),
                    in_circle_box(center, radius, cx as int, cy as int),
                    i <= 3,
                    count == sub_hits(center, radius, cx as int, cy as int, 3 * i),
                decreases 3 - i,
            {
                let mut j: u32 = 0;
                while j < 3
                    invariant
                        circle_fits(center, radius),
                        in_circle_box(center, radius, cx as int, cy as int),
                        i < 3,
                        j <= 3,
                        count == sub_hits(center, radius, cx as int, cy as int, 3 * i + j),
                    decreases 3 - j,
                {
                    proof {
                        lemma_sub_hits_bounds(center, radius, cx as int, cy as int, 3 * i + j);
                        assert((3 * i + j) / 3 == i && (3 * i + j) % 3 == j);
                    }
                    if subpixel_hit(center, radius, cx, cy, i, j) {
                        count = count + 1;
                    }
                    j = j + 1;
                }
                i = i + 1;
            }
            proof {
                lemma_sub_hits_bounds(center, radius, cx as int, cy as int, 9);
                assert(color.a * count <= 255 * 9) by (nonlinear_arith)
                    requires
                        0 <= color.a <= 255,
                        0 <= count <= 9,
                ;
            }
            let mut c = color;
            let a: u32 = color.a as u32 * count / 9;
            c.a = a as u8;
            paint_pixel(ui, cx, cy, c, true);
            cx = cx + 1;
        }
        cy = cy + 1;
    }
}

/// `a / b` rounded toward zero, as Rust's integer division does.
pub open spec fn tdiv(a: int, b: int) -> int {
    let q = (if a < 0 { -a } else { a }) / (if b < 0 { -b } else { b });
    if (a < 0) != (b < 0) {
        -q
    } else {
        q
    }
}

fn tdiv_exec(a: i64, b: i64) -> (r: i64)
    requires
        b != 0,
        -0x4000_0000_0000_0000 <= a <= 0x4000_0000_0000_0000,
        -0x4000_0000_0000_0000 <= b <= 0x4000_0000_0000_0000,
    ensures
        r == tdiv(a as int, b as int),
{
    let ua: u64 = if a < 0 { (-a) as u64 } else { a as u64 };
    let ub: u64 = if b < 0 { (-b) as u64 } else { b as u64 };
    let q: u64 = ua / ub;
    if (a < 0) != (b < 0) {
        -(q as i64)
    } else {
        q as i64
    }
}

/// The largest coordinate that line drawing accepts: each fits in an `i32`.
pub open spec fn coord_ok(v: u32) -> bool {
    v <= i32::MAX
}

/// The points of a straight line, walked one step at a time along its longer axis.
#[derive(Debug)]
pub struct LineIter {
    pub x1: u32,
    pub y1: u32,
    pub x2: u32,
    pub y2: u32,
    pub dx: i32,
    pub dy: i32,
    pub curr_x: u32,
    pub curr_y: u32,
}

pub open spec fn abs(v: int) -> int {
    if v < 0 {
        -v
    } else {
        v
    }
}

/// The line iterator that `LineIter::new(start, end)` returns: the end points are
/// ordered along the longer axis, `dx` and `dy` keep the direction as given.
pub open spec fn line_spec(start: Vector2<u32>, end: Vector2<u32>) -> LineIter {
    let dx = end.x - start.x;
    let dy = end.y - start.y;
    let swap = if abs(dx) > abs(dy) {
        start.x > end.x
    } else {
        start.y > end.y
    };
    let (x1, y1, x2, y2) = if swap {
        (end.x, end.y, start.x, start.y)
    } else {
        (start.x, start.y, end.x, end.y)
    };
    LineIter { x1, y1, x2, y2, dx: dx as i32, dy: dy as i32, curr_x: x1, curr_y: y1 }
}

/// The number of points of `line_spec(start, end)`.
pub open spec fn line_len(start: Vector2<u32>, end: Vector2<u32>) -> int {
    line_spec(start, end).len()
}

/// Point `k` of the line from `start` to `end`.
pub open spec fn line_point(start: Vector2<u32>, end: Vector2<u32>, k: int) -> (u32, u32) {
    line_spec(start, end).point(k)
}

/// Some point of the line from `start` to `end` is `(x, y)`.
pub open spec fn on_line(start: Vector2<u32>, end: Vector2<u32>, x: int, y: int) -> bool {
    exists|k: int| 0 <= k < line_len(start, end) && #[trigger] line_point(start, end, k) == (x as u32, y as u32)
}

impl LineIter {
    /// The line steps along x (it is wider than tall).
    pub open spec fn shallow(&self) -> bool {
        abs(self.dx as int) > abs(self.dy as int)
    }

    /// How many points the line has; a line whose ends coincide has none.
    pub open spec fn len(&self) -> int {
        if self.dx == 0 && self.dy == 0 {
            0
        } else if self.shallow() {
            self.x2 - self.x1 + 1
        } else {
            self.y2 - self.y1 + 1
        }
    }

    /// How many points have been handed out.
    pub open spec fn index(&self) -> int {
        if self.shallow() {
            self.curr_x - self.x1
        } else {
            self.curr_y - self.y1
        }
    }

    /// Point `k` of the line.
    pub open spec fn point(&self, k: int) -> (u32, u32) {
        if self.shallow() {
            ((self.x1 + k) as u32, (tdiv(self.dy * k, self.dx as int) + self.y1) as u32)
        } else {
            ((tdiv(self.dx * k, self.dy as int) + self.x1) as u32, (self.y1 + k) as u32)
        }
    }

    /// The same line, wherever the walk along it stands.
    pub open spec fn same_line(&self, o: &LineIter) -> bool {
        self.x1 == o.x1 && self.y1 == o.y1 && self.x2 == o.x2 && self.y2 == o.y2 && self.dx == o.dx
            && self.dy == o.dy
    }

    pub open spec fn wf(&self) -> bool {
        &&& coord_ok(self.x1) && coord_ok(self.y1) && coord_ok(self.x2) && coord_ok(self.y2)
        &&& self.dx > i32::MIN && self.dy > i32::MIN
        &&& self.shallow() ==> self.x1 <= self.x2 && self.x1 <= self.curr_x <= self.x2 + 1
        &&& !self.shallow() ==> self.y1 <= self.y2 + 1 && self.y1 <= self.curr_y <= self.y2 + 1
        &&& !self.shallow() && (self.dx != 0 || self.dy != 0) ==> self.y1 <= self.y2
    }

    /// Starts a walk from `start` to `end`.
    pub fn new(start: Vector2<u32>, end: Vector2<u32>) -> (r: LineIter)
        requires
            coord_ok(start.x) && coord_ok(start.y) && coord_ok(end.x) && coord_ok(end.y),
        ensures
            r == line_spec(start, end),
            r.wf(),
            r.index() == 0,
    {
        let mut x1 = start.x;
        let mut y1 = start.y;
        let mut x2 = end.x;
        let mut y2 = end.y;
        let dx: i32 = x2 as i32 - x1 as i32;
        let dy: i32 = y2 as i32 - y1 as i32;
        let adx: i32 = if dx < 0 { -dx } else { dx };
        let ady: i32 = if dy < 0 { -dy } else { dy };
        if adx > ady {
            if x1 > x2 {
                let t = x1;
                x1 = x2;
                x2 = t;
                let t = y1;
                y1 = y2;
                y2 = t;
            }
        } else if y1 > y2 {
            let t = x1;
            x1 = x2;
            x2 = t;
            let t = y1;
            y1 = y2;
            y2 = t;
        }
        LineIter { x1, y1, x2, y2, dx, dy, curr_x: x1, curr_y: y1 }
    }

    /// Hands out the next point of the line, or `None` once all have been.
    pub fn next(&mut self) -> (r: Option<(u32, u32)>)
        requires
            old(self).wf(),
        ensures
            final(self).wf(),
            final(self).same_line(old(self)),
            final(self).shallow() == old(self).shallow(),
            final(self).len() == old(self).len(),
            old(self).index() < old(self).len() ==> r == Some(old(self).point(old(self).index()))
                && final(self).index() == old(self).index() + 1,
            old(self).index() >= old(self).len() ==> r.is_none() && final(self).index() == old(
                self,
            ).index(),
    {
        if self.dx == 0 && self.dy == 0 {
            return None;
        }
        let adx: i32 = if self.dx < 0 { -self.dx } else { self.dx };
        let ady: i32 = if self.dy < 0 { -self.dy } else { self.dy };
        if adx > ady {
            if self.curr_x > self.x2 {
                return None;
            }
            let k: i64 = self.curr_x as i64 - self.x1 as i64;
            proof {
                assert(self.dy * k <= 0x8000_0000 * 0x8000_0000) by (nonlinear_arith)
                    requires
                        0 <= k <= 0x8000_0000,
                        -0x8000_0000 <= self.dy <= 0x8000_0000,
                ;
                assert(self.dy * k >= -(0x8000_0000 * 0x8000_0000)) by (nonlinear_arith)
                    requires
                        0 <= k <= 0x8000_0000,
                        -0x8000_0000 <= self.dy <= 0x8000_0000,
                ;
            }
            let q: i64 = tdiv_exec(self.dy as i64 * k, self.dx as i64);
            let y = (#[verifier::truncate] ((q + self.y1 as i64) as u32));
            let res = (self.curr_x, y);
            self.curr_x = self.curr_x + 1;
            Some(res)
        } else {
            if self.curr_y > self.y2 {
                return None;
            }
            let k: i64 = self.curr_y as i64 - self.y1 as i64;
            proof {
                assert(self.dx * k <= 0x8000_0000 * 0x8000_0000) by (nonlinear_arith)
                    requires
                        0 <= k <= 0x8000_0000,
                        -0x8000_0000 <= self.dx <= 0x8000_0000,
                ;
                assert(self.dx * k >= -(0x8000_0000 * 0x8000_0000)) by (nonlinear_arith)
                    requires
                        0 <= k <= 0x8000_0000,
                        -0x8000_0000 <= self.dx <= 0x8000_0000,
                ;
            }
            let q: i64 = tdiv_exec(self.dx as i64 * k, self.dy as i64);
            let x = (#[verifier::truncate] ((q + self.x1 as i64) as u32));
            let res = (x, self.curr_y);
            self.curr_y = self.curr_y + 1;
            Some(res)
        }
    }
}

/// Sets every point of the line from `start` to `end` that lies on the canvas to `color`.
pub fn thin_line(ui: &mut Canvas, start: Vector2<u32>, end: Vector2<u32>, color: Color)
    requires
        old(ui).wf(),
        start == end || (coord_ok(start.x) && coord_ok(start.y) && coord_ok(end.x) && coord_ok(
            end.y,
        )),
    ensures
        final(ui).wf(),
        final(ui).window_size == old(ui).window_size,
        forall|x: int, y: int|
            0 <= x < old(ui).window_size.x && 0 <= y < old(ui).window_size.y
                ==> #[trigger] final(ui).pixel_spec(x, y) == if on_line(start, end, x, y) {
                color
            } else {
                old(ui).pixel_spec(x, y)
            },
{
    if start.x == end.x && start.y == end.y {
        return;
    }
    let ws = ui.window_size;
    let ghost orig = ui.buf@;
    let mut it = LineIter::new(start, end);
    let ghost line = it;
    loop
        invariant
            ui.wf(),
            ui.window_size == ws,
            ws == old(ui).window_size,
            orig == old(ui).buf@,
            it.wf(),
            it.same_line(&line),
            it.shallow() == line.shallow(),
            line == line_spec(start, end),
            0 <= it.index() <= line.len(),
            forall|x: int, y: int|
                0 <= x < ws.x && 0 <= y < ws.y ==> #[trigger] ui.pixel_spec(x, y) == if exists|k: int|
                    0 <= k < it.index() && #[trigger] line_point(start, end, k) == (
                        x as u32,
                        y as u32,
                    ) {
                    color
                } else {
                    pixel(orig, ws.x as int, x, y)
                },
        ensures
            it.index() == line.len(),
        decreases line.len() - it.index(),
    {
        let ghost i = it.index();
        match it.next() {
            None => {
                break;
            },
            Some(p) => {
                let (x, y) = p;
                assert(line_point(start, end, i) == (x, y));
                if y < ws.y && x < ws.x {
                    paint_pixel(ui, x, y, color, false);
                }
            },
        }
    }
}

/// How many of the first `k` points of the line from `start` to `end` lie on a
/// canvas of size `ws`.
pub open spec fn visible_count(start: Vector2<u32>, end: Vector2<u32>, ws: Vector2<u32>, k: int) -> int
    decreases k,
{
    if k <= 0 {
        0
    } else {
        visible_count(start, end, ws, k - 1) + if line_point(start, end, k - 1).0 < ws.x
            && line_point(start, end, k - 1).1 < ws.y {
            1int
        } else {
            0int
        }
    }
}

/// Length of a dash of a dashed line, in points drawn.
pub const DASH_LENGTH: u32 = 10;

/// Length of a gap of a dashed line, in points skipped.
pub const GAP_LENGTH: u32 = 10;

/// Point `k` of the line from `start` to `end` is drawn by `thin_dashed_line`: it
/// lies on the canvas, and falls in a dash when only the points on the canvas are
/// counted.
pub open spec fn dash_point(start: Vector2<u32>, end: Vector2<u32>, ws: Vector2<u32>, k: int) -> bool {
    line_point(start, end, k).0 < ws.x && line_point(start, end, k).1 < ws.y && visible_count(
        start,
        end,
        ws,
        k,
    ) % ((DASH_LENGTH + GAP_LENGTH) as int) < DASH_LENGTH as int
}

/// Draws the line from `start` to `end` as dashes of ten points separated by gaps
/// of ten, counting only the points that lie on the canvas.
pub fn thin_dashed_line(ui: &mut Canvas, start: Vector2<u32>, end: Vector2<u32>, color: Color)
    requires
        old(ui).wf(),
        start == end || (coord_ok(start.x) && coord_ok(start.y) && coord_ok(end.x) && coord_ok(
            end.y,
        )),
    ensures
        final(ui).wf(),
        final(ui).window_size == old(ui).window_size,
        forall|x: int, y: int|
            0 <= x < old(ui).window_size.x && 0 <= y < old(ui).window_size.y
                ==> #[trigger] final(ui).pixel_spec(x, y) == if exists|k: int|
                0 <= k < line_len(start, end) && #[trigger] line_point(start, end, k) == (
                    x as u32,
                    y as u32,
                ) && dash_point(start, end, old(ui).window_size, k) {
                color
            } else {
                old(ui).pixel_spec(x, y)
            },
{
    if start.x == end.x && start.y == end.y {
        return;
    }
    let ws = ui.window_size;
    let ghost orig = ui.buf@;
    let dash_length: u32 = DASH_LENGTH;
    let gap_length: u32 = GAP_LENGTH;
    let mut n: u32 = 0;
    let mut it = LineIter::new(start, end);
    let ghost line = it;
    loop
        invariant
            ui.wf(),
            ui.window_size == ws,
            ws == old(ui).window_size,
            orig == old(ui).buf@,
            it.wf(),
            it.same_line(&line),
            it.shallow() == line.shallow(),
            line == line_spec(start, end),
            0 <= it.index() <= line.len(),
            dash_length == DASH_LENGTH,
            gap_length == GAP_LENGTH,
            n == visible_count(start, end, ws, it.index()) % ((DASH_LENGTH + GAP_LENGTH) as int),
            forall|x: int, y: int|
                0 <= x < ws.x && 0 <= y < ws.y ==> #[trigger] ui.pixel_spec(x, y) == if exists|k: int|
                    0 <= k < it.index() && #[trigger] line_point(start, end, k) == (
                        x as u32,
                        y as u32,
                    ) && dash_point(start, end, ws, k) {
                    color
                } else {
                    pixel(orig, ws.x as int, x, y)
                },
        ensures
            it.index() == line.len(),
        decreases line.len() - it.index(),
    {
        let ghost i = it.index();
        match it.next() {
            None => {
                break;
            },
            Some(p) => {
                let (x, y) = p;
                assert(line_point(start, end, i) == (x, y));
                proof {
                    assert(visible_count(start, end, ws, i + 1) == visible_count(start, end, ws, i) + if x
                        < ws.x && y < ws.y {
                        1int
                    } else {
                        0int
                    });
                }
                if y < ws.y && x < ws.x {
                    proof {
                        let v = visible_count(start, end, ws, i);
                        assert(n == v % 20);
                        assert((n + 1 < 20 ==> (v + 1) % 20 == n + 1) && (n + 1 == 20 ==> (v + 1)
                            % 20 == 0)) by (nonlinear_arith)
                            requires
                                n == v % 20,
                        ;
                    }
                    if n < dash_length {
                        paint_pixel(ui, x, y, color, false);
                    }
                    n = n + 1;
                    if n >= dash_length + gap_length {
                        n = 0;
                    }
                }
            },
        }
    }
}

/// The width of the text whose glyphs are `glyph_widths` wide, drawn at scale
/// `size`: each glyph takes its width and two pixels more, all scaled.
pub open spec fn text_width_spec(glyph_widths: Seq<u32>, size: u32) -> int
    decreases glyph_widths.len(),
{
    if glyph_widths.len() == 0 {
        0
    } else {
        text_width_spec(glyph_widths.drop_last(), size) + size * glyph_widths.last() + size * 2
    }
}

proof fn lemma_text_width_monotone(w: Seq<u32>, size: u32, i: int)
    requires
        0 <= i <= w.len(),
    ensures
        0 <= text_width_spec(w.subrange(0, i), size) <= text_width_spec(w, size),
    decreases w.len() - i,
{
    if i < w.len() {
        lemma_text_width_monotone(w, size, i + 1);
        assert(w.subrange(0, i + 1).drop_last() =~= w.subrange(0, i));
        assert(0 <= size * w[i]) by (nonlinear_arith);
    } else {
        assert(w.subrange(0, i) =~= w);
    }
    if i > 0 {
        lemma_text_width_nonneg(w.subrange(0, i), size);
    }
}

proof fn lemma_text_width_nonneg(w: Seq<u32>, size: u32)
    ensures
        0 <= text_width_spec(w, size),
    decreases w.len(),
{
    if w.len() > 0 {
        lemma_text_width_nonneg(w.drop_last(), size);
        assert(0 <= size * w.last()) by (nonlinear_arith);
    }
}

/// The width of a text whose glyphs, in order, have bounding boxes
/// `glyph_widths` wide, drawn at scale `size`.
pub fn text_bdf_width(glyph_widths: &Vec<u32>, size: u32) -> (r: u32)
    requires
        text_width_spec(glyph_widths@, size) <= u32::MAX,
    ensures
        r == text_width_spec(glyph_widths@, size),
{
    let mut x: u32 = 0;
    let mut i: usize = 0;
    while i < glyph_widths.len()
        invariant
            i <= glyph_widths@.len(),
            x == text_width_spec(glyph_widths@.subrange(0, i as int), size),
            text_width_spec(glyph_widths@, size) <= u32::MAX,
        decreases glyph_widths@.len() - i,
    {
        proof {
            lemma_text_width_monotone(glyph_widths@, size, i + 1);
            assert(glyph_widths@.subrange(0, i + 1).drop_last() =~= glyph_widths@.subrange(0, i as int));
            lemma_text_width_nonneg(glyph_widths@.subrange(0, i as int), size);
            assert(0 <= size * glyph_widths@[i as int]) by (nonlinear_arith);
        }
        x = x + size * glyph_widths[i] + size * 2;
        i = i + 1;
    }
    assert(glyph_widths@.subrange(0, i as int) =~= glyph_widths@);
    x
}

/// `w` rounded up to a multiple of eight: glyph rows are stored in whole bytes.
pub open spec fn pad8(w: u32) -> int {
    (w + 7) / 8 * 8
}

/// The bit of cell `n` of a glyph bitmap (least significant bit first) is set.
pub open spec fn glyph_bit(bitmap: Seq<u8>, n: int) -> bool {
    (bitmap[n / 8] & (1u8 << ((n % 8) as u8))) != 0
}

/// The left edge of the square that cell column `gx` of a glyph is drawn as:
/// columns run right to left from the padded width.
pub open spec fn glyph_cell_x(position: Vector2<u32>, size: u32, bb: FontBoundingBox, gx: int) -> int {
    position.x + (pad8(bb.width) - bb.x_off) * size - gx * size
}

/// The top edge of the square that cell row `gy` of a glyph is drawn as.
pub open spec fn glyph_cell_y(position: Vector2<u32>, size: u32, bb: FontBoundingBox, gy: int) -> int {
    position.y + (pad8(bb.height) - bb.height - 1 - bb.y_off) * size + gy * size
}

/// Cell `(gx, gy)` of the glyph is set and its square, which lies where `u32`
/// coordinates can say, covers pixel `(x, y)`.
pub open spec fn glyph_cell_covers(
    position: Vector2<u32>,
    size: u32,
    bb: FontBoundingBox,
    bitmap: Seq<u8>,
    gx: int,
    gy: int,
    x: int,
    y: int,
) -> bool {
    let cx = glyph_cell_x(position, size, bb, gx);
    let cy = glyph_cell_y(position, size, bb, gy);
    &&& glyph_bit(bitmap, gy * pad8(bb.width) + gx)
    &&& 0 <= cx && cx + size <= u32::MAX
    &&& 0 <= cy && cy + size <= u32::MAX
    &&& cx <= x < cx + size && cy <= y < cy + size
}

/// Some cell of the glyph that comes before row `gy`, column `gx` (row by row)
/// covers pixel `(x, y)`.
pub open spec fn glyph_covers_before(
    position: Vector2<u32>,
    size: u32,
    bb: FontBoundingBox,
    bitmap: Seq<u8>,
    gy: int,
    gx: int,
    x: int,
    y: int,
) -> bool {
    exists|j: int, i: int|
        0 <= j && 0 <= i < pad8(bb.width) && (j < gy || (j == gy && i < gx))
            && #[trigger] glyph_cell_covers(position, size, bb, bitmap, i, j, x, y)
}

/// The bitmap holds every cell of the glyph.
pub open spec fn glyph_fits(size: u32, bb: FontBoundingBox, bitmap: Seq<u8>) -> bool {
    bb.height * pad8(bb.width) <= 8 * bitmap.len()
}

/// Draws a glyph of a bitmap font at `position`, each set cell of `bitmap`
/// (rows of `bb.width` cells padded to whole bytes) as a square of side `size`.
/// A square that would lie left of or above the origin, or past the largest
/// `u32` coordinate, is not drawn.
pub fn glyph_bdf(
    ui: &mut Canvas,
    position: Vector2<u32>,
    size: u32,
    bb: FontBoundingBox,
    bitmap: &Vec<u8>,
    color: Color,
)
    requires
        old(ui).wf(),
        glyph_fits(size, bb, bitmap@),
    ensures
        final(ui).wf(),
        final(ui).window_size == old(ui).window_size,
        forall|x: int, y: int|
            0 <= x < old(ui).window_size.x && 0 <= y < old(ui).window_size.y
                ==> #[trigger] final(ui).pixel_spec(x, y) == if glyph_covers_before(
                position,
                size,
                bb,
                bitmap@,
                bb.height as int,
                0,
                x,
                y,
            ) {
                color
            } else {
                old(ui).pixel_spec(x, y)
            },
{
    let ws = ui.window_size;
    let ghost orig = ui.buf@;
    let padded_width: u64 = (bb.width as u64 + 7) / 8 * 8;
    let padded_height: u64 = (bb.height as u64 + 7) / 8 * 8;
    let x_off: i128 = padded_width as i128;
    let y_off: i128 = (padded_height - bb.height as u64) as i128 - 1;
    proof {
        let a = x_off - bb.x_off;
        let b = y_off - bb.y_off;
        assert(-0x4_0000_0000 * 0x1_0000_0000 <= a * size <= 0x4_0000_0000 * 0x1_0000_0000) by (nonlinear_arith)
            requires
                -0x4_0000_0000 <= a <= 0x4_0000_0000,
                0 <= size <= 0xffff_ffff,
        ;
        assert(-0x4_0000_0000 * 0x1_0000_0000 <= b * size <= 0x4_0000_0000 * 0x1_0000_0000) by (nonlinear_arith)
            requires
                -0x4_0000_0000 <= b <= 0x4_0000_0000,
                0 <= size <= 0xffff_ffff,
        ;
    }
    let total_x: i128 = position.x as i128 + (x_off - bb.x_off as i128) * size as i128;
    let total_y: i128 = position.y as i128 + (y_off - bb.y_off as i128) * size as i128;
    let mut gy: u32 = 0;
    while gy < bb.height
        invariant
            ui.wf(),
            ui.window_size == ws,
            ws == old(ui).window_size,
            orig == old(ui).buf@,
            glyph_fits(size, bb, bitmap@),
            padded_width == pad8(bb.width),
            gy <= bb.height,
            total_x == glyph_cell_x(position, size, bb, 0),
            total_y == glyph_cell_y(position, size, bb, 0),
            -0x8_0000_0000_0000_0000 <= total_x <= 0x8_0000_0000_0000_0000,
            -0x8_0000_0000_0000_0000 <= total_y <= 0x8_0000_0000_0000_0000,
            forall|x: int, y: int|
                0 <= x < ws.x && 0 <= y < ws.y ==> #[trigger] ui.pixel_spec(x, y) == if glyph_covers_before(
                    position,
                    size,
                    bb,
                    bitmap@,
                    gy as int,
                    0,
                    x,
                    y,
                ) {
                    color
                } else {
                    pixel(orig, ws.x as int, x, y)
                },
        decreases bb.height - gy,
    {
        let mut gx: u64 = 0;
        while gx < padded_width
            invariant
                ui.wf(),
                ui.window_size == ws,
                glyph_fits(size, bb, bitmap@),
                padded_width == pad8(bb.width),
                gy < bb.height,
                gx <= padded_width,
                total_x == glyph_cell_x(position, size, bb, 0),
                total_y == glyph_cell_y(position, size, bb, 0),
                -0x8_0000_0000_0000_0000 <= total_x <= 0x8_0000_0000_0000_0000,
                -0x8_0000_0000_0000_0000 <= total_y <= 0x8_0000_0000_0000_0000,
                forall|x: int, y: int|
                    0 <= x < ws.x && 0 <= y < ws.y ==> #[trigger] ui.pixel_spec(x, y)
                        == if glyph_covers_before(position, size, bb, bitmap@, gy as int, gx as int, x, y) {
                        color
                    } else {
                        pixel(orig, ws.x as int, x, y)
                    },
            decreases padded_width - gx,
        {
            proof {
                assert(gy * padded_width + gx < bb.height * padded_width) by (nonlinear_arith)
                    requires
                        gy < bb.height,
                        gx < padded_width,
                ;
                assert(0 <= gy * padded_width <= 0x1_0000_0000 * 0x2_0000_0000) by (nonlinear_arith)
                    requires
                        0 <= gy <= 0xffff_ffff,
                        0 <= padded_width <= 0x2_0000_0000,
                ;
            }
            let _len: usize = bitmap.len();
            let n: u128 = gy as u128 * padded_width as u128 + gx as u128;
            let has_pixel = (bitmap[(n / 8) as usize] & (1u8 << ((n % 8) as u8))) != 0;
            proof {
                assert(0 <= gx as int * size as int <= 0x2_0000_0000 * 0x1_0000_0000) by (nonlinear_arith)
                    requires
                        0 <= gx <= 0x2_0000_0000,
                        0 <= size <= 0xffff_ffff,
                ;
                assert(0 <= gy as int * size as int <= 0x1_0000_0000 * 0x1_0000_0000) by (nonlinear_arith)
                    requires
                        0 <= gy <= 0xffff_ffff,
                        0 <= size <= 0xffff_ffff,
                ;
            }
            let cx: i128 = total_x - gx as i128 * size as i128;
            let cy: i128 = total_y + gy as i128 * size as i128;
            let drawn = has_pixel && 0 <= cx && cx + size as i128 <= u32::MAX as i128 && 0 <= cy && cy
                + size as i128 <= u32::MAX as i128;
            proof {
                assert(has_pixel == glyph_bit(bitmap@, gy * padded_width + gx));
                assert(cx == glyph_cell_x(position, size, bb, gx as int));
                assert(cy == glyph_cell_y(position, size, bb, gy as int));
                assert forall|x: int, y: int|
                    0 <= x < ws.x && 0 <= y < ws.y implies #[trigger] glyph_cell_covers(
                    position,
                    size,
                    bb,
                    bitmap@,
                    gx as int,
                    gy as int,
                    x,
                    y,
                ) == (drawn && in_rect(
                    Vector2 { x: cx as u32, y: cy as u32 },
                    Vector2 { x: size, y: size },
                    x,
                    y,
                )) by {}
            }
            if drawn {
                rectangle_replace(ui, Vector2 { x: cx as u32, y: cy as u32 }, Vector2 { x: size, y: size }, color);
            }
            proof {
                assert forall|x: int, y: int|
                    0 <= x < ws.x && 0 <= y < ws.y implies glyph_covers_before(
                    position,
                    size,
                    bb,
                    bitmap@,
                    gy as int,
                    gx + 1,
                    x,
                    y,
                ) == (glyph_covers_before(position, size, bb, bitmap@, gy as int, gx as int, x, y)
                    || glyph_cell_covers(position, size, bb, bitmap@, gx as int, gy as int, x, y)) by {
                    if glyph_cell_covers(position, size, bb, bitmap@, gx as int, gy as int, x, y) {
                        assert(glyph_covers_before(position, size, bb, bitmap@, gy as int, gx + 1, x, y));
                    }
                }
            }
            gx = gx + 1;
        }
        proof {
            assert forall|x: int, y: int|
                0 <= x < ws.x && 0 <= y < ws.y implies glyph_covers_before(
                position,
                size,
                bb,
                bitmap@,
                gy + 1,
                0,
                x,
                y,
            ) == glyph_covers_before(position, size, bb, bitmap@, gy as int, padded_width as int, x, y) by {
                if glyph_covers_before(position, size, bb, bitmap@, gy + 1, 0, x, y) {
                    let (j, i) = choose|j: int, i: int|
                        0 <= j && 0 <= i < pad8(bb.width) && (j < gy + 1 || (j == gy + 1 && i < 0))
                            && #[trigger] glyph_cell_covers(position, size, bb, bitmap@, i, j, x, y);
                    assert(glyph_covers_before(position, size, bb, bitmap@, gy as int, padded_width as int, x, y));
                }
            }
        }
        gy = gy + 1;
    }
}

} // verus!
