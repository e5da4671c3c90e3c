use vstd::prelude::*;

verus! {

/// Number of bytes that one pixel takes in a canvas buffer (blue, green, red, alpha).
pub const BYTES_PER_PIXEL: u32 = 4;

/// A point or an extent on the canvas, in pixels.
#[derive(Clone, Copy, Debug, PartialEq, Eq)]
pub struct Vector2<T> {
    pub x: T,
    pub y: T,
}

/// A colour with 8-bit channels; `a` is the opacity (255 is opaque).
#[derive(Clone, Copy, Debug, PartialEq, Eq)]
pub struct Color {
    pub r: u8,
    pub g: u8,
    pub b: u8,
    pub a: u8,
}

/// One channel of `src` drawn over `dst` with opacity `a`.
pub open spec fn blend_channel(dst: u8, src: u8, a: u8) -> int {
    (src as int * a as int + dst as int * (255 - a as int)) / 255
}

/// The alpha of `src` (opacity `a`) composited over a pixel of alpha `dst`.
pub open spec fn blend_alpha(dst: u8, a: u8) -> int {
    a as int + dst as int * (255 - a as int) / 255
}

/// `src` composited over `dst` ("source over").
pub open spec fn blend_spec(dst: Color, src: Color) -> Color {
    Color {
        r: blend_channel(dst.r, src.r, src.a) as u8,
        g: blend_channel(dst.g, src.g, src.a) as u8,
        b: blend_channel(dst.b, src.b, src.a) as u8,
        a: blend_alpha(dst.a, src.a) as u8,
    }
}

proof fn lemma_blend_channel_bounds(dst: u8, src: u8, a: u8)
    ensures
        0 <= src as int * a as int + dst as int * (255 - a as int) <= 255 * 255,
        0 <= blend_channel(dst, src, a) <= 255,
{
    assert(0 <= src as int * a as int + dst as int * (255 - a as int) <= 255 * 255)
        by (nonlinear_arith)
        requires
            0 <= src <= 255,
            0 <= dst <= 255,
            0 <= a <= 255,
    ;
}

proof fn lemma_blend_alpha_bounds(dst: u8, a: u8)
    ensures
        0 <= dst as int * (255 - a as int) <= 255 * (255 - a as int),
        0 <= blend_alpha(dst, a) <= 255,
{
    assert(0 <= dst as int * (255 - a as int) <= 255 * (255 - a as int)) by (nonlinear_arith)
        requires
            0 <= dst <= 255,
            0 <= a <= 255,
    ;
}

fn blend_one(dst: u8, src: u8, a: u8) -> (r: u8)
    ensures
        r as int == blend_channel(dst, src, a),
{
    proof {
        lemma_blend_channel_bounds(dst, src, a);
    }
    let v: u32 = (src as u32 * a as u32 + dst as u32 * (255 - a as u32)) / 255;
    v as u8
}

impl Color {
    /// `color` composited over `old` with `color.a` as its opacity.
    pub fn blend(old: Color, color: Color) -> (r: Color)
        ensures
            r == blend_spec(old, color),
    {
        proof {
            lemma_blend_alpha_bounds(old.a, color.a);
        }
        let a: u32 = color.a as u32 + old.a as u32 * (255 - color.a as u32) / 255;
        Color {
            r: blend_one(old.r, color.r, color.a),
            g: blend_one(old.g, color.g, color.a),
            b: blend_one(old.b, color.b, color.a),
            a: a as u8,
        }
    }
}

/// The byte offset of pixel `(x, y)` in a buffer whose rows are `w` pixels wide.
pub open spec fn pixel_offset(w: int, x: int, y: int) -> int {
    (w * y + x) * 4
}

/// The colour stored at byte offset `off` of `buf`.
pub open spec fn color_at(buf: Seq<u8>, off: int) -> Color {
    Color { b: buf[off], g: buf[off + 1], r: buf[off + 2], a: buf[off + 3] }
}

/// The colour of pixel `(x, y)` in `buf`, rows being `w` pixels wide.
pub open spec fn pixel(buf: Seq<u8>, w: int, x: int, y: int) -> Color {
    color_at(buf, pixel_offset(w, x, y))
}

/// `buf` with the four bytes at `off` replaced by `c`.
pub open spec fn put_color(buf: Seq<u8>, off: int, c: Color) -> Seq<u8> {
    buf.update(off, c.b).update(off + 1, c.g).update(off + 2, c.r).update(off + 3, c.a)
}

/// A buffer that holds at least `size.x * size.y` pixels.
pub open spec fn buf_fits(len: int, size: Vector2<u32>) -> bool {
    len >= size.x * size.y * 4
}

/// The pixel offsets of a `w * h` buffer are in bounds and those of two
/// distinct pixels are at least four bytes apart.
pub proof fn lemma_offsets(w: int, h: int, x: int, y: int, x2: int, y2: int)
    requires
        0 <= x < w,
        0 <= y < h,
        0 <= x2 < w,
        0 <= y2 < h,
    ensures
        0 <= pixel_offset(w, x, y),
        pixel_offset(w, x, y) + 4 <= w * h * 4,
        (x != x2 || y != y2) ==> (pixel_offset(w, x, y) + 4 <= pixel_offset(w, x2, y2)
            || pixel_offset(w, x2, y2) + 4 <= pixel_offset(w, x, y)),
{
    assert(0 <= w * y + x < w * h) by (nonlinear_arith)
        requires
            0 <= x < w,
            0 <= y < h,
    ;
    if y < y2 {
        assert(w * y + x + 1 <= w * y2 + x2) by (nonlinear_arith)
            requires
                0 <= x < w,
                0 <= x2,
                y < y2,
        ;
    } else if y2 < y {
        assert(w * y2 + x2 + 1 <= w * y + x) by (nonlinear_arith)
            requires
                0 <= x2 < w,
                0 <= x,
                y2 < y,
        ;
    }
}

/// Writing pixel `(x, y)` gives it colour `c` and keeps every other pixel.
pub proof fn lemma_put_pixel(buf: Seq<u8>, size: Vector2<u32>, x: int, y: int, c: Color)
    requires
        buf_fits(buf.len() as int, size),
        0 <= x < size.x,
        0 <= y < size.y,
    ensures
        put_color(buf, pixel_offset(size.x as int, x, y), c).len() == buf.len(),
        pixel(put_color(buf, pixel_offset(size.x as int, x, y), c), size.x as int, x, y) == c,
        forall|x2: int, y2: int|
            0 <= x2 < size.x && 0 <= y2 < size.y && (x2 != x || y2 != y) ==> #[trigger] pixel(
                put_color(buf, pixel_offset(size.x as int, x, y), c),
                size.x as int,
                x2,
                y2,
            ) == pixel(buf, size.x as int, x2, y2),
{
    let w = size.x as int;
    lemma_offsets(w, size.y as int, x, y, x, y);
    assert forall|x2: int, y2: int|
        0 <= x2 < size.x && 0 <= y2 < size.y && (x2 != x || y2 != y) implies #[trigger] pixel(
            put_color(buf, pixel_offset(w, x, y), c),
            w,
            x2,
            y2,
        ) == pixel(buf, w, x2, y2) by {
        lemma_offsets(w, size.y as int, x, y, x2, y2);
        lemma_offsets(w, size.y as int, x2, y2, x, y);
        let nb = put_color(buf, pixel_offset(w, x, y), c);
        let o2 = pixel_offset(w, x2, y2);
        assert(buf.len() >= w * (size.y as int) * 4);
        assert(0 <= o2 && o2 + 4 <= buf.len());
        assert(nb[o2] == buf[o2]);
        assert(nb[o2 + 1] == buf[o2 + 1]);
        assert(nb[o2 + 2] == buf[o2 + 2]);
        assert(nb[o2 + 3] == buf[o2 + 3]);
    }
}

/// Sets pixel `(x, y)` of `buf`, whose rows are `window_size.x` pixels wide, to `color`.
pub fn set_pixel(buf: &mut [u8], window_size: Vector2<u32>, x: u32, y: u32, color: Color)
    requires
        buf_fits(old(buf)@.len() as int, window_size),
        x < window_size.x,
        y < window_size.y,
    ensures
        final(buf)@ == put_color(old(buf)@, pixel_offset(window_size.x as int, x as int, y as int), color),
{
    proof {
        lemma_offsets(window_size.x as int, window_size.y as int, x as int, y as int, x as int, y as int);
    }
    let n: usize = buf.len();
    proof {
        assert(window_size.x * y <= window_size.x * y + x);
    }
    let offset: usize = (window_size.x as usize * y as usize + x as usize) * BYTES_PER_PIXEL as usize;
    buf[offset] = color.b;
    buf[offset + 1] = color.g;
    buf[offset + 2] = color.r;
    buf[offset + 3] = color.a;
}

/// Composites `color` over pixel `(x, y)` of `buf`, whose rows are `window_size.x` pixels wide.
pub fn blend_pixel(buf: &mut [u8], window_size: Vector2<u32>, x: u32, y: u32, color: Color)
    requires
        buf_fits(old(buf)@.len() as int, window_size),
        x < window_size.x,
        y < window_size.y,
    ensures
        final(buf)@ == put_color(
            old(buf)@,
            pixel_offset(window_size.x as int, x as int, y as int),
            blend_spec(pixel(old(buf)@, window_size.x as int, x as int, y as int), color),
        ),
{
    proof {
        lemma_offsets(window_size.x as int, window_size.y as int, x as int, y as int, x as int, y as int);
    }
    let n: usize = buf.len();
    proof {
        assert(window_size.x * y <= window_size.x * y + x);
    }
    let offset: usize = (window_size.x as usize * y as usize + x as usize) * BYTES_PER_PIXEL as usize;
    let old_color = Color { b: buf[offset], g: buf[offset + 1], r: buf[offset + 2], a: buf[offset + 3] };
    let blended = Color::blend(old_color, color);
    buf[offset] = blended.b;
    buf[offset + 1] = blended.g;
    buf[offset + 2] = blended.r;
    buf[offset + 3] = blended.a;
}

/// An in-memory framebuffer of `window_size.x * window_size.y` pixels, four bytes each.
pub struct Canvas {
    pub buf: Vec<u8>,
    pub window_size: Vector2<u32>,
}

impl Canvas {
    /// The buffer holds a four-byte entry for every pixel.
    pub open spec fn wf(&self) -> bool {
        buf_fits(self.buf@.len() as int, self.window_size)
    }

    /// The colour of pixel `(x, y)`.
    pub open spec fn pixel_spec(&self, x: int, y: int) -> Color {
        pixel(self.buf@, self.window_size.x as int, x, y)
    }

    /// A canvas of the given size with every byte zero (transparent black).
    pub fn new(window_size: Vector2<u32>) -> (r: Canvas)
        requires
            window_size.x * window_size.y * 4 <= usize::MAX,
        ensures
            r.wf(),
            r.buf@.len() == window_size.x * window_size.y * 4,
            r.window_size == window_size,
            forall|i: int| 0 <= i < r.buf@.len() ==> r.buf@[i] == 0,
    {
        let n: usize = window_size.x as usize * window_size.y as usize * 4;
        let mut buf: Vec<u8> = Vec::new();
        let mut i: usize = 0;
        while i < n
            invariant
                i <= n,
                buf@.len() == i,
                forall|j: int| 0 <= j < i ==> buf@[j] == 0,
            decreases n - i,
        {
            buf.push(0);
            i = i + 1;
        }
        Canvas { buf, window_size }
    }

    pub fn window_size(&self) -> (r: Vector2<u32>)
        ensures
            r == self.window_size,
    {
        self.window_size
    }

    /// The colour of pixel `(x, y)`.
    pub fn pixel(&self, x: u32, y: u32) -> (r: Color)
        requires
            self.wf(),
            x < self.window_size.x,
            y < self.window_size.y,
        ensures
            r == self.pixel_spec(x as int, y as int),
    {
        proof {
            lemma_offsets(self.window_size.x as int, self.window_size.y as int, x as int, y as int, x as int, y as int);
        }
        let n: usize = self.buf.len();
        proof {
            assert(self.window_size.x * y <= self.window_size.x * y + x);
        }
        let offset: usize = (self.window_size.x as usize * y as usize + x as usize) * BYTES_PER_PIXEL as usize;
        Color {
            b: self.buf[offset],
            g: self.buf[offset + 1],
            r: self.buf[offset + 2],
            a: self.buf[offset + 3],
        }
    }
}

} // verus!
