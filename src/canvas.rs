use image::{Rgba, RgbaImage};
use vstd::prelude::*;

verus! {

/// An RGBA8 pixel buffer, row-major, backed by an image of the `image` crate.
#[verifier::external_body]
pub struct Canvas {
    img: RgbaImage,
}

/// The pixels of a canvas, row by row: `canvas_pixels(c)[y][x]` holds the
/// four channels of the pixel at column `x` and row `y`.
pub uninterp spec fn canvas_pixels(c: Canvas) -> Seq<Seq<[u8; 4]>>;

/// Pixel rows that all have `width` pixels, `height` of them.
pub open spec fn has_size(px: Seq<Seq<[u8; 4]>>, width: int, height: int) -> bool {
    &&& px.len() == height
    &&& forall|y: int| 0 <= y < height ==> #[trigger] px[y].len() == width
}

/// The transparent black pixel that a fresh canvas is filled with.
pub open spec fn blank() -> Seq<u8> {
    seq![0u8, 0u8, 0u8, 0u8]
}

/// Relies on image::ImageBuffer::new: a `width` by `height` buffer whose
/// channels are all zero; it panics when four bytes per pixel overflow usize.
#[verifier::external_body]
pub(crate) fn new_canvas(width: u32, height: u32) -> (r: Canvas)
    requires
        4 * (width as int) * (height as int) <= usize::MAX,
    ensures
        has_size(canvas_pixels(r), width as int, height as int),
        forall|y: int, x: int|
            0 <= y < height && 0 <= x < width ==> (#[trigger] canvas_pixels(r)[y][x])@ == blank(),
{
    Canvas { img: RgbaImage::new(width, height) }
}

/// Relies on image::ImageBuffer::put_pixel: it overwrites the one pixel at
/// `(x, y)` and panics when that lies outside the image.
#[verifier::external_body]
pub(crate) fn put_pixel(c: &mut Canvas, x: u32, y: u32, color: [u8; 4])
    requires
        (y as int) < canvas_pixels(*old(c)).len(),
        (x as int) < canvas_pixels(*old(c))[y as int].len(),
    ensures
        canvas_pixels(*final(c)) == canvas_pixels(*old(c)).update(
            y as int,
            canvas_pixels(*old(c))[y as int].update(x as int, color),
        ),
{
    c.img.put_pixel(x, y, Rgba(color))
}

/// Relies on image::ImageBuffer::get_pixel: the pixel at `(x, y)`, with a
/// panic when that lies outside the image.
#[verifier::external_body]
fn get_pixel(c: &Canvas, x: u32, y: u32) -> (r: [u8; 4])
    requires
        (y as int) < canvas_pixels(*c).len(),
        (x as int) < canvas_pixels(*c)[y as int].len(),
    ensures
        r == canvas_pixels(*c)[y as int][x as int],
{
    c.img.get_pixel(x, y).0
}

/// Whether `(x, y)` lies in the rectangle with corner `(left, top)` and the
/// given extent; the right column and the bottom row are excluded.
pub open spec fn in_rect(x: int, y: int, left: int, top: int, width: int, height: int) -> bool {
    left <= x < left + width && top <= y < top + height
}

/// Paints the rectangle with corner `(left, top)` in `color`, clipped to the
/// canvas; every other pixel is kept.
pub fn fill_rect(c: &mut Canvas, w: u32, h: u32, left: u64, top: u64, width: u64, height: u64, color: [u8; 4])
    requires
        has_size(canvas_pixels(*old(c)), w as int, h as int),
    ensures
        has_size(canvas_pixels(*final(c)), w as int, h as int),
        forall|y: int, x: int|
            0 <= y < h && 0 <= x < w ==> #[trigger] canvas_pixels(*final(c))[y][x] == if in_rect(
                x,
                y,
                left as int,
                top as int,
                width as int,
                height as int,
            ) {
                color
            } else {
                canvas_pixels(*old(c))[y][x]
            },
{
    let ghost px0 = canvas_pixels(*c);
    let x_end: u64 = if width > w as u64 || left > w as u64 - width { w as u64 } else { left + width };
    let y_end: u64 = if height > h as u64 || top > h as u64 - height { h as u64 } else { top + height };
    let mut y: u64 = top;
    while y < y_end
        invariant
            top <= y,
            y <= y_end || y == top,
            y_end <= h,
            x_end <= w,
            x_end as int == if left + width <= w { left + width } else { w as int },
            y_end as int == if top + height <= h { top + height } else { h as int },
            has_size(canvas_pixels(*c), w as int, h as int),
            forall|yy: int, xx: int|
                0 <= yy < h && 0 <= xx < w ==> #[trigger] canvas_pixels(*c)[yy][xx] == if in_rect(
                    xx,
                    yy,
                    left as int,
                    top as int,
                    width as int,
                    y - top,
                ) {
                    color
                } else {
                    px0[yy][xx]
                },
        decreases y_end - y,
    {
        let mut x: u64 = left;
        while x < x_end
            invariant
                top <= y < y_end,
                left <= x,
                x <= x_end || x == left,
                y_end <= h,
                x_end <= w,
                x_end as int == if left + width <= w { left + width } else { w as int },
                has_size(canvas_pixels(*c), w as int, h as int),
                forall|yy: int, xx: int|
                    0 <= yy < h && 0 <= xx < w ==> #[trigger] canvas_pixels(*c)[yy][xx] == if in_rect(
                        xx,
                        yy,
                        left as int,
                        top as int,
                        width as int,
                        y - top,
                    ) || (yy == y && left <= xx < x) {
                        color
                    } else {
                        px0[yy][xx]
                    },
            decreases x_end - x,
        {
            put_pixel(c, x as u32, y as u32, color);
            x = x + 1;
        }
        y = y + 1;
    }
}

proof fn lemma_earlier_pixel(yy: int, xx: int, y: int, x: int, w: int)
    requires
        0 <= yy,
        0 <= xx < w,
        0 <= x <= w,
        yy < y || (yy == y && xx < x),
    ensures
        0 <= yy * w + xx < y * w + x,
{
    if yy < y {
        assert(yy * w + xx < (yy + 1) * w) by (nonlinear_arith)
            requires
                0 <= xx < w,
        ;
        assert((yy + 1) * w <= y * w) by (nonlinear_arith)
            requires
                yy < y,
                0 <= w,
        ;
    }
    assert(0 <= yy * w) by (nonlinear_arith)
        requires
            0 <= yy,
            0 <= w,
    ;
}

/// The canvas as RGBA8 bytes, row-major: four bytes per pixel.
pub fn to_rgba_bytes(c: &Canvas, w: u32, h: u32) -> (r: Vec<u8>)
    requires
        has_size(canvas_pixels(*c), w as int, h as int),
    ensures
        r@.len() == 4 * (w as int) * (h as int),
        forall|y: int, x: int, ch: int|
            0 <= y < h && 0 <= x < w && 0 <= ch < 4 ==> r@[4 * (y * w + x) + ch]
                == #[trigger] canvas_pixels(*c)[y][x][ch],
{
    let mut r: Vec<u8> = Vec::new();
    let mut y: u32 = 0;
    while y < h
        invariant
            y <= h,
            has_size(canvas_pixels(*c), w as int, h as int),
            r@.len() == 4 * ((y as int) * (w as int)),
            forall|yy: int, xx: int, ch: int|
                0 <= yy < y && 0 <= xx < w && 0 <= ch < 4 ==> r@[4 * (yy * w + xx) + ch]
                    == #[trigger] canvas_pixels(*c)[yy][xx][ch],
        decreases h - y,
    {
        let mut x: u32 = 0;
        while x < w
            invariant
                y < h,
                x <= w,
                has_size(canvas_pixels(*c), w as int, h as int),
                r@.len() == 4 * ((y as int) * (w as int) + x),
                forall|yy: int, xx: int, ch: int|
                    0 <= yy <= y && 0 <= xx < w && 0 <= ch < 4 && (yy < y || xx < x) ==> r@[4 * (yy
                        * w + xx) + ch] == #[trigger] canvas_pixels(*c)[yy][xx][ch],
            decreases w - x,
        {
            let ghost r0 = r@;
            let p = get_pixel(c, x, y);
            r.push(p[0]);
            r.push(p[1]);
            r.push(p[2]);
            r.push(p[3]);
            assert forall|yy: int, xx: int, ch: int|
                0 <= yy <= y && 0 <= xx < w && 0 <= ch < 4 && (yy < y || xx < x + 1) implies r@[4
                * (yy * w + xx) + ch] == #[trigger] canvas_pixels(*c)[yy][xx][ch] by {
                if yy < y || xx < x {
                    lemma_earlier_pixel(yy, xx, y as int, x as int, w as int);
                    assert(r@[4 * (yy * w + xx) + ch] == r0[4 * (yy * w + xx) + ch]);
                } else {
                    assert(yy == y && xx == x);
                }
            }
            x = x + 1;
        }
        assert(4 * ((y as int) * (w as int) + w) == 4 * ((y + 1) as int * (w as int)))
            by (nonlinear_arith);
        y = y + 1;
    }
    assert(4 * ((h as int) * (w as int)) == 4 * (w as int) * (h as int)) by (nonlinear_arith);
    r
}

} // verus!
