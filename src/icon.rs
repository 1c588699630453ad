//! Pixel drawing on a square RGBA canvas (`size × size`, four bytes per
//! pixel, row by row), used for the application icon.
use vstd::prelude::*;
use vstd::string::StringSliceAdditionalSpecFns;

verus! {

pub open spec fn in_canvas(size: u32, x: int, y: int) -> bool {
    0 <= x < size && 0 <= y < size
}

/// Index of the first byte of pixel `(x, y)`.
pub open spec fn pixel_base(size: u32, x: int, y: int) -> int {
    (y * size + x) * 4
}

/// The canvas with pixel `(x, y)` set to `c`; unchanged when the pixel is
/// off the canvas.
pub open spec fn with_pixel(s: Seq<u8>, size: u32, x: int, y: int, c: (u8, u8, u8, u8)) -> Seq<u8> {
    if in_canvas(size, x, y) {
        let i = pixel_base(size, x, y);
        s.update(i, c.0).update(i + 1, c.1).update(i + 2, c.2).update(i + 3, c.3)
    } else {
        s
    }
}

/// A canvas long enough for `size × size` pixels whose byte offsets fit in
/// `u32`.
pub open spec fn canvas_ok(s: Seq<u8>, size: u32) -> bool {
    s.len() >= size * size * 4 && size * size * 4 <= u32::MAX
}

/// Pixels `(x0..xend, y)` painted left to right.
pub open spec fn paint_row(s: Seq<u8>, size: u32, x0: int, xend: int, y: int, c: (u8, u8, u8, u8)) -> Seq<u8>
    decreases xend - x0,
{
    if x0 >= xend {
        s
    } else {
        paint_row(with_pixel(s, size, x0, y, c), size, x0 + 1, xend, y, c)
    }
}

/// Rows `y0..yend` of columns `x..x + w` painted top to bottom.
pub open spec fn paint_rows(
    s: Seq<u8>,
    size: u32,
    x: int,
    w: int,
    y0: int,
    yend: int,
    c: (u8, u8, u8, u8),
) -> Seq<u8>
    decreases yend - y0,
{
    if y0 >= yend {
        s
    } else {
        paint_rows(paint_row(s, size, x, x + w, y0, c), size, x, w, y0 + 1, yend, c)
    }
}

/// Sets pixel `(x, y)` to `(r, g, b, a)`; pixels off the canvas are ignored.
pub fn set_pixel(rgba: &mut [u8], size: u32, x: i32, y: i32, r: u8, g: u8, b: u8, a: u8)
    requires
        canvas_ok(old(rgba)@, size),
    ensures
        final(rgba)@ == with_pixel(old(rgba)@, size, x as int, y as int, (r, g, b, a)),
        final(rgba)@.len() == old(rgba)@.len(),
{
    if x < 0 || y < 0 {
        return;
    }
    let (x, y) = (x as u32, y as u32);
    if x >= size || y >= size {
        return;
    }
    assert((y * size + x) * 4 + 3 < size * size * 4) by (nonlinear_arith)
        requires
            x < size,
            y < size,
    ;
    let i = ((y * size + x) * 4) as usize;
    rgba[i] = r;
    rgba[i + 1] = g;
    rgba[i + 2] = b;
    rgba[i + 3] = a;
}

/// Paints the `w × h` rectangle at `(x, y)`, clipped to the canvas.
pub fn fill_rect(rgba: &mut [u8], size: u32, x: i32, y: i32, w: i32, h: i32, color: (u8, u8, u8, u8))
    requires
        canvas_ok(old(rgba)@, size),
        i32::MIN <= x + w <= i32::MAX,
        i32::MIN <= y + h <= i32::MAX,
    ensures
        final(rgba)@ == paint_rows(old(rgba)@, size, x as int, w as int, y as int, y + h, color),
        canvas_ok(final(rgba)@, size),
{
    let ghost start = rgba@;
    let mut yy: i32 = y;
    while yy < y + h
        invariant
            canvas_ok(rgba@, size),
            y <= yy || y + h <= y,
            i32::MIN <= x + w <= i32::MAX,
            i32::MIN <= y + h <= i32::MAX,
            paint_rows(rgba@, size, x as int, w as int, yy as int, y + h, color) == paint_rows(
                start,
                size,
                x as int,
                w as int,
                y as int,
                y + h,
                color,
            ),
        decreases y + h - yy,
    {
        let ghost row_start = rgba@;
        let mut xx: i32 = x;
        while xx < x + w
            invariant
                canvas_ok(rgba@, size),
                i32::MIN <= x + w <= i32::MAX,
                paint_row(rgba@, size, xx as int, x + w, yy as int, color) == paint_row(
                    row_start,
                    size,
                    x as int,
                    x + w,
                    yy as int,
                    color,
                ),
            decreases x + w - xx,
        {
            set_pixel(rgba, size, xx, yy, color.0, color.1, color.2, color.3);
            xx = xx + 1;
        }
        yy = yy + 1;
    }
    if y + h <= y {
        assert(paint_rows(start, size, x as int, w as int, y as int, y + h, color) == start);
    }
}

/// Every square of the glyph lands inside the `i32` range.
pub open spec fn glyph_fits(rows: Seq<Seq<u8>>, x0: int, y0: int, scale: int) -> bool {
    &&& 0 <= scale
    &&& forall|yy: int|
        #![trigger rows[yy]]
        0 <= yy < rows.len() ==> i32::MIN <= y0 + yy * scale && y0 + yy * scale + scale
            <= i32::MAX
    &&& forall|yy: int, xx: int|
        #![trigger rows[yy][xx]]
        0 <= yy < rows.len() && 0 <= xx < rows[yy].len() ==> rows[yy].len() <= i32::MAX
            && i32::MIN <= x0 + xx * scale && x0
            + xx * scale + scale <= i32::MAX
}

pub open spec fn glyph_rows(pattern: [&str; 7]) -> Seq<Seq<u8>> {
    Seq::new(7, |i: int| pattern@[i].spec_bytes())
}

/// Cells `xx..` of glyph row `yy` painted: a `scale × scale` square for
/// each `1`.
pub open spec fn paint_glyph_row(
    s: Seq<u8>,
    size: u32,
    row: Seq<u8>,
    xx: int,
    yy: int,
    x0: int,
    y0: int,
    scale: int,
    c: (u8, u8, u8, u8),
) -> Seq<u8>
    decreases row.len() - xx,
{
    if xx < 0 || xx >= row.len() {
        s
    } else {
        let s2 = if row[xx] == 49 {
            paint_rows(s, size, x0 + xx * scale, scale, y0 + yy * scale, y0 + yy * scale + scale, c)
        } else {
            s
        };
        paint_glyph_row(s2, size, row, xx + 1, yy, x0, y0, scale, c)
    }
}

/// Glyph rows `yy..` painted top to bottom.
pub open spec fn paint_glyph(
    s: Seq<u8>,
    size: u32,
    rows: Seq<Seq<u8>>,
    yy: int,
    x0: int,
    y0: int,
    scale: int,
    c: (u8, u8, u8, u8),
) -> Seq<u8>
    decreases rows.len() - yy,
{
    if yy < 0 || yy >= rows.len() {
        s
    } else {
        paint_glyph(
            paint_glyph_row(s, size, rows[yy], 0, yy, x0, y0, scale, c),
            size,
            rows,
            yy + 1,
            x0,
            y0,
            scale,
            c,
        )
    }
}

/// Draws a 7-row bitmap glyph (`1` marks a cell) with `scale × scale`
/// cells, its top-left corner at `(x0, y0)`.
pub fn draw_glyph(
    rgba: &mut [u8],
    size: u32,
    pattern: &[&str; 7],
    x0: i32,
    y0: i32,
    scale: i32,
    color: (u8, u8, u8, u8),
)
    requires
        canvas_ok(old(rgba)@, size),
        glyph_fits(glyph_rows(*pattern), x0 as int, y0 as int, scale as int),
    ensures
        final(rgba)@ == paint_glyph(
            old(rgba)@,
            size,
            glyph_rows(*pattern),
            0,
            x0 as int,
            y0 as int,
            scale as int,
            color,
        ),
{
    let ghost rows = glyph_rows(*pattern);
    let ghost start = rgba@;
    let mut yy: usize = 0;
    while yy < 7
        invariant
            yy <= 7,
            rows == glyph_rows(*pattern),
            rows.len() == 7,
            canvas_ok(rgba@, size),
            glyph_fits(rows, x0 as int, y0 as int, scale as int),
            paint_glyph(rgba@, size, rows, yy as int, x0 as int, y0 as int, scale as int, color)
                == paint_glyph(start, size, rows, 0, x0 as int, y0 as int, scale as int, color),
        decreases 7 - yy,
    {
        let row = pattern[yy].as_bytes();
        assert(row@ == rows[yy as int]);
        let ghost row_start = rgba@;
        let mut xx: usize = 0;
        while xx < row.len()
            invariant
                yy < 7,
                xx <= row@.len(),
                row@ == rows[yy as int],
                rows.len() == 7,
                canvas_ok(rgba@, size),
                glyph_fits(rows, x0 as int, y0 as int, scale as int),
                paint_glyph_row(
                    rgba@,
                    size,
                    row@,
                    xx as int,
                    yy as int,
                    x0 as int,
                    y0 as int,
                    scale as int,
                    color,
                ) == paint_glyph_row(
                    row_start,
                    size,
                    row@,
                    0,
                    yy as int,
                    x0 as int,
                    y0 as int,
                    scale as int,
                    color,
                ),
            decreases row@.len() - xx,
        {
            if row[xx] == 49 {
                assert(i32::MIN <= x0 + xx * scale && x0 + xx * scale + scale <= i32::MAX);
                assert(i32::MIN <= y0 + yy * scale && y0 + yy * scale + scale <= i32::MAX);
                assert(rows[yy as int].len() <= i32::MAX);
                assert((xx as i64) * (scale as i64) <= 0x4000_0000_0000_0000) by (nonlinear_arith)
                    requires
                        xx <= i32::MAX,
                        0 <= scale <= i32::MAX,
                ;
                assert((yy as i64) * (scale as i64) <= 0x4000_0000_0000_0000) by (nonlinear_arith)
                    requires
                        yy <= 7,
                        0 <= scale <= i32::MAX,
                ;
                let px = (x0 as i64 + (xx as i64) * (scale as i64)) as i32;
                let py = (y0 as i64 + (yy as i64) * (scale as i64)) as i32;
                fill_rect(rgba, size, px, py, scale, scale, color);
            }
            xx = xx + 1;
        }
        yy = yy + 1;
    }
}

} // verus!
