//! Painting cells into an RGBA frame: solid fills, block elements, shades,
//! box lines, bitmap glyphs and underlines, each pixel by a stated rule.
use vstd::arithmetic::div_mod::{lemma_fundamental_div_mod, lemma_fundamental_div_mod_converse};
use vstd::prelude::*;

use crate::glyphs::{
    ascii_glyph_fallback, bitmap_glyph, box_segments, glyph_view, sample_bitmap_axis,
    spec_ascii_glyph_fallback, spec_bitmap_glyph, spec_box_segments, spec_sample_bitmap_axis,
};
use crate::metrics::TerminalMetrics;

verus! {

/// The colours and metrics a cell is painted with.
#[derive(Debug, Clone, Copy, PartialEq, Eq)]
pub struct CellPaint {
    pub fg: [u8; 3],
    pub bg: [u8; 3],
    pub background_opaque: bool,
    pub metrics: TerminalMetrics,
}

/// A rectangle of pixels inside a cell, from its top-left corner.
#[derive(Debug, Clone, Copy, PartialEq, Eq, Structural)]
pub struct Rect {
    pub x: usize,
    pub y: usize,
    pub w: usize,
    pub h: usize,
}

/// How the pixels of a painted rectangle are coloured.
#[derive(Debug, Clone, Copy, PartialEq, Eq)]
pub enum Pattern {
    /// Every pixel in one colour.
    Solid([u8; 3]),
    /// Foreground inside the first `count` regions, background elsewhere
    /// when `fill_background`.
    Block { first: Rect, second: Rect, count: usize, fg: [u8; 3], bg: [u8; 3], fill_background: bool },
    /// Foreground where `(x + 3y) mod 4` is below `threshold`.
    Shade { threshold: usize, fg: [u8; 3], bg: [u8; 3], fill_background: bool },
    /// Foreground on lines two pixels thick from the centre to the sides.
    BoxLines {
        left: bool,
        right: bool,
        up: bool,
        down: bool,
        center_x: usize,
        center_y: usize,
        fg: [u8; 3],
        bg: [u8; 3],
        fill_background: bool,
    },
    /// An 8x8 glyph scaled to the cell.
    Bitmap {
        glyph: [u8; 8],
        bold: bool,
        cell_width: usize,
        cell_height: usize,
        fg: [u8; 3],
        bg: [u8; 3],
        opaque: bool,
    },
}

pub open spec fn in_rect(r: Rect, x: int, y: int) -> bool {
    r.x <= x < r.x + r.w && r.y <= y < r.y + r.h
}

pub open spec fn abs_diff(a: int, b: int) -> int {
    if a >= b {
        a - b
    } else {
        b - a
    }
}

/// Whether bit `i` of `row` is set.
pub open spec fn bit_set(row: u8, i: int) -> bool {
    0 <= i < 8 && (row >> (i as u8)) & 1 != 0
}

/// The colour of pixel `(x, y)` of a pattern, or `None` to leave it.
pub open spec fn pattern_rgb(p: Pattern, x: int, y: int) -> Option<Seq<u8>> {
    match p {
        Pattern::Solid(c) => Some(c@),
        Pattern::Block { first, second, count, fg, bg, fill_background } => {
            if (count >= 1 && in_rect(first, x, y)) || (count >= 2 && in_rect(second, x, y)) {
                Some(fg@)
            } else if fill_background {
                Some(bg@)
            } else {
                None
            }
        },
        Pattern::Shade { threshold, fg, bg, fill_background } => {
            if (x + y * 3) % 4 < threshold {
                Some(fg@)
            } else if fill_background {
                Some(bg@)
            } else {
                None
            }
        },
        Pattern::BoxLines { left, right, up, down, center_x, center_y, fg, bg, fill_background } => {
            let horizontal = abs_diff(y, center_y as int) < 2 && ((left && x <= center_x) || (right
                && x >= center_x));
            let vertical = abs_diff(x, center_x as int) < 2 && ((up && y <= center_y) || (down && y
                >= center_y));
            if horizontal || vertical {
                Some(fg@)
            } else if fill_background {
                Some(bg@)
            } else {
                None
            }
        },
        Pattern::Bitmap { glyph, bold, cell_width, cell_height, fg, bg, opaque } => {
            let gx = spec_sample_bitmap_axis(x, cell_width as int);
            let gy = spec_sample_bitmap_axis(y, cell_height as int);
            let row = glyph@[gy];
            if bit_set(row, gx) || (bold && gx > 0 && bit_set(row, gx - 1)) {
                Some(fg@)
            } else if opaque {
                Some(bg@)
            } else {
                None
            }
        },
    }
}

/// Whether a pattern can be evaluated on a `w` by `h` rectangle.
pub open spec fn pattern_ok(p: Pattern, w: int, h: int) -> bool {
    match p {
        Pattern::Bitmap { cell_width, cell_height, .. } => {
            &&& cell_width > 0
            &&& cell_height > 0
            &&& w * 8 + cell_width <= usize::MAX
            &&& h * 8 + cell_height <= usize::MAX
        },
        _ => true,
    }
}

/// Byte `k` of a frame `width` pixels wide after painting the `w` by `h`
/// rectangle at `(ox, oy)` with `p`: four bytes per pixel, RGB then an
/// opaque alpha.
pub open spec fn painted_byte(
    f: Seq<u8>,
    k: int,
    width: int,
    ox: int,
    oy: int,
    w: int,
    h: int,
    p: Pattern,
) -> u8 {
    let pixel = k / 4;
    let x = pixel % width;
    let y = pixel / width;
    let c = k % 4;
    if ox <= x < ox + w && oy <= y < oy + h {
        match pattern_rgb(p, x - ox, y - oy) {
            Some(rgb) => if c < 3 {
                rgb[c]
            } else {
                255
            },
            None => f[k],
        }
    } else {
        f[k]
    }
}

/// `f1` is `f0` with the rectangle painted.
pub open spec fn painted(
    f0: Seq<u8>,
    f1: Seq<u8>,
    width: int,
    ox: int,
    oy: int,
    w: int,
    h: int,
    p: Pattern,
) -> bool {
    &&& f1.len() == f0.len()
    &&& forall|k: int| 0 <= k < f0.len() ==> #[trigger] f1[k] == painted_byte(f0, k, width, ox, oy, w, h, p)
}

/// Whether a `w` by `h` rectangle at `(ox, oy)` lies inside a frame of
/// `len` bytes that is `width` pixels wide.
pub open spec fn rect_fits(len: int, width: int, ox: int, oy: int, w: int, h: int) -> bool {
    w == 0 || h == 0 || (ox + w <= width && (oy + h) * width * 4 <= len)
}

proof fn lemma_pixel_decomposition(width: int, x: int, y: int, c: int)
    requires
        0 <= x < width,
        0 <= y,
        0 <= c < 4,
    ensures
        ((y * width + x) * 4 + c) / 4 == y * width + x,
        ((y * width + x) * 4 + c) % 4 == c,
        (y * width + x) % width == x,
        (y * width + x) / width == y,
{
    lemma_fundamental_div_mod_converse((y * width + x) * 4 + c, 4, y * width + x, c);
    lemma_fundamental_div_mod_converse(y * width + x, width, y, x);
}

proof fn lemma_byte_position(width: int, k: int)
    requires
        width > 0,
        k >= 0,
    ensures
        k == ((k / 4 / width) * width + (k / 4) % width) * 4 + k % 4,
        0 <= (k / 4) % width < width,
        0 <= k % 4 < 4,
        k / 4 / width >= 0,
{
    lemma_fundamental_div_mod(k, 4);
    lemma_fundamental_div_mod(k / 4, width);
    assert(k / 4 == width * (k / 4 / width) + (k / 4) % width);
    assert(k == 4 * (k / 4) + k % 4);
    assert((k / 4 / width) * width == width * (k / 4 / width)) by (nonlinear_arith);
}

proof fn lemma_index_bound(width: int, ox: int, oy: int, w: int, h: int, px: int, py: int, len: int)
    requires
        0 <= px < w,
        0 <= py < h,
        0 <= ox,
        0 <= oy,
        ox + w <= width,
        (oy + h) * width * 4 <= len,
    ensures
        ((oy + py) * width + ox + px) * 4 + 4 <= len,
{
    assert((oy + py) * width <= (oy + h - 1) * width) by (nonlinear_arith)
        requires
            py <= h - 1,
            width >= 0,
    ;
    assert((oy + h - 1) * width + width == (oy + h) * width) by (nonlinear_arith);
    assert(((oy + py) * width + ox + px) * 4 + 4 <= (oy + h) * width * 4) by (nonlinear_arith)
        requires
            (oy + py) * width + ox + px + 1 <= (oy + h) * width,
    ;
}

/// The colour of pixel `(x, y)` of a pattern, or `None` to leave it.
pub fn pattern_pixel(p: &Pattern, x: usize, y: usize, w: usize, h: usize) -> (r: Option<[u8; 3]>)
    requires
        x < w,
        y < h,
        pattern_ok(*p, w as int, h as int),
    ensures
        match r {
            Some(c) => pattern_rgb(*p, x as int, y as int) == Some(c@),
            None => pattern_rgb(*p, x as int, y as int) is None,
        },
{
    match p {
        Pattern::Solid(c) => Some(*c),
        Pattern::Block { first, second, count, fg, bg, fill_background } => {
            let r0 = *first;
            let r1 = *second;
            let in0 = *count >= 1 && r0.x <= x && x - r0.x < r0.w && r0.y <= y && y - r0.y < r0.h;
            let in1 = *count >= 2 && r1.x <= x && x - r1.x < r1.w && r1.y <= y && y - r1.y < r1.h;
            if in0 || in1 {
                Some(*fg)
            } else if *fill_background {
                Some(*bg)
            } else {
                None
            }
        },
        Pattern::Shade { threshold, fg, bg, fill_background } => {
            let pattern = (x % 4 + (y % 4) * 3) % 4;
            assert(pattern == (x + y * 3) % 4) by (nonlinear_arith)
                requires
                    pattern == (x % 4 + (y % 4) * 3) % 4,
                    x >= 0,
                    y >= 0,
            {
                vstd::arithmetic::div_mod::lemma_add_mod_noop(x as int, (y * 3) as int, 4);
                vstd::arithmetic::div_mod::lemma_mul_mod_noop_left(y as int, 3, 4);
                vstd::arithmetic::div_mod::lemma_add_mod_noop(x as int, ((y % 4) * 3) as int, 4);
            }
            if pattern < *threshold {
                Some(*fg)
            } else if *fill_background {
                Some(*bg)
            } else {
                None
            }
        },
        Pattern::BoxLines { left, right, up, down, center_x, center_y, fg, bg, fill_background } => {
            let dy = if y >= *center_y {
                y - *center_y
            } else {
                *center_y - y
            };
            let dx = if x >= *center_x {
                x - *center_x
            } else {
                *center_x - x
            };
            let horizontal = dy < 2 && ((*left && x <= *center_x) || (*right && x >= *center_x));
            let vertical = dx < 2 && ((*up && y <= *center_y) || (*down && y >= *center_y));
            if horizontal || vertical {
                Some(*fg)
            } else if *fill_background {
                Some(*bg)
            } else {
                None
            }
        },
        Pattern::Bitmap { glyph, bold, cell_width, cell_height, fg, bg, opaque } => {
            let gx = sample_bitmap_axis(x, *cell_width);
            let gy = sample_bitmap_axis(y, *cell_height);
            let row = glyph[gy];
            let bit = (row >> (gx as u8)) & 1 != 0;
            let prev = *bold && gx > 0 && (row >> ((gx - 1) as u8)) & 1 != 0;
            if bit || prev {
                Some(*fg)
            } else if *opaque {
                Some(*bg)
            } else {
                None
            }
        },
    }
}

/// Sets the four bytes of one pixel at `index`: the colour, then an opaque alpha.
fn set_pixel(frame: &mut Vec<u8>, index: usize, color: [u8; 3])
    requires
        index + 4 <= old(frame)@.len(),
    ensures
        final(frame)@ == old(frame)@.update(index as int, color@[0]).update(
            index + 1,
            color@[1],
        ).update(index + 2, color@[2]).update(index + 3, 255u8),
{
    let _len = frame.len();
    frame.set(index, color[0]);
    frame.set(index + 1, color[1]);
    frame.set(index + 2, color[2]);
    frame.set(index + 3, 0xff);
}

/// Paints the `w` by `h` rectangle at `(ox, oy)` of a frame `width` pixels
/// wide with `pattern`.
pub fn paint_rect(
    frame: &mut Vec<u8>,
    width: usize,
    ox: usize,
    oy: usize,
    w: usize,
    h: usize,
    pattern: &Pattern,
)
    requires
        rect_fits(old(frame)@.len() as int, width as int, ox as int, oy as int, w as int, h as int),
        pattern_ok(*pattern, w as int, h as int),
    ensures
        painted(old(frame)@, final(frame)@, width as int, ox as int, oy as int, w as int, h as int, *pattern),
{
    let ghost f0 = frame@;
    if w == 0 || h == 0 {
        assert forall|k: int| 0 <= k < f0.len() implies #[trigger] frame@[k] == painted_byte(
            f0,
            k,
            width as int,
            ox as int,
            oy as int,
            w as int,
            h as int,
            *pattern,
        ) by {}
        return;
    }
    let mut py: usize = 0;
    while py < h
        invariant
            0 < w,
            0 < h,
            py <= h,
            ox + w <= width,
            (oy + h) * width * 4 <= f0.len(),
            frame@.len() == f0.len(),
            pattern_ok(*pattern, w as int, h as int),
            forall|k: int|
                0 <= k < f0.len() ==> #[trigger] frame@[k] == (if (k / 4) / (width as int) - oy < py {
                    painted_byte(f0, k, width as int, ox as int, oy as int, w as int, h as int, *pattern)
                } else {
                    f0[k]
                }),
        decreases h - py,
    {
        paint_row(frame, width, ox, oy, w, h, pattern, py, Ghost(f0));
        py = py + 1;
    }
    assert forall|k: int| 0 <= k < f0.len() implies #[trigger] frame@[k] == painted_byte(
        f0,
        k,
        width as int,
        ox as int,
        oy as int,
        w as int,
        h as int,
        *pattern,
    ) by {
        if (k / 4) / (width as int) - oy >= py {
            lemma_byte_position(width as int, k);
        }
    }
}

/// Paints row `py` of the rectangle.
fn paint_row(
    frame: &mut Vec<u8>,
    width: usize,
    ox: usize,
    oy: usize,
    w: usize,
    h: usize,
    pattern: &Pattern,
    py: usize,
    Ghost(f0): Ghost<Seq<u8>>,
)
    requires
        0 < w,
        py < h,
        ox + w <= width,
        (oy + h) * width * 4 <= f0.len(),
        old(frame)@.len() == f0.len(),
        pattern_ok(*pattern, w as int, h as int),
        forall|k: int|
            0 <= k < f0.len() ==> #[trigger] old(frame)@[k] == (if (k / 4) / (width as int) - oy < py {
                painted_byte(f0, k, width as int, ox as int, oy as int, w as int, h as int, *pattern)
            } else {
                f0[k]
            }),
    ensures
        final(frame)@.len() == f0.len(),
        forall|k: int|
            0 <= k < f0.len() ==> #[trigger] final(frame)@[k] == (if (k / 4) / (width as int) - oy < py + 1 {
                painted_byte(f0, k, width as int, ox as int, oy as int, w as int, h as int, *pattern)
            } else {
                f0[k]
            }),
{
    let ghost wi = width as int;
    let ghost row = oy + py;
    let total = frame.len();
    let mut px: usize = 0;
    while px < w
        invariant
            0 < w,
            px <= w,
            py < h,
            ox + w <= width,
            row == oy + py,
            wi == width,
            total == f0.len(),
            (oy + h) * width * 4 <= f0.len(),
            frame@.len() == f0.len(),
            pattern_ok(*pattern, w as int, h as int),
            forall|k: int|
                0 <= k < f0.len() ==> #[trigger] frame@[k] == (if (k / 4) / wi - oy < py || ((k / 4)
                    / wi == row && (k / 4) % wi - ox < px) {
                    painted_byte(f0, k, wi, ox as int, oy as int, w as int, h as int, *pattern)
                } else {
                    f0[k]
                }),
        decreases w - px,
    {
        proof {
            lemma_index_bound(wi, ox as int, oy as int, w as int, h as int, px as int, py as int, f0.len() as int);
        }
        assert(oy + h <= (oy + h) * width * 4) by (nonlinear_arith)
            requires
                width >= 1,
                oy + h >= 0,
        ;
        assert((oy + py) * width <= (oy + py) * width + ox + px);
        let index = ((oy + py) * width + ox + px) * 4;
        let ghost before = frame@;
        let color = pattern_pixel(pattern, px, py, w, h);
        match color {
            Some(c) => set_pixel(frame, index, c),
            None => {},
        }
        proof {
            assert forall|k: int| 0 <= k < f0.len() implies #[trigger] frame@[k] == (if (k / 4) / wi
                - oy < py || ((k / 4) / wi == row && (k / 4) % wi - ox < px + 1) {
                painted_byte(f0, k, wi, ox as int, oy as int, w as int, h as int, *pattern)
            } else {
                f0[k]
            }) by {
                lemma_byte_position(wi, k);
                let x = (k / 4) % wi;
                let y = (k / 4) / wi;
                let c = k % 4;
                if index <= k < index + 4 {
                    lemma_pixel_decomposition(wi, (ox + px) as int, row, k - index);
                    assert(k == ((row * wi + ox + px) * 4 + (k - index)));
                    assert(x == ox + px && y == row && c == k - index);
                } else {
                    if y == row && x == ox + px {
                        assert(k == (row * wi + ox + px) * 4 + c);
                        assert(false);
                    }
                    assert(frame@[k] == before[k]);
                }
            }
        }
        px = px + 1;
    }
    proof {
        assert forall|k: int| 0 <= k < f0.len() implies #[trigger] frame@[k] == (if (k / 4) / wi - oy
            < py + 1 {
            painted_byte(f0, k, wi, ox as int, oy as int, w as int, h as int, *pattern)
        } else {
            f0[k]
        }) by {
            lemma_byte_position(wi, k);
            let x = (k / 4) % wi;
            let y = (k / 4) / wi;
            if y == row && !(x - ox < px) {
                // columns right of the rectangle on this row keep their bytes
                assert(painted_byte(f0, k, wi, ox as int, oy as int, w as int, h as int, *pattern) == f0[k]);
            }
        }
    }
}


/// The pixel origin of cell `(cell_x, cell_y)`.
pub open spec fn cell_origin(cell_x: u16, cell_y: u16, metrics: TerminalMetrics) -> (int, int) {
    (cell_x * metrics.cell_width, cell_y * metrics.cell_height)
}

/// Whether `columns` cells from `(cell_x, cell_y)` lie inside a frame of
/// `len` bytes, `width` pixels wide, and their pixel coordinates fit in a
/// `usize`.
pub open spec fn cells_fit(
    len: int,
    width: int,
    cell_x: u16,
    cell_y: u16,
    columns: int,
    metrics: TerminalMetrics,
) -> bool {
    let (ox, oy) = cell_origin(cell_x, cell_y, metrics);
    &&& ox <= usize::MAX
    &&& oy <= usize::MAX
    &&& metrics.cell_width * columns <= usize::MAX
    &&& rect_fits(len, width, ox, oy, metrics.cell_width * columns, metrics.cell_height as int)
}

/// The pixel origin of a cell, in `usize`.
fn origin(cell_x: u16, cell_y: u16, metrics: TerminalMetrics) -> (r: (usize, usize))
    requires
        cell_origin(cell_x, cell_y, metrics).0 <= usize::MAX,
        cell_origin(cell_x, cell_y, metrics).1 <= usize::MAX,
    ensures
        r.0 == cell_origin(cell_x, cell_y, metrics).0,
        r.1 == cell_origin(cell_x, cell_y, metrics).1,
{
    (cell_x as usize * metrics.cell_width as usize, cell_y as usize * metrics.cell_height as usize)
}

/// Fills one cell with `color`.
pub fn fill_cell(
    frame: &mut Vec<u8>,
    width: usize,
    cell_x: u16,
    cell_y: u16,
    color: [u8; 3],
    metrics: TerminalMetrics,
)
    requires
        cells_fit(old(frame)@.len() as int, width as int, cell_x, cell_y, 1, metrics),
    ensures
        painted(
            old(frame)@,
            final(frame)@,
            width as int,
            cell_origin(cell_x, cell_y, metrics).0,
            cell_origin(cell_x, cell_y, metrics).1,
            metrics.cell_width as int,
            metrics.cell_height as int,
            Pattern::Solid(color),
        ),
{
    let (ox, oy) = origin(cell_x, cell_y, metrics);
    paint_rect(
        frame,
        width,
        ox,
        oy,
        metrics.cell_width as usize,
        metrics.cell_height as usize,
        &Pattern::Solid(color),
    );
}

/// Fills `columns` cells (at least one) from `(cell_x, cell_y)` with `color`.
pub fn fill_cell_span(
    frame: &mut Vec<u8>,
    width: usize,
    cell_x: u16,
    cell_y: u16,
    columns: u16,
    color: [u8; 3],
    metrics: TerminalMetrics,
)
    requires
        cells_fit(
            old(frame)@.len() as int,
            width as int,
            cell_x,
            cell_y,
            if columns >= 1 {
                columns as int
            } else {
                1
            },
            metrics,
        ),
    ensures
        painted(
            old(frame)@,
            final(frame)@,
            width as int,
            cell_origin(cell_x, cell_y, metrics).0,
            cell_origin(cell_x, cell_y, metrics).1,
            metrics.cell_width * (if columns >= 1 {
                columns as int
            } else {
                1
            }),
            metrics.cell_height as int,
            Pattern::Solid(color),
        ),
{
    let (ox, oy) = origin(cell_x, cell_y, metrics);
    let columns = if columns >= 1 {
        columns
    } else {
        1
    };
    let pixel_width = metrics.cell_width as usize * columns as usize;
    paint_rect(frame, width, ox, oy, pixel_width, metrics.cell_height as usize, &Pattern::Solid(color));
}

/// Fills the pixel rows of text row `y`, across the whole frame; a row
/// beyond the end of the frame is left alone.
pub fn fill_row(frame: &mut Vec<u8>, width: usize, y: u16, color: [u8; 3], metrics: TerminalMetrics)
    requires
        (y as int + 1) * metrics.cell_height * width * 4 <= usize::MAX,
    ensures
        (y as int + 1) * metrics.cell_height * width * 4 <= old(frame)@.len() ==> painted(
            old(frame)@,
            final(frame)@,
            width as int,
            0,
            y * metrics.cell_height,
            width as int,
            metrics.cell_height as int,
            Pattern::Solid(color),
        ),
        (y as int + 1) * metrics.cell_height * width * 4 > old(frame)@.len() ==> final(frame)@
            == old(frame)@,
{
    let h = metrics.cell_height as usize;
    if width == 0 || h == 0 {
        assert forall|k: int| 0 <= k < old(frame)@.len() implies #[trigger] frame@[k] == painted_byte(
            old(frame)@,
            k,
            width as int,
            0,
            y * metrics.cell_height,
            width as int,
            metrics.cell_height as int,
            Pattern::Solid(color),
        ) by {}
        return;
    }
    proof {
        assert((y as int + 1) * h == y * h + h) by (nonlinear_arith);
        assert((y as int + 1) * h * width * 4 == ((y as int + 1) * h) * width * 4) by (nonlinear_arith);
        assert((y as int + 1) * h <= (y as int + 1) * h * width * 4) by (nonlinear_arith)
            requires
                y >= 0,
                h >= 1,
                width >= 1,
        ;
    }
    let top = y as usize * h;
    let end = (top + h) * width * 4;
    if end <= frame.len() {
        paint_rect(frame, width, 0, top, width, h, &Pattern::Solid(color));
    }
}

/// Draws an underline, one pixel high and two above the bottom of the
/// cell, under `columns` cells (at least one).
pub fn draw_underline_span(
    frame: &mut Vec<u8>,
    width: usize,
    cell_x: u16,
    cell_y: u16,
    columns: u16,
    color: [u8; 3],
    metrics: TerminalMetrics,
)
    requires
        cell_origin(cell_x, cell_y, metrics).1 + metrics.cell_height >= 2,
        cell_origin(cell_x, cell_y, metrics).0 <= usize::MAX,
        cell_origin(cell_x, cell_y, metrics).1 + metrics.cell_height <= usize::MAX,
        metrics.cell_width * (if columns >= 1 {
            columns as int
        } else {
            1
        }) <= usize::MAX,
        rect_fits(
            old(frame)@.len() as int,
            width as int,
            cell_origin(cell_x, cell_y, metrics).0,
            cell_origin(cell_x, cell_y, metrics).1 + metrics.cell_height - 2,
            metrics.cell_width * (if columns >= 1 {
                columns as int
            } else {
                1
            }),
            1,
        ),
    ensures
        painted(
            old(frame)@,
            final(frame)@,
            width as int,
            cell_origin(cell_x, cell_y, metrics).0,
            cell_origin(cell_x, cell_y, metrics).1 + metrics.cell_height - 2,
            metrics.cell_width * (if columns >= 1 {
                columns as int
            } else {
                1
            }),
            1,
            Pattern::Solid(color),
        ),
{
    let (ox, oy) = origin(cell_x, cell_y, metrics);
    let y = oy + metrics.cell_height as usize - 2;
    let columns = if columns >= 1 {
        columns
    } else {
        1
    };
    let pixel_width = metrics.cell_width as usize * columns as usize;
    paint_rect(frame, width, ox, y, pixel_width, 1, &Pattern::Solid(color));
}

/// The rectangles of a block element in a `w` by `h` cell (halves and
/// quadrants, rounded down), and how many there are.
pub open spec fn spec_block_regions(ch: char, w: usize, h: usize) -> Option<(Rect, Rect, usize)> {
    if ch == '\u{2588}' {
        Some((Rect { x: 0, y: 0, w: w, h: h }, Rect { x: 0, y: 0, w: 0, h: 0 }, 1usize))
    } else if ch == '\u{2580}' {
        Some((Rect { x: 0, y: 0, w: w, h: (h / 2) }, Rect { x: 0, y: 0, w: 0, h: 0 }, 1usize))
    } else if ch == '\u{2584}' {
        Some((Rect { x: 0, y: (h / 2), w: w, h: (h / 2) }, Rect { x: 0, y: 0, w: 0, h: 0 }, 1usize))
    } else if ch == '\u{258c}' {
        Some((Rect { x: 0, y: 0, w: (w / 2), h: h }, Rect { x: 0, y: 0, w: 0, h: 0 }, 1usize))
    } else if ch == '\u{2590}' {
        Some((Rect { x: (w / 2), y: 0, w: (w / 2), h: h }, Rect { x: 0, y: 0, w: 0, h: 0 }, 1usize))
    } else if ch == '\u{2598}' {
        Some((Rect { x: 0, y: 0, w: (w / 2), h: (h / 2) }, Rect { x: 0, y: 0, w: 0, h: 0 }, 1usize))
    } else if ch == '\u{259d}' {
        Some((Rect { x: (w / 2), y: 0, w: (w / 2), h: (h / 2) }, Rect { x: 0, y: 0, w: 0, h: 0 }, 1usize))
    } else if ch == '\u{2596}' {
        Some((Rect { x: 0, y: (h / 2), w: (w / 2), h: (h / 2) }, Rect { x: 0, y: 0, w: 0, h: 0 }, 1usize))
    } else if ch == '\u{2597}' {
        Some((Rect { x: (w / 2), y: (h / 2), w: (w / 2), h: (h / 2) }, Rect { x: 0, y: 0, w: 0, h: 0 }, 1usize))
    } else if ch == '\u{259a}' {
        Some((Rect { x: 0, y: 0, w: (w / 2), h: (h / 2) }, Rect { x: (w / 2), y: (h / 2), w: (w / 2), h: (h / 2) }, 2usize))
    } else if ch == '\u{259e}' {
        Some((Rect { x: (w / 2), y: 0, w: (w / 2), h: (h / 2) }, Rect { x: 0, y: (h / 2), w: (w / 2), h: (h / 2) }, 2usize))
    } else if ch == '\u{2599}' {
        Some((Rect { x: 0, y: 0, w: (w / 2), h: (h / 2) }, Rect { x: 0, y: (h / 2), w: w, h: (h / 2) }, 2usize))
    } else if ch == '\u{259b}' {
        Some((Rect { x: 0, y: 0, w: w, h: (h / 2) }, Rect { x: 0, y: (h / 2), w: (w / 2), h: (h / 2) }, 2usize))
    } else if ch == '\u{259c}' {
        Some((Rect { x: 0, y: 0, w: w, h: (h / 2) }, Rect { x: (w / 2), y: (h / 2), w: (w / 2), h: (h / 2) }, 2usize))
    } else if ch == '\u{259f}' {
        Some((Rect { x: (w / 2), y: 0, w: (w / 2), h: (h / 2) }, Rect { x: 0, y: (h / 2), w: w, h: (h / 2) }, 2usize))
    } else {
        None
    }
}

pub fn block_regions(ch: char, w: usize, h: usize) -> (r: Option<(Rect, Rect, usize)>)
    ensures
        r == spec_block_regions(ch, w, h),
{
    match ch {
        '\u{2588}' => Some((Rect { x: 0, y: 0, w: w, h: h }, Rect { x: 0, y: 0, w: 0, h: 0 }, 1)),
        '\u{2580}' => Some((Rect { x: 0, y: 0, w: w, h: (h / 2) }, Rect { x: 0, y: 0, w: 0, h: 0 }, 1)),
        '\u{2584}' => Some((Rect { x: 0, y: (h / 2), w: w, h: (h / 2) }, Rect { x: 0, y: 0, w: 0, h: 0 }, 1)),
        '\u{258c}' => Some((Rect { x: 0, y: 0, w: (w / 2), h: h }, Rect { x: 0, y: 0, w: 0, h: 0 }, 1)),
        '\u{2590}' => Some((Rect { x: (w / 2), y: 0, w: (w / 2), h: h }, Rect { x: 0, y: 0, w: 0, h: 0 }, 1)),
        '\u{2598}' => Some((Rect { x: 0, y: 0, w: (w / 2), h: (h / 2) }, Rect { x: 0, y: 0, w: 0, h: 0 }, 1)),
        '\u{259d}' => Some((Rect { x: (w / 2), y: 0, w: (w / 2), h: (h / 2) }, Rect { x: 0, y: 0, w: 0, h: 0 }, 1)),
        '\u{2596}' => Some((Rect { x: 0, y: (h / 2), w: (w / 2), h: (h / 2) }, Rect { x: 0, y: 0, w: 0, h: 0 }, 1)),
        '\u{2597}' => Some((Rect { x: (w / 2), y: (h / 2), w: (w / 2), h: (h / 2) }, Rect { x: 0, y: 0, w: 0, h: 0 }, 1)),
        '\u{259a}' => Some((Rect { x: 0, y: 0, w: (w / 2), h: (h / 2) }, Rect { x: (w / 2), y: (h / 2), w: (w / 2), h: (h / 2) }, 2)),
        '\u{259e}' => Some((Rect { x: (w / 2), y: 0, w: (w / 2), h: (h / 2) }, Rect { x: 0, y: (h / 2), w: (w / 2), h: (h / 2) }, 2)),
        '\u{2599}' => Some((Rect { x: 0, y: 0, w: (w / 2), h: (h / 2) }, Rect { x: 0, y: (h / 2), w: w, h: (h / 2) }, 2)),
        '\u{259b}' => Some((Rect { x: 0, y: 0, w: w, h: (h / 2) }, Rect { x: 0, y: (h / 2), w: (w / 2), h: (h / 2) }, 2)),
        '\u{259c}' => Some((Rect { x: 0, y: 0, w: w, h: (h / 2) }, Rect { x: (w / 2), y: (h / 2), w: (w / 2), h: (h / 2) }, 2)),
        '\u{259f}' => Some((Rect { x: (w / 2), y: 0, w: (w / 2), h: (h / 2) }, Rect { x: 0, y: (h / 2), w: w, h: (h / 2) }, 2)),
        _ => None,
    }
}

/// The threshold of a shade character: how many of each four pixels get
/// the foreground.
pub open spec fn spec_shade_threshold(ch: char) -> Option<usize> {
    if ch == '\u{2591}' {
        Some(1)
    } else if ch == '\u{2592}' {
        Some(2)
    } else if ch == '\u{2593}' {
        Some(3)
    } else {
        None
    }
}

/// How the renderer draws `ch` geometrically, if it does: as a block
/// element, a shade, or box lines (tried in that order).
pub open spec fn special_pattern(
    ch: char,
    paint: CellPaint,
    fill_background: bool,
    kind: int,
) -> Option<Pattern> {
    let w = paint.metrics.cell_width as usize;
    let h = paint.metrics.cell_height as usize;
    if kind == 0 {
        match spec_block_regions(ch, w, h) {
            Some((first, second, count)) => Some(
                Pattern::Block { first, second, count, fg: paint.fg, bg: paint.bg, fill_background },
            ),
            None => None,
        }
    } else if kind == 1 {
        match spec_shade_threshold(ch) {
            Some(threshold) => Some(
                Pattern::Shade { threshold, fg: paint.fg, bg: paint.bg, fill_background },
            ),
            None => None,
        }
    } else {
        match spec_box_segments(ch) {
            Some((left, right, up, down)) => Some(
                Pattern::BoxLines {
                    left,
                    right,
                    up,
                    down,
                    center_x: w / 2,
                    center_y: h / 2,
                    fg: paint.fg,
                    bg: paint.bg,
                    fill_background,
                },
            ),
            None => None,
        }
    }
}

/// `f1` is `f0` with cell `(cell_x, cell_y)` drawn by `pattern`, or
/// unchanged when there is none.
pub open spec fn drew_cell(
    f0: Seq<u8>,
    f1: Seq<u8>,
    width: usize,
    cell_x: u16,
    cell_y: u16,
    metrics: TerminalMetrics,
    pattern: Option<Pattern>,
    r: bool,
) -> bool {
    match pattern {
        Some(p) => r && painted(
            f0,
            f1,
            width as int,
            cell_origin(cell_x, cell_y, metrics).0,
            cell_origin(cell_x, cell_y, metrics).1,
            metrics.cell_width as int,
            metrics.cell_height as int,
            p,
        ),
        None => !r && f1 == f0,
    }
}

fn draw_pattern_cell(
    frame: &mut Vec<u8>,
    width: usize,
    cell_x: u16,
    cell_y: u16,
    metrics: TerminalMetrics,
    pattern: Option<Pattern>,
) -> (r: bool)
    requires
        pattern is Some ==> cells_fit(old(frame)@.len() as int, width as int, cell_x, cell_y, 1, metrics),
        pattern matches Some(p) ==> pattern_ok(p, metrics.cell_width as int, metrics.cell_height as int),
    ensures
        drew_cell(old(frame)@, final(frame)@, width, cell_x, cell_y, metrics, pattern, r),
{
    match pattern {
        Some(p) => {
            let (ox, oy) = origin(cell_x, cell_y, metrics);
            paint_rect(frame, width, ox, oy, metrics.cell_width as usize, metrics.cell_height as usize, &p);
            true
        },
        None => false,
    }
}

fn block_pattern(ch: char, paint: CellPaint, fill_background: bool) -> (r: Option<Pattern>)
    ensures
        r == special_pattern(ch, paint, fill_background, 0),
{
    match block_regions(ch, paint.metrics.cell_width as usize, paint.metrics.cell_height as usize) {
        Some((first, second, count)) => Some(
            Pattern::Block { first, second, count, fg: paint.fg, bg: paint.bg, fill_background },
        ),
        None => None,
    }
}

fn shade_pattern(ch: char, paint: CellPaint, fill_background: bool) -> (r: Option<Pattern>)
    ensures
        r == special_pattern(ch, paint, fill_background, 1),
{
    let threshold: usize = match ch {
        '\u{2591}' => 1,
        '\u{2592}' => 2,
        '\u{2593}' => 3,
        _ => {
            return None;
        },
    };
    Some(Pattern::Shade { threshold, fg: paint.fg, bg: paint.bg, fill_background })
}

fn box_pattern(ch: char, paint: CellPaint, fill_background: bool) -> (r: Option<Pattern>)
    ensures
        r == special_pattern(ch, paint, fill_background, 2),
{
    match box_segments(ch) {
        Some((left, right, up, down)) => Some(
            Pattern::BoxLines {
                left,
                right,
                up,
                down,
                center_x: paint.metrics.cell_width as usize / 2,
                center_y: paint.metrics.cell_height as usize / 2,
                fg: paint.fg,
                bg: paint.bg,
                fill_background,
            },
        ),
        None => None,
    }
}

/// Draws a block element as rectangles in the foreground colour, over the
/// background when `fill_background`; `false` (and nothing drawn) for any
/// other character.
pub fn draw_block_cell_inner(
    frame: &mut Vec<u8>,
    width: usize,
    cell_x: u16,
    cell_y: u16,
    ch: char,
    paint: CellPaint,
    fill_background: bool,
) -> (r: bool)
    requires
        special_pattern(ch, paint, fill_background, 0) is Some ==> cells_fit(old(frame)@.len() as int, width as int, cell_x, cell_y, 1, paint.metrics),
    ensures
        drew_cell(
            old(frame)@,
            final(frame)@,
            width,
            cell_x,
            cell_y,
            paint.metrics,
            special_pattern(ch, paint, fill_background, 0),
            r,
        ),
{
    let pattern = block_pattern(ch, paint, fill_background);
    draw_pattern_cell(frame, width, cell_x, cell_y, paint.metrics, pattern)
}

/// Draws a shade character as a dither pattern.
pub fn draw_shade_cell_inner(
    frame: &mut Vec<u8>,
    width: usize,
    cell_x: u16,
    cell_y: u16,
    ch: char,
    paint: CellPaint,
    fill_background: bool,
) -> (r: bool)
    requires
        special_pattern(ch, paint, fill_background, 1) is Some ==> cells_fit(old(frame)@.len() as int, width as int, cell_x, cell_y, 1, paint.metrics),
    ensures
        drew_cell(
            old(frame)@,
            final(frame)@,
            width,
            cell_x,
            cell_y,
            paint.metrics,
            special_pattern(ch, paint, fill_background, 1),
            r,
        ),
{
    let pattern = shade_pattern(ch, paint, fill_background);
    draw_pattern_cell(frame, width, cell_x, cell_y, paint.metrics, pattern)
}

/// Draws a box-drawing character as lines two pixels thick.
pub fn draw_box_cell_inner(
    frame: &mut Vec<u8>,
    width: usize,
    cell_x: u16,
    cell_y: u16,
    ch: char,
    paint: CellPaint,
    fill_background: bool,
) -> (r: bool)
    requires
        special_pattern(ch, paint, fill_background, 2) is Some ==> cells_fit(old(frame)@.len() as int, width as int, cell_x, cell_y, 1, paint.metrics),
    ensures
        drew_cell(
            old(frame)@,
            final(frame)@,
            width,
            cell_x,
            cell_y,
            paint.metrics,
            special_pattern(ch, paint, fill_background, 2),
            r,
        ),
{
    let pattern = box_pattern(ch, paint, fill_background);
    draw_pattern_cell(frame, width, cell_x, cell_y, paint.metrics, pattern)
}

/// Draws a block element over the cell background.
pub fn draw_block_cell(
    frame: &mut Vec<u8>,
    width: usize,
    cell_x: u16,
    cell_y: u16,
    ch: char,
    paint: CellPaint,
) -> (r: bool)
    requires
        special_pattern(ch, paint, true, 0) is Some ==> cells_fit(old(frame)@.len() as int, width as int, cell_x, cell_y, 1, paint.metrics),
    ensures
        drew_cell(
            old(frame)@,
            final(frame)@,
            width,
            cell_x,
            cell_y,
            paint.metrics,
            special_pattern(ch, paint, true, 0),
            r,
        ),
{
    draw_block_cell_inner(frame, width, cell_x, cell_y, ch, paint, true)
}

/// Draws a shade character over the cell background.
pub fn draw_shade_cell(
    frame: &mut Vec<u8>,
    width: usize,
    cell_x: u16,
    cell_y: u16,
    ch: char,
    paint: CellPaint,
) -> (r: bool)
    requires
        special_pattern(ch, paint, true, 1) is Some ==> cells_fit(old(frame)@.len() as int, width as int, cell_x, cell_y, 1, paint.metrics),
    ensures
        drew_cell(
            old(frame)@,
            final(frame)@,
            width,
            cell_x,
            cell_y,
            paint.metrics,
            special_pattern(ch, paint, true, 1),
            r,
        ),
{
    draw_shade_cell_inner(frame, width, cell_x, cell_y, ch, paint, true)
}

/// Draws a box-drawing character over the cell background.
pub fn draw_box_cell(
    frame: &mut Vec<u8>,
    width: usize,
    cell_x: u16,
    cell_y: u16,
    ch: char,
    paint: CellPaint,
) -> (r: bool)
    requires
        special_pattern(ch, paint, true, 2) is Some ==> cells_fit(old(frame)@.len() as int, width as int, cell_x, cell_y, 1, paint.metrics),
    ensures
        drew_cell(
            old(frame)@,
            final(frame)@,
            width,
            cell_x,
            cell_y,
            paint.metrics,
            special_pattern(ch, paint, true, 2),
            r,
        ),
{
    draw_box_cell_inner(frame, width, cell_x, cell_y, ch, paint, true)
}

/// Draws a cell the renderer draws itself (a block element, a shade or a
/// box line) over what is there; `false` when `ch` is none of these.
pub fn draw_special_cell(
    frame: &mut Vec<u8>,
    width: usize,
    cell_x: u16,
    cell_y: u16,
    ch: char,
    paint: CellPaint,
) -> (r: bool)
    requires
        (special_pattern(ch, paint, false, 0) is Some || special_pattern(ch, paint, false, 1) is Some
            || special_pattern(ch, paint, false, 2) is Some) ==> cells_fit(old(frame)@.len() as int, width as int, cell_x, cell_y, 1, paint.metrics),
    ensures
        ({
            let kind = if special_pattern(ch, paint, false, 0) is Some {
                0int
            } else if special_pattern(ch, paint, false, 1) is Some {
                1int
            } else {
                2int
            };
            drew_cell(
                old(frame)@,
                final(frame)@,
                width,
                cell_x,
                cell_y,
                paint.metrics,
                special_pattern(ch, paint, false, kind),
                r,
            )
        }),
{
    draw_block_cell_inner(frame, width, cell_x, cell_y, ch, paint, false) || draw_shade_cell_inner(
        frame,
        width,
        cell_x,
        cell_y,
        ch,
        paint,
        false,
    ) || draw_box_cell_inner(frame, width, cell_x, cell_y, ch, paint, false)
}

/// The glyph the bitmap renderer draws for `ch`: its own, else that of its
/// ASCII fallback, else that of `?`, else an empty one.
pub open spec fn bitmap_cell_glyph(ch: char) -> Seq<u8> {
    match spec_bitmap_glyph(ch) {
        Some(g) => g,
        None => match spec_ascii_glyph_fallback(ch) {
            Some(f) => match spec_bitmap_glyph(f) {
                Some(g) => g,
                None => fallback_glyph(),
            },
            None => fallback_glyph(),
        },
    }
}

pub open spec fn fallback_glyph() -> Seq<u8> {
    match spec_bitmap_glyph('?') {
        Some(g) => g,
        None => seq![0u8, 0, 0, 0, 0, 0, 0, 0],
    }
}

fn cell_glyph(ch: char) -> (r: [u8; 8])
    ensures
        r@ == bitmap_cell_glyph(ch),
{
    match bitmap_glyph(ch) {
        Some(g) => g,
        None => {
            let fallback = match ascii_glyph_fallback(ch) {
                Some(f) => bitmap_glyph(f),
                None => None,
            };
            match fallback {
                Some(g) => g,
                None => match bitmap_glyph('?') {
                    Some(g) => g,
                    None => {
                        let empty = [0u8; 8];
                        assert(empty@ =~= seq![0u8, 0, 0, 0, 0, 0, 0, 0]);
                        empty
                    },
                },
            }
        },
    }
}

/// The pattern that draws `glyph` in a cell painted with `paint`.
pub open spec fn bitmap_pattern(glyph: [u8; 8], bold: bool, paint: CellPaint) -> Pattern {
    Pattern::Bitmap {
        glyph,
        bold,
        cell_width: paint.metrics.cell_width as usize,
        cell_height: paint.metrics.cell_height as usize,
        fg: paint.fg,
        bg: paint.bg,
        opaque: paint.background_opaque,
    }
}

/// Draws `ch` from the 8x8 bitmap font, scaled to the cell; `bold` also
/// sets each pixel right of a set one. Unset pixels take the background
/// only when the paint is opaque.
pub fn draw_bitmap_cell(
    frame: &mut Vec<u8>,
    width: usize,
    cell_x: u16,
    cell_y: u16,
    ch: char,
    bold: bool,
    paint: CellPaint,
)
    requires
        cells_fit(old(frame)@.len() as int, width as int, cell_x, cell_y, 1, paint.metrics),
        paint.metrics.cell_width > 0,
        paint.metrics.cell_height > 0,
        paint.metrics.cell_width * 9 <= usize::MAX,
        paint.metrics.cell_height * 9 <= usize::MAX,
    ensures
        exists|glyph: [u8; 8]|
            glyph@ == bitmap_cell_glyph(ch) && painted(
                old(frame)@,
                final(frame)@,
                width as int,
                cell_origin(cell_x, cell_y, paint.metrics).0,
                cell_origin(cell_x, cell_y, paint.metrics).1,
                paint.metrics.cell_width as int,
                paint.metrics.cell_height as int,
                #[trigger] bitmap_pattern(glyph, bold, paint),
            ),
{
    let glyph = cell_glyph(ch);
    let (ox, oy) = origin(cell_x, cell_y, paint.metrics);
    let w = paint.metrics.cell_width as usize;
    let h = paint.metrics.cell_height as usize;
    let pattern = Pattern::Bitmap {
        glyph,
        bold,
        cell_width: w,
        cell_height: h,
        fg: paint.fg,
        bg: paint.bg,
        opaque: paint.background_opaque,
    };
    paint_rect(frame, width, ox, oy, w, h, &pattern);
    assert(pattern == bitmap_pattern(glyph, bold, paint));
}

/// One channel of a blend over an opaque pixel.
pub open spec fn blend_opaque_channel(dst: u8, src: u8, alpha: u8) -> u8 {
    ((dst * (255 - alpha) + src * alpha) / 255) as u8
}

/// The alpha of a blend over a translucent pixel of alpha `dst_alpha`.
pub open spec fn blend_alpha(dst_alpha: u8, alpha: u8) -> int {
    alpha + (dst_alpha * (255 - alpha) + 127) / 255
}

/// One channel of a blend over a translucent pixel.
pub open spec fn blend_channel(dst: u8, dst_alpha: u8, src: u8, alpha: u8) -> u8 {
    let out = blend_alpha(dst_alpha, alpha);
    ((src * alpha + (dst * dst_alpha * (255 - alpha) + 127) / 255 + out / 2) / out) as u8
}

/// A pixel after `color` at coverage `alpha` is blended over it: nothing
/// at zero coverage, the colour itself over a transparent pixel or at full
/// coverage, else the source-over mix of the two.
pub open spec fn blended(p: Seq<u8>, color: Seq<u8>, alpha: u8) -> Seq<u8> {
    if alpha == 0 {
        p
    } else if p[3] == 0 {
        seq![color[0], color[1], color[2], alpha]
    } else if alpha == 255 {
        seq![color[0], color[1], color[2], 255u8]
    } else if p[3] == 255 {
        seq![
            blend_opaque_channel(p[0], color[0], alpha),
            blend_opaque_channel(p[1], color[1], alpha),
            blend_opaque_channel(p[2], color[2], alpha),
            p[3],
        ]
    } else {
        seq![
            blend_channel(p[0], p[3], color[0], alpha),
            blend_channel(p[1], p[3], color[1], alpha),
            blend_channel(p[2], p[3], color[2], alpha),
            blend_alpha(p[3], alpha) as u8,
        ]
    }
}

/// Whether the 16-bit arithmetic of a translucent blend stays in range.
pub open spec fn blend_fits(p: Seq<u8>, alpha: u8) -> bool {
    forall|i: int| 0 <= i < 3 ==> #[trigger] p[i] * p[3] * (255 - alpha) + 127 <= u16::MAX
}

/// Blends `color` at coverage `alpha` over an RGBA pixel.
pub fn blend_pixel(pixel: &mut [u8; 4], color: [u8; 3], alpha: u8)
    requires
        0 < old(pixel)@[3] < 255 && 0 < alpha < 255 ==> blend_fits(old(pixel)@, alpha),
    ensures
        final(pixel)@ == blended(old(pixel)@, color@, alpha),
{
    let ghost p = pixel@;
    if alpha == 0 {
        return;
    }
    if pixel[3] == 0 {
        pixel[0] = color[0];
        pixel[1] = color[1];
        pixel[2] = color[2];
        pixel[3] = alpha;
        assert(pixel@ =~= blended(p, color@, alpha));
        return;
    }
    if alpha == 255 {
        pixel[0] = color[0];
        pixel[1] = color[1];
        pixel[2] = color[2];
        pixel[3] = 255;
        assert(pixel@ =~= blended(p, color@, alpha));
        return;
    }
    let src_alpha = alpha as u16;
    let dst_alpha = pixel[3] as u16;
    let inv = 255 - src_alpha;
    if dst_alpha == 255 {
        let mut i: usize = 0;
        while i < 3
            invariant
                i <= 3,
                inv == 255 - src_alpha,
                src_alpha == alpha,
                pixel@.len() == 4,
                forall|k: int| 0 <= k < i ==> #[trigger] pixel@[k] == blend_opaque_channel(p[k], color@[k], alpha),
                forall|k: int| i <= k < 4 ==> #[trigger] pixel@[k] == p[k],
            decreases 3 - i,
        {
            let channel = pixel[i] as u16;
            let c = color[i] as u16;
            assert(channel * inv <= 255 * 255) by (nonlinear_arith)
                requires
                    channel <= 255,
                    inv <= 255,
            ;
            assert(c * src_alpha <= 255 * 255) by (nonlinear_arith)
                requires
                    c <= 255,
                    src_alpha <= 255,
            ;
            assert(channel * inv + c * src_alpha <= 255 * 255) by (nonlinear_arith)
                requires
                    channel <= 255,
                    c <= 255,
                    inv + src_alpha == 255,
                    inv >= 0,
                    src_alpha >= 0,
            ;
            let mixed = (channel * inv + c * src_alpha) / 255;
            pixel[i] = mixed as u8;
            i = i + 1;
        }
        assert(pixel@ =~= blended(p, color@, alpha));
        return;
    }
    assert(dst_alpha * inv <= 255 * 255) by (nonlinear_arith)
        requires
            dst_alpha <= 255,
            inv <= 255,
    ;
    let out_alpha = src_alpha + (dst_alpha * inv + 127) / 255;
    if out_alpha == 0 {
        return;
    }
    let mut i: usize = 0;
    while i < 3
        invariant
            i <= 3,
            inv == 255 - src_alpha,
            src_alpha == alpha,
            0 < alpha < 255,
            dst_alpha == p[3],
            0 < dst_alpha < 255,
            out_alpha == blend_alpha(p[3], alpha),
            out_alpha > 0,
            out_alpha <= 255 + 255,
            blend_fits(p, alpha),
            pixel@.len() == 4,
            forall|k: int| 0 <= k < i ==> #[trigger] pixel@[k] == blend_channel(p[k], p[3], color@[k], alpha),
            forall|k: int| i <= k < 4 ==> #[trigger] pixel@[k] == p[k],
        decreases 3 - i,
    {
        let channel = pixel[i] as u16;
        let c = color[i] as u16;
        assert(p[i as int] * p[3] * (255 - alpha) + 127 <= u16::MAX);
        assert(c * src_alpha <= 255 * 255) by (nonlinear_arith)
            requires
                c <= 255,
                src_alpha <= 255,
        ;
        assert(channel == p[i as int]);
        assert(channel * dst_alpha * inv == p[i as int] * p[3] * (255 - alpha)) by (nonlinear_arith)
            requires
                channel == p[i as int],
                dst_alpha == p[3],
                inv == 255 - alpha,
        ;
        assert(channel * dst_alpha <= channel * dst_alpha * inv) by (nonlinear_arith)
            requires
                inv >= 1,
                channel * dst_alpha >= 0,
        ;
        assert(c * src_alpha <= 255 * 254) by (nonlinear_arith)
            requires
                c <= 255,
                src_alpha <= 254,
        ;
        let src = c * src_alpha;
        let dst = (channel * dst_alpha * inv + 127) / 255;
        assert(dst <= 257);
        let mixed = (src + dst + out_alpha / 2) / out_alpha;
        pixel[i] = mixed as u8;
        i = i + 1;
    }
    pixel[3] = out_alpha as u8;
    assert(pixel@ =~= blended(p, color@, alpha));
}

} // verus!
