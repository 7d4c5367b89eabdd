//! What drawing does to single pixels: lines reach every pixel they run
//! over, and the corner pieces of a nine patch border land in the corners.

use vstd::prelude::*;
use super::{fill_run, fill_spec, hline_run, hline_spec, rect_spec, vline_run, vline_spec, lemma_vline_len, in_clip, line_run, line_spec, max_int, min_int, plot_pixel, put_pixel, step_toward, Clip, lemma_hline_len, lemma_plot_len};
use crate::{sat_i16, Area, Point};
use crate::media::border::PatchView;
use crate::stream::BitState;
use super::font::Canvas;
use super::image::reader_start;
use super::ninepatch::{corner_rows, next_bit_spec, ninepatch_fb, patch_run, size_pos, x_edges, y_edges};
use crate::stream::bit_reset;

verus! {

/// Whether the pixel at (`x`, `y`) of a surface `w` pixels wide is set.
pub open spec fn pixel_on(fb: Seq<u8>, w: int, x: int, y: int) -> bool {
    let i = y * w + x;
    (fb[i / 8] >> ((7 - i % 8) as u8)) & 1u8 == 1u8
}

/// A clip that lies inside a surface `w` pixels wide.
pub open spec fn clip_inside(c: Clip, w: int) -> bool {
    0 <= c.p0.x && 0 <= c.p0.y && c.p1.x <= w
}

/// Whether the pixel at (`x`, `y`) lies inside the clip and the buffer.
pub open spec fn drawable(fb: Seq<u8>, w: int, c: Clip, x: int, y: int) -> bool {
    in_clip(c, x, y) && (y * w + x) / 8 < fb.len()
}

/// Setting or clearing one bit of a byte: the bit reads back as set or
/// clear, the other bits as they were; a clear byte has no low bit.
pub proof fn lemma_bit_ops()
    by (bit_vector)
    ensures
        0u8 & 1u8 == 0u8,
        forall|b: u8, k: u8| k < 8 ==> #[trigger] ((b | (1u8 << k)) >> k) & 1u8 == 1u8,
        forall|b: u8, k: u8| k < 8 ==> #[trigger] ((b & !(1u8 << k)) >> k) & 1u8 == 0u8,
        forall|b: u8, k: u8, j: u8| k < 8 && j < 8 && j != k ==> #[trigger] ((b | (1u8 << k)) >> j) & 1u8 == (b >> j) & 1u8,
        forall|b: u8, k: u8, j: u8| k < 8 && j < 8 && j != k ==> #[trigger] ((b & !(1u8 << k)) >> j) & 1u8 == (b >> j) & 1u8,
{
}

/// Two pixels of one row width apart hold different places in the buffer.
proof fn lemma_index_distinct(w: int, x: int, y: int, px: int, py: int)
    requires
        0 <= x < w,
        0 <= px < w,
        0 <= y,
        0 <= py,
        x != px || y != py,
    ensures
        y * w + x != py * w + px,
{
    if y == py {
    } else if y < py {
        assert(y * w + w <= py * w) by (nonlinear_arith)
            requires
                y < py,
                0 < w,
        ;
    } else {
        assert(py * w + w <= y * w) by (nonlinear_arith)
            requires
                py < y,
                0 < w,
        ;
    }
}

/// Drawing a pixel sets it (any color but 0) or clears it.
pub proof fn lemma_plot_same(fb: Seq<u8>, w: int, c: Clip, x: int, y: int, color: u8)
    requires
        clip_inside(c, w),
        drawable(fb, w, c, x, y),
    ensures
        pixel_on(plot_pixel(fb, w, c, x, y, color), w, x, y) == (color != 0),
{
    lemma_bit_ops();
    assert(0 <= y * w) by (nonlinear_arith)
        requires
            0 <= y,
            0 <= w,
    ;
    let i = y * w + x;
    let k = (7 - i % 8) as u8;
    let b = fb[i / 8];
    if color == 0 {
        assert(((b & !(1u8 << k)) >> k) & 1u8 == 0u8);
    } else {
        assert(((b | (1u8 << k)) >> k) & 1u8 == 1u8);
    }
}

/// Drawing a pixel leaves every other pixel as it was.
pub proof fn lemma_plot_other(fb: Seq<u8>, w: int, c: Clip, x: int, y: int, color: u8, px: int, py: int)
    requires
        clip_inside(c, w),
        0 <= px < w,
        0 <= py,
        (py * w + px) / 8 < fb.len(),
        x != px || y != py,
    ensures
        pixel_on(plot_pixel(fb, w, c, x, y, color), w, px, py) == pixel_on(fb, w, px, py),
{
    if in_clip(c, x, y) {
        lemma_bit_ops();
        lemma_index_distinct(w, x, y, px, py);
        let i = y * w + x;
        let j = py * w + px;
        assert(0 <= y * w) by (nonlinear_arith)
            requires
                0 <= y,
                0 <= w,
        ;
        assert(0 <= py * w) by (nonlinear_arith)
            requires
                0 <= py,
                0 <= w,
        ;
        if 0 <= i && i / 8 < fb.len() && i / 8 == j / 8 {
            vstd::arithmetic::div_mod::lemma_fundamental_div_mod(i, 8);
            vstd::arithmetic::div_mod::lemma_fundamental_div_mod(j, 8);
            assert(i % 8 != j % 8);
            let k = (7 - i % 8) as u8;
            let kj = (7 - j % 8) as u8;
            assert(k != kj);
            let b = fb[i / 8];
            let bit = (1u8 << k) as u8;
            assert(bit == 1u8 << k);
            let f2 = plot_pixel(fb, w, c, x, y, color);
            if color == 0 {
                assert(((b & !(1u8 << k)) >> kj) & 1u8 == (b >> kj) & 1u8);
                assert(f2[j / 8] == b & !bit);
            } else {
                assert(((b | (1u8 << k)) >> kj) & 1u8 == (b >> kj) & 1u8);
                assert(f2[j / 8] == b | bit);
            }
            assert(pixel_on(f2, w, px, py) == (((f2[j / 8]) >> kj) & 1u8 == 1u8));
        } else if 0 <= i && i / 8 < fb.len() {
            assert(plot_pixel(fb, w, c, x, y, color)[j / 8] == fb[j / 8]);
        }
    }
}

/// Whether `v` lies between `a` and `b`, both included.
pub open spec fn between(v: int, a: int, b: int) -> bool {
    (a <= v && v <= b) || (b <= v && v <= a)
}

/// A line never draws outside the box its two ends span.
proof fn lemma_line_frame(
    fb: Seq<u8>,
    w: int,
    c: Clip,
    x: int,
    y: int,
    x1: int,
    y1: int,
    dx: int,
    dy: int,
    err: int,
    color: u8,
    px: int,
    py: int,
)
    requires
        clip_inside(c, w),
        0 <= px < w,
        0 <= py,
        (py * w + px) / 8 < fb.len(),
        !between(px, x, x1) || !between(py, y, y1),
    ensures
        pixel_on(line_run(fb, w, c, x, y, x1, y1, dx, dy, err, color), w, px, py) == pixel_on(fb, w, px, py),
    decreases (if x <= x1 { x1 - x } else { x - x1 }) + (if y <= y1 { y1 - y } else { y - y1 }),
{
    lemma_plot_other(fb, w, c, x, y, color, px, py);
    let fb1 = plot_pixel(fb, w, c, x, y, color);
    let e2 = 2 * err;
    if e2 >= dy {
        if x == x1 {
        } else if e2 <= dx {
            if y != y1 {
                lemma_line_frame(fb1, w, c, step_toward(x, x1), step_toward(y, y1), x1, y1, dx, dy, err + dy + dx, color, px, py);
            }
        } else {
            lemma_line_frame(fb1, w, c, step_toward(x, x1), y, x1, y1, dx, dy, err + dy, color, px, py);
        }
    } else if y != y1 {
        lemma_line_frame(fb1, w, c, x, step_toward(y, y1), x1, y1, dx, dy, err + dx, color, px, py);
    }
}

/// The distance from `v` to `t`.
pub open spec fn gap(v: int, t: int) -> int {
    if v <= t { t - v } else { v - t }
}

/// The rest of a line ends at its far end: where the error term agrees with
/// the steps that remain, the pixel at (`x1`, `y1`) is drawn.
proof fn lemma_line_reaches_end(fb: Seq<u8>, w: int, c: Clip, x: int, y: int, x1: int, y1: int, dx: int, dy: int, err: int, color: u8)
    requires
        clip_inside(c, w),
        drawable(fb, w, c, x1, y1),
        0 <= dx,
        dy <= 0,
        gap(x, x1) <= dx,
        gap(y, y1) <= -dy,
        err == (dx + dy) + (-dy) * gap(x, x1) - dx * gap(y, y1),
    ensures
        pixel_on(line_run(fb, w, c, x, y, x1, y1, dx, dy, err, color), w, x1, y1) == (color != 0),
    decreases gap(x, x1) + gap(y, y1),
{
    let rx = gap(x, x1);
    let ry = gap(y, y1);
    let fb1 = plot_pixel(fb, w, c, x, y, color);
    lemma_plot_len(fb, w, c, x, y, color);
    let e2 = 2 * err;
    if e2 >= dy {
        if x == x1 {
            assert(ry == 0) by (nonlinear_arith)
                requires
                    rx == 0,
                    0 <= ry <= -dy,
                    0 <= dx,
                    2 * err >= dy,
                    err == (dx + dy) + (-dy) * rx - dx * ry,
            ;
            lemma_plot_same(fb, w, c, x, y, color);
        } else if e2 <= dx {
            if y == y1 {
                assert(false) by (nonlinear_arith)
                    requires
                        1 <= rx <= dx,
                        ry == 0,
                        dy <= 0,
                        2 * err <= dx,
                        err == (dx + dy) + (-dy) * rx - dx * ry,
                ;
            } else {
                assert((-dy) * (rx - 1) - dx * (ry - 1) == (-dy) * rx - dx * ry + dy + dx) by (nonlinear_arith);
                lemma_line_reaches_end(fb1, w, c, step_toward(x, x1), step_toward(y, y1), x1, y1, dx, dy, err + dy + dx, color);
            }
        } else {
            assert((-dy) * (rx - 1) == (-dy) * rx + dy) by (nonlinear_arith);
            lemma_line_reaches_end(fb1, w, c, step_toward(x, x1), y, x1, y1, dx, dy, err + dy, color);
        }
    } else if y == y1 {
        assert(rx == 0) by (nonlinear_arith)
            requires
                0 <= rx,
                ry == 0,
                0 <= dx,
                dy <= 0,
                2 * err < dy,
                err == (dx + dy) + (-dy) * rx - dx * ry,
        ;
        lemma_plot_same(fb, w, c, x, y, color);
    } else {
        assert(dx * (ry - 1) == dx * ry - dx) by (nonlinear_arith);
        lemma_line_reaches_end(fb1, w, c, x, step_toward(y, y1), x1, y1, dx, dy, err + dx, color);
    }
}

/// A line ends at its second end: the pixel there is drawn.
pub proof fn law_line_draws_end(fb: Seq<u8>, w: int, c: Clip, p0: Point, p1: Point, color: u8)
    requires
        clip_inside(c, w),
        drawable(fb, w, c, p1.x as int, p1.y as int),
    ensures
        pixel_on(line_spec(fb, w, c, p0, p1, color), w, p1.x as int, p1.y as int) == (color != 0),
{
    let dx: int = if p1.x >= p0.x { p1.x - p0.x } else { p0.x - p1.x };
    let dy: int = -(if p1.y >= p0.y { p1.y - p0.y } else { p0.y - p1.y });
    assert(gap(p0.x as int, p1.x as int) == dx);
    assert(gap(p0.y as int, p1.y as int) == -dy);
    assert((-dy) * dx - dx * (-dy) == 0) by (nonlinear_arith);
    lemma_line_reaches_end(fb, w, c, p0.x as int, p0.y as int, p1.x as int, p1.y as int, dx, dy, dx + dy, color);
}

/// A line starts at its first end: the pixel there is drawn.
pub proof fn law_line_draws_start(fb: Seq<u8>, w: int, c: Clip, p0: Point, p1: Point, color: u8)
    requires
        clip_inside(c, w),
        drawable(fb, w, c, p0.x as int, p0.y as int),
    ensures
        pixel_on(line_spec(fb, w, c, p0, p1, color), w, p0.x as int, p0.y as int) == (color != 0),
{
    let dx = if p1.x >= p0.x { p1.x - p0.x } else { p0.x - p1.x };
    let dy = -(if p1.y >= p0.y { p1.y - p0.y } else { p0.y - p1.y });
    let x = p0.x as int;
    let y = p0.y as int;
    let x1 = p1.x as int;
    let y1 = p1.y as int;
    let err = dx + dy;
    lemma_plot_same(fb, w, c, x, y, color);
    let fb1 = plot_pixel(fb, w, c, x, y, color);
    let e2 = 2 * err;
    if e2 >= dy {
        if x == x1 {
        } else if e2 <= dx {
            if y != y1 {
                lemma_line_frame(fb1, w, c, step_toward(x, x1), step_toward(y, y1), x1, y1, dx, dy, err + dy + dx, color, x, y);
            }
        } else {
            lemma_line_frame(fb1, w, c, step_toward(x, x1), y, x1, y1, dx, dy, err + dy, color, x, y);
        }
    } else if y != y1 {
        lemma_line_frame(fb1, w, c, x, step_toward(y, y1), x1, y1, dx, dy, err + dx, color, x, y);
    }
}

/// Along a row every pixel from `x` to `x1` is drawn.
proof fn lemma_row_run(fb: Seq<u8>, w: int, c: Clip, x: int, y: int, x1: int, dx: int, color: u8, k: int)
    requires
        clip_inside(c, w),
        dx > 0 || x == x1,
        between(k, x, x1),
        drawable(fb, w, c, k, y),
    ensures
        pixel_on(line_run(fb, w, c, x, y, x1, y, dx, 0, dx, color), w, k, y) == (color != 0),
    decreases (if x <= x1 { x1 - x } else { x - x1 }),
{
    let fb1 = plot_pixel(fb, w, c, x, y, color);
    if x == x1 {
        lemma_plot_same(fb, w, c, x, y, color);
    } else {
        let x2 = step_toward(x, x1);
        assert(2 * dx >= 0 && !(2 * dx <= dx));
        if k == x {
            lemma_plot_same(fb, w, c, x, y, color);
            lemma_line_frame(fb1, w, c, x2, y, x1, y, dx, 0, dx, color, k, y);
        } else {
            lemma_row_run(fb1, w, c, x2, y, x1, dx, color, k);
        }
    }
}

/// A line along a row draws every pixel between its two ends, both
/// included, inside the clip.
pub proof fn law_row_line_draws_every_pixel(fb: Seq<u8>, w: int, c: Clip, p0: Point, p1: Point, color: u8, k: int)
    requires
        clip_inside(c, w),
        p0.y == p1.y,
        between(k, p0.x as int, p1.x as int),
        drawable(fb, w, c, k, p0.y as int),
    ensures
        pixel_on(line_spec(fb, w, c, p0, p1, color), w, k, p0.y as int) == (color != 0),
{
    let dx = if p1.x >= p0.x { p1.x - p0.x } else { p0.x - p1.x };
    assert(-(if p1.y >= p0.y { p1.y - p0.y } else { p0.y - p1.y }) == 0);
    lemma_row_run(fb, w, c, p0.x as int, p0.y as int, p1.x as int, dx, color, k);
}

/// Along a column every pixel from `y` to `y1` is drawn.
proof fn lemma_column_run(fb: Seq<u8>, w: int, c: Clip, x: int, y: int, y1: int, dy: int, color: u8, k: int)
    requires
        clip_inside(c, w),
        dy < 0 || y == y1,
        between(k, y, y1),
        drawable(fb, w, c, x, k),
    ensures
        pixel_on(line_run(fb, w, c, x, y, x, y1, 0, dy, dy, color), w, x, k) == (color != 0),
    decreases (if y <= y1 { y1 - y } else { y - y1 }),
{
    let fb1 = plot_pixel(fb, w, c, x, y, color);
    if y == y1 {
        lemma_plot_same(fb, w, c, x, y, color);
    } else {
        let y2 = step_toward(y, y1);
        assert(!(2 * dy >= dy));
        if k == y {
            lemma_plot_same(fb, w, c, x, y, color);
            lemma_line_frame(fb1, w, c, x, y2, x, y1, 0, dy, dy, color, x, k);
        } else {
            lemma_column_run(fb1, w, c, x, y2, y1, dy, color, k);
        }
    }
}

/// A line along a column draws every pixel between its two ends, both
/// included, inside the clip.
pub proof fn law_column_line_draws_every_pixel(fb: Seq<u8>, w: int, c: Clip, p0: Point, p1: Point, color: u8, k: int)
    requires
        clip_inside(c, w),
        p0.x == p1.x,
        between(k, p0.y as int, p1.y as int),
        drawable(fb, w, c, p0.x as int, k),
    ensures
        pixel_on(line_spec(fb, w, c, p0, p1, color), w, p0.x as int, k) == (color != 0),
{
    let dy = -(if p1.y >= p0.y { p1.y - p0.y } else { p0.y - p1.y });
    assert((if p1.x >= p0.x { p1.x - p0.x } else { p0.x - p1.x }) == 0);
    lemma_column_run(fb, w, c, p0.x as int, p0.y as int, p1.y as int, dy, color, k);
}

/// A run of piece pixels that moves left or up never draws right of or
/// below where it starts.
proof fn lemma_patch_run_frame(
    cv: Canvas,
    data: Seq<u8>,
    bs: BitState,
    fb: Seq<u8>,
    pos: Point,
    count: nat,
    dx: i16,
    dy: i16,
    px: int,
    py: int,
)
    requires
        clip_inside(cv.clip, cv.width as int),
        dx <= 0,
        dy <= 0,
        0 <= px < cv.width,
        0 <= py,
        (py * cv.width + px) / 8 < fb.len(),
        px > pos.x || py > pos.y,
    ensures
        patch_run(cv, data, bs, fb, pos, count, dx, dy).1.len() == fb.len(),
        pixel_on(patch_run(cv, data, bs, fb, pos, count, dx, dy).1, cv.width as int, px, py) == pixel_on(fb, cv.width as int, px, py),
    decreases count,
{
    if count > 0 {
        let (bs2, pixel) = next_bit_spec(data, bs);
        lemma_plot_other(fb, cv.width as int, cv.clip, pos.x as int, pos.y as int, pixel, px, py);
        let fb2 = plot_pixel(fb, cv.width as int, cv.clip, pos.x as int, pos.y as int, pixel);
        lemma_patch_run_frame(cv, data, bs2, fb2, Point { x: sat_i16(pos.x + dx), y: sat_i16(pos.y + dy) }, (count - 1) as nat, dx, dy, px, py);
    }
}

/// The rows of a corner piece drawn leftwards and upwards never reach
/// right of or below where they start.
proof fn lemma_corner_rows_frame(
    cv: Canvas,
    data: Seq<u8>,
    bs: BitState,
    fb: Seq<u8>,
    x: i16,
    y: i16,
    width: u8,
    k: nat,
    px: int,
    py: int,
)
    requires
        clip_inside(cv.clip, cv.width as int),
        0 <= px < cv.width,
        0 <= py,
        (py * cv.width + px) / 8 < fb.len(),
        px > x || py > y,
    ensures
        corner_rows(cv, data, bs, fb, x, y, width, k, -1i16, -1i16).len() == fb.len(),
        pixel_on(corner_rows(cv, data, bs, fb, x, y, width, k, -1i16, -1i16), cv.width as int, px, py) == pixel_on(fb, cv.width as int, px, py),
    decreases k,
{
    if k > 0 {
        lemma_patch_run_frame(cv, data, bs, fb, Point { x: x, y: y }, width as nat, -1i16, 0i16, px, py);
        let (bs2, fb2) = patch_run(cv, data, bs, fb, Point { x: x, y: y }, width as nat, -1i16, 0i16);
        lemma_corner_rows_frame(cv, data, bs2, fb2, x, sat_i16(y + -1i16), width, (k - 1) as nat, px, py);
    }
}

/// The south-east corner of a nine patch border: the pixel in the corner of
/// the target shows the first pixel of the south-east corner piece, what
/// ever was there and whatever the other pieces draw.
pub proof fn law_ninepatch_south_east_corner(cv: Canvas, np: PatchView, target: Area, fb: Seq<u8>)
    requires
        np.data.len() >= 8,
        np.e_w >= 1,
        np.s_h >= 1,
        clip_inside(cv.clip, cv.width as int),
        0 <= target.point.x,
        0 <= target.point.y,
        1 <= target.size.width,
        1 <= target.size.height,
        target.point.x + target.size.width <= 32767,
        target.point.y + target.size.height <= 32767,
        drawable(fb, cv.width as int, cv.clip, target.point.x + target.size.width - 1, target.point.y + target.size.height - 1),
    ensures
        pixel_on(
            ninepatch_fb(cv, np, target, fb),
            cv.width as int,
            target.point.x + target.size.width - 1,
            target.point.y + target.size.height - 1,
        ) == (next_bit_spec(np.data[3], reader_start(np.data[3])).1 != 0),
{
    let east = sat_i16(sat_i16(target.point.x + size_pos(target.size.width)) - 1);
    let south = sat_i16(sat_i16(target.point.y + size_pos(target.size.height)) - 1);
    assert(east == target.point.x + target.size.width - 1);
    assert(south == target.point.y + target.size.height - 1);
    let nw = target.point;
    let se = Point {
        x: sat_i16(target.point.x + size_pos(target.size.width)),
        y: sat_i16(target.point.y + size_pos(target.size.height)),
    };
    let nwx = sat_i16(target.point.x + (np.w_w as i16));
    let nwy = sat_i16(target.point.y + (np.n_h as i16));
    let nw_in = Point { x: if se.x <= nwx { se.x } else { nwx }, y: if se.y <= nwy { se.y } else { nwy } };
    let se_in = Point { x: sat_i16(se.x - (np.e_w as i16)), y: sat_i16(se.y - (np.s_h as i16)) };
    let fb1 = if np.x_w > 0 {
        x_edges(cv, np, nw.y, sat_i16(se.y - 1), reader_start(np.data[0]), reader_start(np.data[4]), fb, nw_in.x, 0,
            sat_i16(se_in.x - nw_in.x) as int)
    } else {
        fb
    };
    if np.x_w > 0 {
        lemma_x_edges_len(cv, np, nw.y, sat_i16(se.y - 1), reader_start(np.data[0]), reader_start(np.data[4]), fb, nw_in.x, 0,
            sat_i16(se_in.x - nw_in.x) as int);
    }
    let fb2 = if np.y_h > 0 {
        y_edges(cv, np, nw.x, sat_i16(se.x - 1), reader_start(np.data[6]), reader_start(np.data[2]), fb1, nw_in.y, 0,
            sat_i16(se_in.y - nw_in.y) as int)
    } else {
        fb1
    };
    if np.y_h > 0 {
        lemma_y_edges_len(cv, np, nw.x, sat_i16(se.x - 1), reader_start(np.data[6]), reader_start(np.data[2]), fb1, nw_in.y, 0,
            sat_i16(se_in.y - nw_in.y) as int);
    }
    let fb3 = corner_rows(cv, np.data[7], reader_start(np.data[7]), fb2, nw.x, nw.y, np.w_w, np.n_h as nat, 1i16, 1i16);
    lemma_corner_rows_len(cv, np.data[7], reader_start(np.data[7]), fb2, nw.x, nw.y, np.w_w, np.n_h as nat, 1i16, 1i16);
    let fb4 = corner_rows(cv, np.data[1], reader_start(np.data[1]), fb3, east, nw.y, np.e_w, np.n_h as nat, -1i16, 1i16);
    lemma_corner_rows_len(cv, np.data[1], reader_start(np.data[1]), fb3, east, nw.y, np.e_w, np.n_h as nat, -1i16, 1i16);
    let fb5 = corner_rows(cv, np.data[5], reader_start(np.data[5]), fb4, nw.x, south, np.w_w, np.s_h as nat, 1i16, -1i16);
    lemma_corner_rows_len(cv, np.data[5], reader_start(np.data[5]), fb4, nw.x, south, np.w_w, np.s_h as nat, 1i16, -1i16);
    assert(ninepatch_fb(cv, np, target, fb) == corner_rows(cv, np.data[3], reader_start(np.data[3]), fb5, east, south, np.e_w, np.s_h as nat, -1i16, -1i16));
    lemma_first_corner_pixel(cv, np.data[3], fb5, east, south, np.e_w, np.s_h as nat);
}

/// The first pixel a corner piece drawn leftwards and upwards puts down
/// stays: it is the first bit of the piece.
proof fn lemma_first_corner_pixel(cv: Canvas, data: Seq<u8>, fb: Seq<u8>, x: i16, y: i16, width: u8, k: nat)
    requires
        clip_inside(cv.clip, cv.width as int),
        width >= 1,
        k >= 1,
        x > i16::MIN,
        y > i16::MIN,
        drawable(fb, cv.width as int, cv.clip, x as int, y as int),
    ensures
        pixel_on(corner_rows(cv, data, reader_start(data), fb, x, y, width, k, -1i16, -1i16), cv.width as int, x as int, y as int)
            == (next_bit_spec(data, reader_start(data)).1 != 0),
{
    let w = cv.width as int;
    let (bs1, pixel) = next_bit_spec(data, reader_start(data));
    lemma_plot_same(fb, w, cv.clip, x as int, y as int, pixel);
    let f1 = plot_pixel(fb, w, cv.clip, x as int, y as int, pixel);
    let x2 = sat_i16(x + -1i16);
    assert(x2 == x - 1);
    lemma_patch_run_frame(cv, data, bs1, f1, Point { x: x2, y: sat_i16(y + 0i16) }, (width - 1) as nat, -1i16, 0i16, x as int, y as int);
    let (bs2, f2) = patch_run(cv, data, reader_start(data), fb, Point { x: x, y: y }, width as nat, -1i16, 0i16);
    assert(pixel_on(f2, w, x as int, y as int) == (pixel != 0));
    lemma_corner_rows_frame(cv, data, bs2, f2, x, sat_i16(y + -1i16), width, (k - 1) as nat, x as int, y as int);
}

proof fn lemma_patch_run_len(cv: Canvas, data: Seq<u8>, bs: BitState, fb: Seq<u8>, pos: Point, count: nat, dx: i16, dy: i16)
    ensures
        patch_run(cv, data, bs, fb, pos, count, dx, dy).1.len() == fb.len(),
    decreases count,
{
    if count > 0 {
        let (bs2, pixel) = next_bit_spec(data, bs);
        let fb2 = plot_pixel(fb, cv.width as int, cv.clip, pos.x as int, pos.y as int, pixel);
        lemma_patch_run_len(cv, data, bs2, fb2, Point { x: sat_i16(pos.x + dx), y: sat_i16(pos.y + dy) }, (count - 1) as nat, dx, dy);
    }
}

proof fn lemma_corner_rows_len(cv: Canvas, data: Seq<u8>, bs: BitState, fb: Seq<u8>, x: i16, y: i16, width: u8, k: nat, dx: i16, dy: i16)
    ensures
        corner_rows(cv, data, bs, fb, x, y, width, k, dx, dy).len() == fb.len(),
    decreases k,
{
    if k > 0 {
        lemma_patch_run_len(cv, data, bs, fb, Point { x: x, y: y }, width as nat, dx, 0i16);
        let (bs2, fb2) = patch_run(cv, data, bs, fb, Point { x: x, y: y }, width as nat, dx, 0i16);
        lemma_corner_rows_len(cv, data, bs2, fb2, x, sat_i16(y + dy), width, (k - 1) as nat, dx, dy);
    }
}

proof fn lemma_x_edges_len(cv: Canvas, np: PatchView, ny: i16, sy: i16, bsn: BitState, bss: BitState, fb: Seq<u8>, x: i16, p: int, span: int)
    ensures
        x_edges(cv, np, ny, sy, bsn, bss, fb, x, p, span).len() == fb.len(),
    decreases span - p,
{
    if p < span {
        lemma_patch_run_len(cv, np.data[0], bsn, fb, Point { x: x, y: ny }, np.n_h as nat, 0i16, 1i16);
        let (bsn2, fb1) = patch_run(cv, np.data[0], bsn, fb, Point { x: x, y: ny }, np.n_h as nat, 0i16, 1i16);
        lemma_patch_run_len(cv, np.data[4], bss, fb1, Point { x: x, y: sy }, np.s_h as nat, 0i16, -1i16);
        let (bss2, fb2) = patch_run(cv, np.data[4], bss, fb1, Point { x: x, y: sy }, np.s_h as nat, 0i16, -1i16);
        let wrap = p % (np.x_w as int) == np.x_w - 1;
        lemma_x_edges_len(cv, np, ny, sy, if wrap { bit_reset(np.data[0], bsn2) } else { bsn2 },
            if wrap { bit_reset(np.data[4], bss2) } else { bss2 }, fb2, sat_i16(x + 1), p + 1, span);
    }
}

proof fn lemma_y_edges_len(cv: Canvas, np: PatchView, wx: i16, ex: i16, bsw: BitState, bse: BitState, fb: Seq<u8>, y: i16, p: int, span: int)
    ensures
        y_edges(cv, np, wx, ex, bsw, bse, fb, y, p, span).len() == fb.len(),
    decreases span - p,
{
    if p < span {
        lemma_patch_run_len(cv, np.data[6], bsw, fb, Point { x: wx, y: y }, np.w_w as nat, 1i16, 0i16);
        let (bsw2, fb1) = patch_run(cv, np.data[6], bsw, fb, Point { x: wx, y: y }, np.w_w as nat, 1i16, 0i16);
        lemma_patch_run_len(cv, np.data[2], bse, fb1, Point { x: ex, y: y }, np.e_w as nat, -1i16, 0i16);
        let (bse2, fb2) = patch_run(cv, np.data[2], bse, fb1, Point { x: ex, y: y }, np.e_w as nat, -1i16, 0i16);
        let wrap = p % (np.y_h as int) == np.y_h - 1;
        lemma_y_edges_len(cv, np, wx, ex, if wrap { bit_reset(np.data[6], bsw2) } else { bsw2 },
            if wrap { bit_reset(np.data[2], bse2) } else { bse2 }, fb2, sat_i16(y + 1), p + 1, span);
    }
}

/// A run of piece pixels stays on the segment from where it starts to
/// where its last pixel goes (no position saturates on the way).
proof fn lemma_patch_run_box(
    cv: Canvas,
    data: Seq<u8>,
    bs: BitState,
    fb: Seq<u8>,
    pos: Point,
    count: nat,
    dx: i16,
    dy: i16,
    px: int,
    py: int,
)
    requires
        clip_inside(cv.clip, cv.width as int),
        -1 <= dx <= 1,
        -1 <= dy <= 1,
        count >= 1,
        i16::MIN <= pos.x + dx * count <= i16::MAX,
        i16::MIN <= pos.y + dy * count <= i16::MAX,
        0 <= px < cv.width,
        0 <= py,
        (py * cv.width + px) / 8 < fb.len(),
        !between(px, pos.x as int, pos.x + dx * (count - 1)) || !between(py, pos.y as int, pos.y + dy * (count - 1)),
    ensures
        pixel_on(patch_run(cv, data, bs, fb, pos, count, dx, dy).1, cv.width as int, px, py) == pixel_on(fb, cv.width as int, px, py),
    decreases count,
{
    let (bs2, pixel) = next_bit_spec(data, bs);
    lemma_plot_other(fb, cv.width as int, cv.clip, pos.x as int, pos.y as int, pixel, px, py);
    let fb2 = plot_pixel(fb, cv.width as int, cv.clip, pos.x as int, pos.y as int, pixel);
    let next = Point { x: sat_i16(pos.x + dx), y: sat_i16(pos.y + dy) };
    if count > 1 {
        assert(next.x == pos.x + dx && next.y == pos.y + dy) by {
            assert(i16::MIN <= pos.x + dx <= i16::MAX) by (nonlinear_arith)
                requires
                    -1 <= dx <= 1,
                    count >= 2,
                    i16::MIN <= pos.x + dx * count <= i16::MAX,
                    i16::MIN <= pos.x <= i16::MAX,
            ;
            assert(i16::MIN <= pos.y + dy <= i16::MAX) by (nonlinear_arith)
                requires
                    -1 <= dy <= 1,
                    count >= 2,
                    i16::MIN <= pos.y + dy * count <= i16::MAX,
                    i16::MIN <= pos.y <= i16::MAX,
            ;
        }
        assert(next.x + dx * (count - 1) == pos.x + dx * count) by (nonlinear_arith)
            requires
                next.x == pos.x + dx,
        ;
        assert(next.y + dy * (count - 1) == pos.y + dy * count) by (nonlinear_arith)
            requires
                next.y == pos.y + dy,
        ;
        assert(next.x + dx * (count - 2) == pos.x + dx * (count - 1)) by (nonlinear_arith)
            requires
                next.x == pos.x + dx,
        ;
        assert(next.y + dy * (count - 2) == pos.y + dy * (count - 1)) by (nonlinear_arith)
            requires
                next.y == pos.y + dy,
        ;
        assert((dx >= 0 ==> dx * (count - 2) >= 0) && (dx <= 0 ==> dx * (count - 2) <= 0)) by (nonlinear_arith)
            requires
                count >= 2,
        ;
        assert((dy >= 0 ==> dy * (count - 2) >= 0) && (dy <= 0 ==> dy * (count - 2) <= 0)) by (nonlinear_arith)
            requires
                count >= 2,
        ;
        lemma_patch_run_box(cv, data, bs2, fb2, next, (count - 1) as nat, dx, dy, px, py);
    } else {
        assert(patch_run(cv, data, bs2, fb2, next, 0, dx, dy).1 == fb2);
    }
}

/// The rows of a corner piece stay in the box from where they start to
/// where the last pixel of the last row goes.
proof fn lemma_corner_rows_box(
    cv: Canvas,
    data: Seq<u8>,
    bs: BitState,
    fb: Seq<u8>,
    x: i16,
    y: i16,
    width: u8,
    k: nat,
    dx: i16,
    dy: i16,
    px: int,
    py: int,
)
    requires
        clip_inside(cv.clip, cv.width as int),
        -1 <= dx <= 1,
        -1 <= dy <= 1,
        width >= 1,
        k >= 1,
        i16::MIN <= x + dx * width <= i16::MAX,
        i16::MIN <= y + dy * k <= i16::MAX,
        0 <= px < cv.width,
        0 <= py,
        (py * cv.width + px) / 8 < fb.len(),
        !between(px, x as int, x + dx * (width - 1)) || !between(py, y as int, y + dy * (k - 1)),
    ensures
        pixel_on(corner_rows(cv, data, bs, fb, x, y, width, k, dx, dy), cv.width as int, px, py) == pixel_on(fb, cv.width as int, px, py),
    decreases k,
{
    assert(0i16 * width == 0 && 0i16 * (width - 1) == 0) by (nonlinear_arith);
    assert(between(y as int, y as int, y + dy * (k - 1)));
    if py == y {
        assert(!between(px, x as int, x + dx * (width - 1)));
    }
    assert(!between(px, x as int, x + dx * (width - 1)) || !between(py, y as int, y + 0i16 * (width - 1)));
    lemma_patch_run_box(cv, data, bs, fb, Point { x: x, y: y }, width as nat, dx, 0i16, px, py);
    lemma_patch_run_len(cv, data, bs, fb, Point { x: x, y: y }, width as nat, dx, 0i16);
    let (bs2, fb2) = patch_run(cv, data, bs, fb, Point { x: x, y: y }, width as nat, dx, 0i16);
    if k > 1 {
        let y2 = sat_i16(y + dy);
        assert(y2 == y + dy && y2 + dy * (k - 1) == y + dy * k && y2 + dy * (k - 2) == y + dy * (k - 1)) by {
            assert(i16::MIN <= y + dy <= i16::MAX) by (nonlinear_arith)
                requires
                    -1 <= dy <= 1,
                    k >= 2,
                    i16::MIN <= y + dy * k <= i16::MAX,
                    i16::MIN <= y <= i16::MAX,
            ;
            assert(y2 + dy * (k - 1) == y + dy * k) by (nonlinear_arith)
                requires
                    y2 == y + dy,
            ;
            assert(y2 + dy * (k - 2) == y + dy * (k - 1)) by (nonlinear_arith)
                requires
                    y2 == y + dy,
            ;
        }
        assert((dy >= 0 ==> dy * (k - 2) >= 0) && (dy <= 0 ==> dy * (k - 2) <= 0)) by (nonlinear_arith)
            requires
                k >= 2,
        ;
        lemma_corner_rows_box(cv, data, bs2, fb2, x, y2, width, (k - 1) as nat, dx, dy, px, py);
    } else {
        assert(corner_rows(cv, data, bs2, fb2, x, sat_i16(y + dy), width, 0, dx, dy) == fb2);
    }
}

/// The pixels of a nine patch border before its corners: the bands. The
/// border is those with the four corner pieces drawn over them, in the
/// order north-west, north-east, south-west, south-east.
proof fn edges_of(cv: Canvas, np: PatchView, target: Area, fb: Seq<u8>) -> (fb2: Seq<u8>)
    requires
        np.data.len() >= 8,
    ensures
        fb2.len() == fb.len(),
        ({
            let se = Point {
                x: sat_i16(target.point.x + size_pos(target.size.width)),
                y: sat_i16(target.point.y + size_pos(target.size.height)),
            };
            let east = sat_i16(se.x - 1);
            let south = sat_i16(se.y - 1);
            let nw = target.point;
            let fb3 = corner_rows(cv, np.data[7], reader_start(np.data[7]), fb2, nw.x, nw.y, np.w_w, np.n_h as nat, 1i16, 1i16);
            let fb4 = corner_rows(cv, np.data[1], reader_start(np.data[1]), fb3, east, nw.y, np.e_w, np.n_h as nat, -1i16, 1i16);
            let fb5 = corner_rows(cv, np.data[5], reader_start(np.data[5]), fb4, nw.x, south, np.w_w, np.s_h as nat, 1i16, -1i16);
            &&& ninepatch_fb(cv, np, target, fb) == corner_rows(cv, np.data[3], reader_start(np.data[3]), fb5, east, south, np.e_w, np.s_h as nat, -1i16, -1i16)
            &&& fb3.len() == fb.len() && fb4.len() == fb.len() && fb5.len() == fb.len()
        }),
{
    let east = sat_i16(sat_i16(target.point.x + size_pos(target.size.width)) - 1);
    let south = sat_i16(sat_i16(target.point.y + size_pos(target.size.height)) - 1);
    let nw = target.point;
    let se = Point {
        x: sat_i16(target.point.x + size_pos(target.size.width)),
        y: sat_i16(target.point.y + size_pos(target.size.height)),
    };
    let nwx = sat_i16(target.point.x + (np.w_w as i16));
    let nwy = sat_i16(target.point.y + (np.n_h as i16));
    let nw_in = Point { x: if se.x <= nwx { se.x } else { nwx }, y: if se.y <= nwy { se.y } else { nwy } };
    let se_in = Point { x: sat_i16(se.x - (np.e_w as i16)), y: sat_i16(se.y - (np.s_h as i16)) };
    let fb1 = if np.x_w > 0 {
        x_edges(cv, np, nw.y, sat_i16(se.y - 1), reader_start(np.data[0]), reader_start(np.data[4]), fb, nw_in.x, 0,
            sat_i16(se_in.x - nw_in.x) as int)
    } else {
        fb
    };
    if np.x_w > 0 {
        lemma_x_edges_len(cv, np, nw.y, sat_i16(se.y - 1), reader_start(np.data[0]), reader_start(np.data[4]), fb, nw_in.x, 0,
            sat_i16(se_in.x - nw_in.x) as int);
    }
    let fb2 = if np.y_h > 0 {
        y_edges(cv, np, nw.x, sat_i16(se.x - 1), reader_start(np.data[6]), reader_start(np.data[2]), fb1, nw_in.y, 0,
            sat_i16(se_in.y - nw_in.y) as int)
    } else {
        fb1
    };
    if np.y_h > 0 {
        lemma_y_edges_len(cv, np, nw.x, sat_i16(se.x - 1), reader_start(np.data[6]), reader_start(np.data[2]), fb1, nw_in.y, 0,
            sat_i16(se_in.y - nw_in.y) as int);
    }
    let fb3 = corner_rows(cv, np.data[7], reader_start(np.data[7]), fb2, nw.x, nw.y, np.w_w, np.n_h as nat, 1i16, 1i16);
    lemma_corner_rows_len(cv, np.data[7], reader_start(np.data[7]), fb2, nw.x, nw.y, np.w_w, np.n_h as nat, 1i16, 1i16);
    let fb4 = corner_rows(cv, np.data[1], reader_start(np.data[1]), fb3, east, nw.y, np.e_w, np.n_h as nat, -1i16, 1i16);
    lemma_corner_rows_len(cv, np.data[1], reader_start(np.data[1]), fb3, east, nw.y, np.e_w, np.n_h as nat, -1i16, 1i16);
    let fb5 = corner_rows(cv, np.data[5], reader_start(np.data[5]), fb4, nw.x, south, np.w_w, np.s_h as nat, 1i16, -1i16);
    lemma_corner_rows_len(cv, np.data[5], reader_start(np.data[5]), fb4, nw.x, south, np.w_w, np.s_h as nat, 1i16, -1i16);
    fb2
}

/// The first pixel a corner piece puts down, at its corner, stays: it is
/// the first bit of the piece (rows run by `dx`, the next row is `dy`
/// further).
proof fn lemma_first_pixel_stays(cv: Canvas, data: Seq<u8>, fb: Seq<u8>, x: i16, y: i16, width: u8, k: nat, dx: i16, dy: i16)
    requires
        clip_inside(cv.clip, cv.width as int),
        dx == 1 || dx == -1,
        dy == 1 || dy == -1,
        width >= 1,
        k >= 1,
        i16::MIN <= x + dx * width <= i16::MAX,
        i16::MIN <= y + dy * k <= i16::MAX,
        drawable(fb, cv.width as int, cv.clip, x as int, y as int),
    ensures
        pixel_on(corner_rows(cv, data, reader_start(data), fb, x, y, width, k, dx, dy), cv.width as int, x as int, y as int)
            == (next_bit_spec(data, reader_start(data)).1 != 0),
{
    let w = cv.width as int;
    let (bs1, pixel) = next_bit_spec(data, reader_start(data));
    lemma_plot_same(fb, w, cv.clip, x as int, y as int, pixel);
    let f1 = plot_pixel(fb, w, cv.clip, x as int, y as int, pixel);
    let x2 = sat_i16(x + dx);
    let y0 = sat_i16(y + 0i16);
    assert(y0 == y);
    if width >= 2 {
        assert(x2 == x + dx);
        assert(dx * width == dx + dx * (width - 1)) by (nonlinear_arith);
        assert(x2 + dx * (width - 1) == x + dx * width);
        assert(dx * (width - 2) == (width - 2) || dx * (width - 2) == -(width - 2)) by (nonlinear_arith)
            requires
                dx == 1 || dx == -1,
        ;
        assert(!between(x as int, x2 as int, x2 + dx * ((width - 1) as nat - 1)));
        lemma_patch_run_box(cv, data, bs1, f1, Point { x: x2, y: y0 }, (width - 1) as nat, dx, 0i16, x as int, y as int);
    } else {
        assert(patch_run(cv, data, bs1, f1, Point { x: x2, y: y0 }, 0, dx, 0i16).1 == f1);
    }
    lemma_patch_run_len(cv, data, bs1, f1, Point { x: x2, y: y0 }, (width - 1) as nat, dx, 0i16);
    let (bs2, f2) = patch_run(cv, data, reader_start(data), fb, Point { x: x, y: y }, width as nat, dx, 0i16);
    assert(pixel_on(f2, w, x as int, y as int) == (pixel != 0));
    if k >= 2 {
        let y2 = sat_i16(y + dy);
        assert(y2 == y + dy);
        assert(dy * k == dy + dy * (k - 1)) by (nonlinear_arith);
        assert(dy * (k - 2) == (k - 2) || dy * (k - 2) == -(k - 2)) by (nonlinear_arith)
            requires
                dy == 1 || dy == -1,
        ;
        assert(!between(y as int, y2 as int, y2 + dy * ((k - 1) as nat - 1)));
        lemma_corner_rows_box(cv, data, bs2, f2, x, y2, width, (k - 1) as nat, dx, dy, x as int, y as int);
    } else {
        assert(corner_rows(cv, data, bs2, f2, x, sat_i16(y + dy), width, 0, dx, dy) == f2);
    }
}

/// The corner room a nine patch border needs around `target`: every piece
/// runs inside the range of positions, no band or corner fills a whole
/// side.
pub open spec fn corners_apart(np: PatchView, target: Area) -> bool {
    &&& np.data.len() >= 8
    &&& np.w_w >= 1 && np.e_w >= 1 && np.n_h >= 1 && np.s_h >= 1
    &&& 0 <= target.point.x && 0 <= target.point.y
    &&& target.point.x + target.size.width + 256 <= 32767
    &&& target.point.y + target.size.height + 256 <= 32767
    &&& target.size.width > np.w_w as int + np.e_w as int
    &&& target.size.height > np.n_h as int + np.s_h as int
}

/// The north-west corner of a nine patch border, where the corners lie
/// apart: the pixel in the corner of the target shows the first pixel of
/// the north-west corner piece.
pub proof fn law_ninepatch_north_west_corner(cv: Canvas, np: PatchView, target: Area, fb: Seq<u8>)
    requires
        corners_apart(np, target),
        clip_inside(cv.clip, cv.width as int),
        drawable(fb, cv.width as int, cv.clip, target.point.x as int, target.point.y as int),
    ensures
        pixel_on(ninepatch_fb(cv, np, target, fb), cv.width as int, target.point.x as int, target.point.y as int)
            == (next_bit_spec(np.data[7], reader_start(np.data[7])).1 != 0),
{
    let fb2 = edges_of(cv, np, target, fb);
    let east = (target.point.x + target.size.width - 1) as i16;
    let south = (target.point.y + target.size.height - 1) as i16;
    let nw = target.point;
    let (px, py) = (nw.x as int, nw.y as int);
    let fb3 = corner_rows(cv, np.data[7], reader_start(np.data[7]), fb2, nw.x, nw.y, np.w_w, np.n_h as nat, 1i16, 1i16);
    lemma_first_pixel_stays(cv, np.data[7], fb2, nw.x, nw.y, np.w_w, np.n_h as nat, 1i16, 1i16);
    let fb4 = corner_rows(cv, np.data[1], reader_start(np.data[1]), fb3, east, nw.y, np.e_w, np.n_h as nat, -1i16, 1i16);
    lemma_corner_rows_box(cv, np.data[1], reader_start(np.data[1]), fb3, east, nw.y, np.e_w, np.n_h as nat, -1i16, 1i16, px, py);
    let fb5 = corner_rows(cv, np.data[5], reader_start(np.data[5]), fb4, nw.x, south, np.w_w, np.s_h as nat, 1i16, -1i16);
    lemma_corner_rows_box(cv, np.data[5], reader_start(np.data[5]), fb4, nw.x, south, np.w_w, np.s_h as nat, 1i16, -1i16, px, py);
    lemma_corner_rows_box(cv, np.data[3], reader_start(np.data[3]), fb5, east, south, np.e_w, np.s_h as nat, -1i16, -1i16, px, py);
}

/// The north-east corner of a nine patch border, where the corners lie
/// apart: the pixel in that corner of the target shows the first pixel of
/// the north-east corner piece.
pub proof fn law_ninepatch_north_east_corner(cv: Canvas, np: PatchView, target: Area, fb: Seq<u8>)
    requires
        corners_apart(np, target),
        clip_inside(cv.clip, cv.width as int),
        drawable(fb, cv.width as int, cv.clip, target.point.x + target.size.width - 1, target.point.y as int),
    ensures
        pixel_on(ninepatch_fb(cv, np, target, fb), cv.width as int, target.point.x + target.size.width - 1, target.point.y as int)
            == (next_bit_spec(np.data[1], reader_start(np.data[1])).1 != 0),
{
    let fb2 = edges_of(cv, np, target, fb);
    let east = (target.point.x + target.size.width - 1) as i16;
    let south = (target.point.y + target.size.height - 1) as i16;
    let nw = target.point;
    let (px, py) = (east as int, nw.y as int);
    let fb3 = corner_rows(cv, np.data[7], reader_start(np.data[7]), fb2, nw.x, nw.y, np.w_w, np.n_h as nat, 1i16, 1i16);
    let fb4 = corner_rows(cv, np.data[1], reader_start(np.data[1]), fb3, east, nw.y, np.e_w, np.n_h as nat, -1i16, 1i16);
    lemma_first_pixel_stays(cv, np.data[1], fb3, east, nw.y, np.e_w, np.n_h as nat, -1i16, 1i16);
    let fb5 = corner_rows(cv, np.data[5], reader_start(np.data[5]), fb4, nw.x, south, np.w_w, np.s_h as nat, 1i16, -1i16);
    lemma_corner_rows_box(cv, np.data[5], reader_start(np.data[5]), fb4, nw.x, south, np.w_w, np.s_h as nat, 1i16, -1i16, px, py);
    lemma_corner_rows_box(cv, np.data[3], reader_start(np.data[3]), fb5, east, south, np.e_w, np.s_h as nat, -1i16, -1i16, px, py);
}

/// The south-west corner of a nine patch border, where the corners lie
/// apart: the pixel in that corner of the target shows the first pixel of
/// the south-west corner piece.
pub proof fn law_ninepatch_south_west_corner(cv: Canvas, np: PatchView, target: Area, fb: Seq<u8>)
    requires
        corners_apart(np, target),
        clip_inside(cv.clip, cv.width as int),
        drawable(fb, cv.width as int, cv.clip, target.point.x as int, target.point.y + target.size.height - 1),
    ensures
        pixel_on(ninepatch_fb(cv, np, target, fb), cv.width as int, target.point.x as int, target.point.y + target.size.height - 1)
            == (next_bit_spec(np.data[5], reader_start(np.data[5])).1 != 0),
{
    let fb2 = edges_of(cv, np, target, fb);
    let east = (target.point.x + target.size.width - 1) as i16;
    let south = (target.point.y + target.size.height - 1) as i16;
    let nw = target.point;
    let (px, py) = (nw.x as int, south as int);
    let fb3 = corner_rows(cv, np.data[7], reader_start(np.data[7]), fb2, nw.x, nw.y, np.w_w, np.n_h as nat, 1i16, 1i16);
    let fb4 = corner_rows(cv, np.data[1], reader_start(np.data[1]), fb3, east, nw.y, np.e_w, np.n_h as nat, -1i16, 1i16);
    let fb5 = corner_rows(cv, np.data[5], reader_start(np.data[5]), fb4, nw.x, south, np.w_w, np.s_h as nat, 1i16, -1i16);
    lemma_first_pixel_stays(cv, np.data[5], fb4, nw.x, south, np.w_w, np.s_h as nat, 1i16, -1i16);
    lemma_corner_rows_box(cv, np.data[3], reader_start(np.data[3]), fb5, east, south, np.e_w, np.s_h as nat, -1i16, -1i16, px, py);
}

/// A run along a row draws nothing off the row or outside `x .. end`.
proof fn lemma_hline_frame(fb: Seq<u8>, w: int, c: Clip, x: int, end: int, y: int, color: u8, px: int, py: int)
    requires
        clip_inside(c, w),
        0 <= px < w,
        0 <= py,
        (py * w + px) / 8 < fb.len(),
        py != y || px < x || px >= end,
    ensures
        pixel_on(hline_run(fb, w, c, x, end, y, color), w, px, py) == pixel_on(fb, w, px, py),
    decreases end - x,
{
    if x < end {
        lemma_plot_other(fb, w, c, x, y, color, px, py);
        lemma_hline_frame(plot_pixel(fb, w, c, x, y, color), w, c, x + 1, end, y, color, px, py);
    }
}

/// A run along a row draws every pixel from `x` to `end`.
proof fn lemma_hline_sets(fb: Seq<u8>, w: int, c: Clip, x: int, end: int, y: int, color: u8, k: int)
    requires
        clip_inside(c, w),
        x <= k < end,
        drawable(fb, w, c, k, y),
    ensures
        pixel_on(hline_run(fb, w, c, x, end, y, color), w, k, y) == (color != 0),
    decreases end - x,
{
    let f1 = plot_pixel(fb, w, c, x, y, color);
    if k == x {
        lemma_plot_same(fb, w, c, x, y, color);
        lemma_hline_frame(f1, w, c, x + 1, end, y, color, k, y);
    } else {
        lemma_hline_sets(f1, w, c, x + 1, end, y, color, k);
    }
}

/// Rows of a filled rectangle leave the rows above them as they were.
proof fn lemma_fill_frame(fb: Seq<u8>, w: u16, h: u16, c: Clip, x: i16, y: int, end: int, width: u16, color: u8, px: int, py: int)
    requires
        clip_inside(c, w as int),
        0 <= px < w,
        0 <= py < y,
        end <= 32767,
        (py * w + px) / 8 < fb.len(),
    ensures
        pixel_on(fill_run(fb, w, h, c, x, y, end, width, color), w as int, px, py) == pixel_on(fb, w as int, px, py),
        fill_run(fb, w, h, c, x, y, end, width, color).len() == fb.len(),
    decreases end - y,
{
    if y < end {
        let p = Point { x, y: y as i16 };
        let f1 = hline_spec(fb, w as int, h, c, p, width, color);
        if !(width == 0 || p.y < 0 || p.y >= h as i16) {
            lemma_hline_frame(fb, w as int, c, max_int(p.x as int, c.p0.x as int), min_int(p.x + width as i16, c.p1.x as int), p.y as int, color, px, py);
            lemma_hline_len(fb, w as int, c, max_int(p.x as int, c.p0.x as int), min_int(p.x + width as i16, c.p1.x as int), p.y as int, color);
        }
        lemma_fill_frame(f1, w, h, c, x, y + 1, end, width, color, px, py);
    }
}

/// Rows `y .. end` of a filled rectangle draw each pixel of theirs.
proof fn lemma_fill_sets(fb: Seq<u8>, w: u16, h: u16, c: Clip, x: i16, y: int, end: int, width: u16, color: u8, px: int, py: int)
    requires
        clip_inside(c, w as int),
        0 <= y <= py < end,
        end <= h <= 32767,
        1 <= width <= 32767,
        x <= px < x + width,
        y <= 32767,
        drawable(fb, w as int, c, px, py),
    ensures
        pixel_on(fill_run(fb, w, h, c, x, y, end, width, color), w as int, px, py) == (color != 0),
    decreases end - y,
{
    let p = Point { x, y: y as i16 };
    let f1 = hline_spec(fb, w as int, h, c, p, width, color);
    let x0 = max_int(p.x as int, c.p0.x as int);
    let x1 = min_int(p.x + width as i16, c.p1.x as int);
    lemma_hline_len(fb, w as int, c, x0, x1, p.y as int, color);
    assert(p.y == y && (h as i16) == h && (width as i16) == width);
    assert(f1 == hline_run(fb, w as int, c, x0, x1, p.y as int, color));
    assert(fill_run(fb, w, h, c, x, y, end, width, color) == fill_run(f1, w, h, c, x, y + 1, end, width, color));
    if py == y {
        lemma_hline_sets(fb, w as int, c, x0, x1, y, color, px);
        if y + 1 < end {
            lemma_fill_frame(f1, w, h, c, x, y + 1, end, width, color, px, py);
        } else {
            assert(fill_run(f1, w, h, c, x, y + 1, end, width, color) == f1);
        }
    } else {
        lemma_fill_sets(f1, w, h, c, x, y + 1, end, width, color, px, py);
    }
}

/// A filled rectangle draws every pixel of its area that lies inside the
/// clip and the surface.
pub proof fn law_fill_covers_area(fb: Seq<u8>, w: u16, h: u16, c: Clip, a: Area, color: u8, px: int, py: int)
    requires
        clip_inside(c, w as int),
        h <= 32767,
        1 <= a.size.width <= 32767,
        1 <= a.size.height <= 32767,
        a.point.x <= px < a.point.x + a.size.width,
        a.point.y <= py < a.point.y + a.size.height,
        py < h,
        drawable(fb, w as int, c, px, py),
    ensures
        pixel_on(fill_spec(fb, w, h, c, a, color), w as int, px, py) == (color != 0),
{
    let y0 = max_int(a.point.y as int, 0);
    let end = min_int(a.point.y + a.size.height as i16, h as i16 as int);
    lemma_fill_sets(fb, w, h, c, a.point.x, y0, end, a.size.width, color, px, py);
}

/// Drawing in a color keeps every pixel that already has that color.
proof fn lemma_plot_keeps(fb: Seq<u8>, w: int, c: Clip, x: int, y: int, color: u8, px: int, py: int)
    requires
        clip_inside(c, w),
        0 <= px < w,
        0 <= py,
        (py * w + px) / 8 < fb.len(),
        pixel_on(fb, w, px, py) == (color != 0),
    ensures
        pixel_on(plot_pixel(fb, w, c, x, y, color), w, px, py) == (color != 0),
{
    if x == px && y == py {
        if in_clip(c, x, y) {
            lemma_plot_same(fb, w, c, x, y, color);
        }
    } else {
        lemma_plot_other(fb, w, c, x, y, color, px, py);
    }
}

proof fn lemma_hline_keeps(fb: Seq<u8>, w: int, c: Clip, x: int, end: int, y: int, color: u8, px: int, py: int)
    requires
        clip_inside(c, w),
        0 <= px < w,
        0 <= py,
        (py * w + px) / 8 < fb.len(),
        pixel_on(fb, w, px, py) == (color != 0),
    ensures
        pixel_on(hline_run(fb, w, c, x, end, y, color), w, px, py) == (color != 0),
    decreases end - x,
{
    if x < end {
        lemma_plot_keeps(fb, w, c, x, y, color, px, py);
        lemma_hline_keeps(plot_pixel(fb, w, c, x, y, color), w, c, x + 1, end, y, color, px, py);
    }
}

proof fn lemma_vline_keeps(fb: Seq<u8>, w: int, c: Clip, x: int, y: int, end: int, color: u8, px: int, py: int)
    requires
        clip_inside(c, w),
        0 <= px < w,
        0 <= py,
        (py * w + px) / 8 < fb.len(),
        pixel_on(fb, w, px, py) == (color != 0),
    ensures
        pixel_on(vline_run(fb, w, c, x, y, end, color), w, px, py) == (color != 0),
    decreases end - y,
{
    if y < end {
        lemma_plot_keeps(fb, w, c, x, y, color, px, py);
        lemma_vline_keeps(plot_pixel(fb, w, c, x, y, color), w, c, x, y + 1, end, color, px, py);
    }
}

/// A run down a column draws every pixel from `y` to `end`.
proof fn lemma_vline_sets(fb: Seq<u8>, w: int, c: Clip, x: int, y: int, end: int, color: u8, k: int)
    requires
        clip_inside(c, w),
        y <= k < end,
        drawable(fb, w, c, x, k),
    ensures
        pixel_on(vline_run(fb, w, c, x, y, end, color), w, x, k) == (color != 0),
    decreases end - y,
{
    let f1 = plot_pixel(fb, w, c, x, y, color);
    if k == y {
        lemma_plot_same(fb, w, c, x, y, color);
        lemma_vline_keeps(f1, w, c, x, y + 1, end, color, x, k);
    } else {
        lemma_vline_sets(f1, w, c, x, y + 1, end, color, k);
    }
}

/// The outline of a rectangle draws every pixel of its four sides that
/// lies inside the clip, where the rectangle lies inside the surface.
pub proof fn law_rect_draws_outline(fb: Seq<u8>, w: u16, h: u16, c: Clip, a: Area, color: u8, px: int, py: int)
    requires
        clip_inside(c, w as int),
        w <= 32767,
        h <= 32767,
        0 <= a.point.x,
        0 <= a.point.y,
        2 <= a.size.width,
        2 <= a.size.height,
        a.point.x + a.size.width <= w,
        a.point.y + a.size.height <= h,
        ((py == a.point.y || py == a.point.y + a.size.height - 1) && a.point.x <= px < a.point.x + a.size.width)
            || ((px == a.point.x || px == a.point.x + a.size.width - 1) && a.point.y <= py < a.point.y + a.size.height),
        drawable(fb, w as int, c, px, py),
    ensures
        pixel_on(rect_spec(fb, w, h, c, a, color), w as int, px, py) == (color != 0),
{
    let wi = w as int;
    let aw = a.size.width;
    let ah = a.size.height;
    let x0 = a.point.x as int;
    let y0 = a.point.y as int;
    assert((aw as i16) == aw && (ah as i16) == ah && (h as i16) == h && (w as i16) == w);
    // top row
    let t = hline_spec(fb, wi, h, c, a.point, aw, color);
    let tx0 = max_int(x0, c.p0.x as int);
    let tx1 = min_int(x0 + aw, c.p1.x as int);
    assert(t == hline_run(fb, wi, c, tx0, tx1, y0, color));
    lemma_hline_len(fb, wi, c, tx0, tx1, y0, color);
    // bottom row
    let pb = Point { x: a.point.x, y: (a.point.y + ah as i16 - 1) as i16 };
    assert(pb.y == y0 + ah - 1);
    assert(ah > 1 && (ah as i16) - 1 < (h as i16) - a.point.y);
    let fb1 = hline_spec(t, wi, h, c, pb, aw, color);
    assert(fb1 == hline_run(t, wi, c, tx0, tx1, y0 + ah - 1, color));
    lemma_hline_len(t, wi, c, tx0, tx1, y0 + ah - 1, color);
    // left column
    let v = vline_spec(fb1, wi, h, c, a.point, (ah - 1) as u16, color);
    let vy0 = max_int(y0, c.p0.y as int);
    let vy1 = min_int(y0 + (ah - 1), c.p1.y as int);
    assert(((ah - 1) as u16 as i16) == ah - 1);
    assert(v == vline_run(fb1, wi, c, x0, vy0, vy1, color));
    lemma_vline_len(fb1, wi, c, x0, vy0, vy1, color);
    // right column
    let pr = Point { x: (a.point.x + aw as i16 - 1) as i16, y: (a.point.y + 1) as i16 };
    assert(pr.x == x0 + aw - 1 && pr.y == y0 + 1);
    assert(aw > 1 && (aw as i16) - 1 < (w as i16) - a.point.x);
    let ry0 = max_int(y0 + 1, c.p0.y as int);
    let ry1 = min_int(y0 + 1 + (ah - 2), c.p1.y as int);
    assert(((ah - 2) as u16 as i16) == ah - 2);
    let r = vline_spec(v, wi, h, c, pr, (ah - 2) as u16, color);
    assert(rect_spec(fb, w, h, c, a, color) == r);
    if ah - 2 == 0 {
        assert(r == v);
    } else {
        assert(r == vline_run(v, wi, c, x0 + aw - 1, ry0, ry1, color));
    }
    // which side draws the pixel
    if py == y0 {
        lemma_hline_sets(fb, wi, c, tx0, tx1, y0, color, px);
        lemma_hline_keeps(t, wi, c, tx0, tx1, y0 + ah - 1, color, px, py);
        lemma_vline_keeps(fb1, wi, c, x0, vy0, vy1, color, px, py);
    } else if py == y0 + ah - 1 {
        lemma_hline_sets(t, wi, c, tx0, tx1, y0 + ah - 1, color, px);
        lemma_vline_keeps(fb1, wi, c, x0, vy0, vy1, color, px, py);
    } else if px == x0 {
        lemma_vline_sets(fb1, wi, c, x0, vy0, vy1, color, py);
    } else {
        lemma_vline_len(fb1, wi, c, x0, vy0, vy1, color);
        lemma_vline_sets(v, wi, c, x0 + aw - 1, ry0, ry1, color, py);
    }
    if ah - 2 > 0 && (py == y0 || py == y0 + ah - 1 || px == x0) {
        lemma_vline_len(fb1, wi, c, x0, vy0, vy1, color);
        lemma_vline_keeps(v, wi, c, x0 + aw - 1, ry0, ry1, color, px, py);
    }
}

} // verus!
