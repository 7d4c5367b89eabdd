//! What a glyph sheet holds: the cells that red and blue marks cut it into,
//! the character code of each cell, and its glyph cropped to its white
//! pixels.

use vstd::prelude::*;
use super::font_gen::{pixel_at, sheet_runs, white_along, GlyphView};

verus! {

/// One code pixel of a cell: where the pixel at (`x`, `y`) is blue, the
/// current bit joins the code; the bit moves up, past bit 31 to none.
pub open spec fn code_step(pixels: Seq<u8>, width: usize, st: (u32, u32), x: int, y: int) -> (u32, u32) {
    (
        if pixel_at(pixels, width as int, x, y, (0u8, 0u8, 0xffu8)) { st.0 | st.1 } else { st.0 },
        if st.1 >= 0x8000_0000 { 0u32 } else { (st.1 * 2) as u32 },
    )
}

/// Code and bit after the first `j` pixels of row `y` of a cell from column
/// `cx` on, starting from `st`.
pub open spec fn code_row(pixels: Seq<u8>, width: usize, cx: int, y: int, j: nat, st: (u32, u32)) -> (u32, u32)
    decreases j,
{
    if j == 0 {
        st
    } else {
        code_step(pixels, width, code_row(pixels, width, cx, y, (j - 1) as nat, st), cx + j - 1, y)
    }
}

/// Code and bit after the first `i` rows (from row `iy`) of a cell from
/// column `cx`, `cl` columns wide, read row by row.
pub open spec fn code_rows(pixels: Seq<u8>, width: usize, cx: int, cl: nat, iy: int, i: nat) -> (u32, u32)
    decreases i,
{
    if i == 0 {
        (0u32, 1u32)
    } else {
        code_row(pixels, width, cx, iy + i - 1, cl, code_rows(pixels, width, cx, cl, iy, (i - 1) as nat))
    }
}

/// Whether a pixel of column `x` from row `y_o` on (`rl` rows) is white.
pub open spec fn col_white(pixels: Seq<u8>, width: usize, x: usize, y_o: usize, rl: usize) -> bool {
    exists|i: int| 0 <= i < rl && #[trigger] white_along(pixels, width, x, y_o, i, false)
}

/// Whether a pixel of row `y` from column `x0` on (`len` columns) is white.
pub open spec fn row_white(pixels: Seq<u8>, width: usize, x0: usize, y: usize, len: usize) -> bool {
    exists|i: int| 0 <= i < len && #[trigger] white_along(pixels, width, x0, y, i, true)
}

/// The first column from `x0` on, before `x1`, with a white pixel; `x1`
/// where there is none.
pub open spec fn trim_left(pixels: Seq<u8>, width: usize, x0: usize, x1: usize, y_o: usize, rl: usize) -> usize
    decreases x1 - x0,
{
    if x0 < x1 && !col_white(pixels, width, x0, y_o, rl) {
        trim_left(pixels, width, (x0 + 1) as usize, x1, y_o, rl)
    } else {
        x0
    }
}

/// The last column from `x1` down, after `x0`, with a white pixel; `x0`
/// where there is none.
pub open spec fn trim_right(pixels: Seq<u8>, width: usize, x0: usize, x1: usize, y_o: usize, rl: usize) -> usize
    decreases x1 - x0,
{
    if x0 < x1 && !col_white(pixels, width, x1, y_o, rl) {
        trim_right(pixels, width, x0, (x1 - 1) as usize, y_o, rl)
    } else {
        x1
    }
}

/// The first row from `y0` on, before `y1`, with a white pixel among the
/// `len` columns from `x0`; `y1` where there is none.
pub open spec fn trim_top(pixels: Seq<u8>, width: usize, x0: usize, len: usize, y0: usize, y1: usize) -> usize
    decreases y1 - y0,
{
    if y0 < y1 && !row_white(pixels, width, x0, y0, len) {
        trim_top(pixels, width, x0, len, (y0 + 1) as usize, y1)
    } else {
        y0
    }
}

/// The last row from `y1` down, after `y0`, with a white pixel among the
/// `len` columns from `x0`; `y0` where there is none.
pub open spec fn trim_bottom(pixels: Seq<u8>, width: usize, x0: usize, len: usize, y0: usize, y1: usize) -> usize
    decreases y1 - y0,
{
    if y0 < y1 && !row_white(pixels, width, x0, y1, len) {
        trim_bottom(pixels, width, x0, len, y0, (y1 - 1) as usize)
    } else {
        y1
    }
}

/// The bytes written, the byte being filled and its next bit after the
/// first `k` pixels of a rectangle `wdt` pixels wide from (`x0`, `y0`), row
/// by row: a white pixel sets the bit, each full byte is written.
pub open spec fn bits_state(pixels: Seq<u8>, width: usize, x0: usize, y0: usize, wdt: usize, k: nat) -> (Seq<u8>, u8, u8)
    decreases k,
{
    if k == 0 {
        (seq![0u8], 0u8, 0x80u8)
    } else {
        let (bs, byte, mask) = bits_state(pixels, width, x0, y0, wdt, (k - 1) as nat);
        let i = k - 1;
        let b2 = if pixel_at(pixels, width as int, x0 + i % (wdt as int), y0 + i / (wdt as int), (0xffu8, 0xffu8, 0xffu8)) {
            byte | mask
        } else {
            byte
        };
        if mask == 1 { (bs.push(b2), 0u8, 0x80u8) } else { (bs, b2, mask >> 1u8) }
    }
}

/// The raw one-bit pixel stream of the white pixels of the rectangle from
/// (`x0`, `y0`) to (`x1`, `y1`), both included: the format byte 0, then the
/// bits row by row, the last byte filled up with zeros.
pub open spec fn glyph_bits(pixels: Seq<u8>, width: usize, x0: usize, y0: usize, x1: usize, y1: usize) -> Seq<u8> {
    let wdt = (x1 - x0 + 1) as usize;
    let (bs, byte, mask) = bits_state(pixels, width, x0, y0, wdt, (wdt * (y1 - y0 + 1)) as nat);
    if mask != 0x80 { bs.push(byte) } else { bs }
}

/// The glyphs read from a sheet so far, and the bounds of their crops
/// within their cells.
pub struct SheetScan {
    pub glyphs: Seq<GlyphView>,
    pub min_x: usize,
    pub max_x: usize,
    pub min_y: usize,
    pub max_y: usize,
}

/// One cell of a sheet: columns `cx` on (`cl` of them), code rows `iy` on
/// (`il`), glyph rows `y_o` on (`rl`). A cell with a code gives the glyph
/// cropped to its white pixels, where the crop is not empty and under 256
/// pixels each way; its offsets are those of the crop in the cell.
pub open spec fn cell_step(
    pixels: Seq<u8>,
    w: usize,
    st: SheetScan,
    cx: usize,
    cl: usize,
    iy: usize,
    il: usize,
    y_o: usize,
    rl: usize,
) -> SheetScan {
    let code = code_rows(pixels, w, cx as int, cl as nat, iy as int, il as nat).0;
    if code == 0 {
        st
    } else {
        let x0 = trim_left(pixels, w, cx, (cx + cl) as usize, y_o, rl);
        let x1 = trim_right(pixels, w, x0, (cx + cl) as usize, y_o, rl);
        let y0 = trim_top(pixels, w, x0, (x1 - x0 + 1) as usize, y_o, (y_o + rl) as usize);
        let y1 = trim_bottom(pixels, w, x0, (x1 - x0 + 1) as usize, y0, (y_o + rl) as usize);
        let g_w = x1 - x0;
        let g_h = y1 - y0;
        if x0 - cx != cl && g_w < 256 && g_h < 256 {
            SheetScan {
                glyphs: st.glyphs.push(
                    GlyphView {
                        id: code,
                        width: (g_w as u8).wrapping_add(1),
                        height: (g_h as u8).wrapping_add(1),
                        top: (y0 - y_o) as i8,
                        left: (x0 - cx) as i8,
                        img: glyph_bits(pixels, w, x0, y0, x1, y1),
                    },
                ),
                min_x: if x0 - cx < st.min_x { (x0 - cx) as usize } else { st.min_x },
                max_x: if x1 - cx > st.max_x { (x1 - cx) as usize } else { st.max_x },
                min_y: if y0 - y_o < st.min_y { (y0 - y_o) as usize } else { st.min_y },
                max_y: if y1 - y_o > st.max_y { (y1 - y_o) as usize } else { st.max_y },
            }
        } else {
            st
        }
    }
}

/// The first `j` cells of a row of cells.
pub open spec fn scan_row(
    pixels: Seq<u8>,
    w: usize,
    cols: (Seq<usize>, Seq<usize>),
    iy: usize,
    il: usize,
    y_o: usize,
    rl: usize,
    j: nat,
    st: SheetScan,
) -> SheetScan
    decreases j,
{
    if j == 0 {
        st
    } else {
        cell_step(pixels, w, scan_row(pixels, w, cols, iy, il, y_o, rl, (j - 1) as nat, st), cols.0[j - 1], cols.1[j - 1], iy, il, y_o, rl)
    }
}

/// What nothing read yet leaves.
pub open spec fn scan_start() -> SheetScan {
    SheetScan { glyphs: Seq::empty(), min_x: usize::MAX, max_x: 0, min_y: usize::MAX, max_y: 0 }
}

/// The first `i` rows of cells, each row all its columns.
pub open spec fn scan_rows(
    pixels: Seq<u8>,
    w: usize,
    cols: (Seq<usize>, Seq<usize>),
    ids: (Seq<usize>, Seq<usize>),
    rows: (Seq<usize>, Seq<usize>),
    i: nat,
) -> SheetScan
    decreases i,
{
    if i == 0 {
        scan_start()
    } else {
        scan_row(pixels, w, cols, ids.0[i - 1], ids.1[i - 1], rows.0[i - 1], rows.1[i - 1], cols.0.len(),
            scan_rows(pixels, w, cols, ids, rows, (i - 1) as nat))
    }
}

/// The columns of a sheet `w` x `h`: the red runs of its top row.
pub open spec fn sheet_cols(pixels: Seq<u8>, w: usize) -> (Seq<usize>, Seq<usize>) {
    let r = sheet_runs(pixels, w as int, true, (0xffu8, 0u8, 0u8), w as nat);
    (r.0, r.1)
}

/// The code rows of a sheet: the blue runs of its left column.
pub open spec fn sheet_ids(pixels: Seq<u8>, w: usize, h: usize) -> (Seq<usize>, Seq<usize>) {
    let r = sheet_runs(pixels, w as int, false, (0u8, 0u8, 0xffu8), h as nat);
    (r.0, r.1)
}

/// The glyph rows of a sheet: the red runs of its left column.
pub open spec fn sheet_rows(pixels: Seq<u8>, w: usize, h: usize) -> (Seq<usize>, Seq<usize>) {
    let r = sheet_runs(pixels, w as int, false, (0xffu8, 0u8, 0u8), h as nat);
    (r.0, r.1)
}

/// What a sheet of `w` x `h` pixels gives: its cells, row of codes by row
/// of glyphs, as far as both go.
pub open spec fn sheet_scan(pixels: Seq<u8>, w: usize, h: usize) -> SheetScan {
    let ids = sheet_ids(pixels, w, h);
    let rows = sheet_rows(pixels, w, h);
    let n = if ids.0.len() < rows.0.len() { ids.0.len() } else { rows.0.len() };
    scan_rows(pixels, w, sheet_cols(pixels, w), ids, rows, n)
}

/// A glyph with its offsets taken relative to the smallest ones.
pub open spec fn shift_glyph(g: GlyphView, min_x: usize, min_y: usize) -> GlyphView {
    GlyphView { top: g.top.wrapping_sub(min_y as i8), left: g.left.wrapping_sub(min_x as i8), ..g }
}

/// Where a glyph of code `id` goes in `s` from `p` on: behind the glyphs
/// whose code is not larger.
pub open spec fn insert_pos(s: Seq<GlyphView>, id: u32, p: nat) -> nat
    decreases s.len() - p,
{
    if p < s.len() && s[p as int].id <= id { insert_pos(s, id, p + 1) } else { p }
}

/// The first `n` glyphs of `gs`, shifted, sorted by code; glyphs of equal
/// code keep their order.
pub open spec fn sorted_glyphs(gs: Seq<GlyphView>, min_x: usize, min_y: usize, n: nat) -> Seq<GlyphView>
    decreases n,
{
    if n == 0 {
        Seq::empty()
    } else {
        let s = sorted_glyphs(gs, min_x, min_y, (n - 1) as nat);
        let g = shift_glyph(gs[n - 1], min_x, min_y);
        s.insert(insert_pos(s, g.id, 0) as int, g)
    }
}

/// Whether the glyph of code `id` gives a font its base height: `A`, `W`,
/// `0` or `!`.
pub open spec fn base_code(id: u32) -> bool {
    id == 65 || id == 87 || id == 48 || id == 33
}

/// The height of the last of the first `n` glyphs that gives the base
/// height, if any.
pub open spec fn base_search(s: Seq<GlyphView>, n: nat) -> Option<u8>
    decreases n,
{
    if n == 0 {
        None
    } else if base_code(s[n - 1].id) {
        Some(s[n - 1].height)
    } else {
        base_search(s, (n - 1) as nat)
    }
}

} // verus!
