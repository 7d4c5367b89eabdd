//! Building the font library from a picture of a glyph sheet.

use vstd::prelude::*;
use vstd::string::StringSliceAdditionalSpecFns;
use super::{Library, Media, LIB_LEN_MAX};
use super::entries::{entry_one, le_bytes, import_lib, import_lib_bytes, put_entry_one, rebuild_lib, replaced_lib};
use super::font_sheet::{
    base_search, bits_state, code_row, code_rows, glyph_bits, insert_pos, scan_row, scan_rows, sheet_cols, sheet_ids, sheet_rows,
    sheet_scan, shift_glyph, sorted_glyphs, trim_bottom, trim_left, trim_right, trim_top, SheetScan,
};
use super::buffer::{bytes_contents, bytes_len, bytes_new, bytes_put_slice, bytes_put_u16_le, bytes_put_u8, bytes_to_vec};

verus! {

/// The most bytes the body of an imported font may take: what keeps the
/// new entry, with the library it joins, within `LIB_LEN_MAX`.
pub const FONT_BODY_MAX: usize = 0x0080_0000;

/// A glyph cut from a glyph sheet: its character code, size, offsets and
/// pixel stream.
pub struct Glyph {
    pub id: u32,
    pub width: u8,
    pub height: u8,
    pub top: i8,
    pub left: i8,
    pub img: Vec<u8>,
}

/// Whether the pixel at column `x` and row `y` of RGBA pixels `width`
/// pixels wide has the colour `rgb`: false where a coordinate or the width
/// passes 2^24 - 1, or the pixel lies past the pixels.
pub open spec fn pixel_at(pixels: Seq<u8>, width: int, x: int, y: int, rgb: (u8, u8, u8)) -> bool {
    let p = (y * width + x) * 4;
    &&& y <= 0x00ff_ffff && width <= 0x00ff_ffff && x <= 0x00ff_ffff
    &&& p + 3 <= pixels.len()
    &&& pixels[p] == rgb.0 && pixels[p + 1] == rgb.1 && pixels[p + 2] == rgb.2
}

/// Whether the pixel at column `x` and row `y` of a sheet `width` pixels
/// wide has the colour `rgb`; false where it lies past the pixels.
fn pixel_is(pixels: &[u8], width: usize, x: usize, y: usize, rgb: (u8, u8, u8)) -> (r: bool)
    ensures
        r == pixel_at(pixels@, width as int, x as int, y as int, rgb),
{
    if y > 0x00ff_ffff || width > 0x00ff_ffff || x > 0x00ff_ffff {
        return false;
    }
    assert((y as u64) * (width as u64) <= 0x00ff_ffff * 0x00ff_ffff) by (nonlinear_arith)
        requires
            y <= 0x00ff_ffff,
            width <= 0x00ff_ffff,
    ;
    let p64: u64 = (y as u64 * width as u64 + x as u64) * 4;
    assert(p64 == (y * width + x) * 4);
    if p64 + 3 > pixels.len() as u64 {
        return false;
    }
    let p = p64 as usize;
    pixels[p] == rgb.0 && pixels[p + 1] == rgb.1 && pixels[p + 2] == rgb.2
}

/// Whether pixel `i` of the first row (`along_x`) or of the first column
/// has the colour `rgb`.
pub open spec fn line_pixel(pixels: Seq<u8>, width: int, i: int, along_x: bool, rgb: (u8, u8, u8)) -> bool {
    if along_x { pixel_at(pixels, width, i, 0, rgb) } else { pixel_at(pixels, width, 0, i, rgb) }
}

/// The runs of `marker` pixels among the first `n` pixels of the first row
/// (`along_x`) or column: starts, lengths, and whether the last run is still
/// open. A black pixel closes a run; a pixel of another colour neither opens
/// nor closes one.
pub open spec fn sheet_runs(pixels: Seq<u8>, width: int, along_x: bool, marker: (u8, u8, u8), n: nat) -> (Seq<usize>, Seq<usize>, bool)
    decreases n,
{
    if n == 0 {
        (Seq::empty(), Seq::empty(), false)
    } else {
        let (s, l, open) = sheet_runs(pixels, width, along_x, marker, (n - 1) as nat);
        let i = n - 1;
        if line_pixel(pixels, width, i, along_x, marker) {
            if !open {
                (s.push(i as usize), l.push(1usize), true)
            } else {
                (s, l.update(l.len() - 1, (l[l.len() - 1] + 1) as usize), true)
            }
        } else if line_pixel(pixels, width, i, along_x, (0u8, 0u8, 0u8)) {
            (s, l, false)
        } else {
            (s, l, open)
        }
    }
}

/// The runs of `marker` pixels along a line of `count` pixels (a row where
/// `along_x`, else a column), separated by black pixels: start and length of
/// each.
fn marker_runs(pixels: &[u8], width: usize, count: usize, along_x: bool, marker: (u8, u8, u8)) -> (r: (Vec<usize>, Vec<usize>))
    requires
        count <= 0x00ff_ffff,
    ensures
        r.0@ == sheet_runs(pixels@, width as int, along_x, marker, count as nat).0,
        r.1@ == sheet_runs(pixels@, width as int, along_x, marker, count as nat).1,
        r.0@.len() == r.1@.len(),
        count == 0 ==> r.0@.len() == 0,
        forall|k: int| 0 <= k < r.0@.len() ==> r.0@[k] < count && r.0@[k] + r.1@[k] <= count && r.1@[k] > 0,
{
    let mut starts: Vec<usize> = Vec::new();
    let mut lens: Vec<usize> = Vec::new();
    let mut open = false;
    let mut i: usize = 0;
    while i < count
        invariant
            count <= 0x00ff_ffff,
            i <= count,
            starts@.len() == lens@.len(),
            open ==> starts@.len() > 0,
            forall|k: int| 0 <= k < starts@.len() ==> starts@[k] < count && starts@[k] + lens@[k] <= i && lens@[k] > 0,
            i == 0 ==> starts@.len() == 0,
            sheet_runs(pixels@, width as int, along_x, marker, i as nat) == (starts@, lens@, open),
        decreases count - i,
    {
        let (x, y) = if along_x { (i, 0) } else { (0, i) };
        if pixel_is(pixels, width, x, y, marker) {
            if !open {
                starts.push(i);
                lens.push(1);
                open = true;
            } else {
                let last = lens.len() - 1;
                let l = lens[last];
                lens.set(last, l + 1);
            }
        } else if pixel_is(pixels, width, x, y, (0, 0, 0)) {
            open = false;
        }
        i += 1;
    }
    (starts, lens)
}

/// Whether pixel `i` of the column `x0` from row `y0` on, or of the row `y0`
/// from column `x0` on (`along_x`), is white; the coordinate along the line
/// wraps around.
pub open spec fn white_along(pixels: Seq<u8>, width: usize, x0: usize, y0: usize, i: int, along_x: bool) -> bool {
    if along_x {
        pixel_at(pixels, width as int, x0.wrapping_add(i as usize) as int, y0 as int, (0xffu8, 0xffu8, 0xffu8))
    } else {
        pixel_at(pixels, width as int, x0 as int, y0.wrapping_add(i as usize) as int, (0xffu8, 0xffu8, 0xffu8))
    }
}

/// Whether some pixel of the column `x` from row `y0` on (`len` rows), or of
/// the row `y` from column `x0` on (`len` columns), is white.
fn any_white(pixels: &[u8], width: usize, x0: usize, y0: usize, len: usize, along_x: bool) -> (r: bool)
    ensures
        r == exists|i: int| 0 <= i < len && #[trigger] white_along(pixels@, width, x0, y0, i, along_x),
{
    let mut i: usize = 0;
    while i < len
        invariant
            i <= len,
            forall|j: int| 0 <= j < i ==> !#[trigger] white_along(pixels@, width, x0, y0, j, along_x),
        decreases len - i,
    {
        let (x, y) = if along_x { (x0.wrapping_add(i), y0) } else { (x0, y0.wrapping_add(i)) };
        if pixel_is(pixels, width, x, y, (0xff, 0xff, 0xff)) {
            assert(white_along(pixels@, width, x0, y0, i as int, along_x));
            return true;
        }
        i += 1;
    }
    false
}

/// The character code of a cell: its pixels from column `cx` (`cl` of
/// them) and row `iy` (`il` of them) on, read row by row, a blue pixel
/// setting the bit of its place (the first 32 places).
fn cell_code(pixels: &[u8], w: usize, cx: usize, cl: usize, iy: usize, il: usize) -> (r: u32)
    requires
        cx + cl <= w <= 0x00ff_ffff,
        iy + il <= 0x00ff_ffff,
    ensures
        r == code_rows(pixels@, w, cx as int, cl as nat, iy as int, il as nat).0,
{
    let mut g_id: u32 = 0;
    let mut mask: u32 = 1;
    let mut y = iy;
    while y < iy + il
        invariant
            iy <= y <= iy + il <= 0x00ff_ffff,
            cx + cl <= w <= 0x00ff_ffff,
            (g_id, mask) == code_rows(pixels@, w, cx as int, cl as nat, iy as int, (y - iy) as nat),
        decreases iy + il - y,
    {
        let ghost start = (g_id, mask);
        let mut x = cx;
        while x < cx + cl
            invariant
                cx <= x <= cx + cl <= w <= 0x00ff_ffff,
                (g_id, mask) == code_row(pixels@, w, cx as int, y as int, (x - cx) as nat, start),
            decreases cx + cl - x,
        {
            if pixel_is(pixels, w, x, y, (0, 0, 0xff)) {
                g_id = g_id | mask;
            }
            mask = if mask >= 0x8000_0000 { 0 } else { mask * 2 };
            x += 1;
        }
        assert(code_rows(pixels@, w, cx as int, cl as nat, iy as int, (y + 1 - iy) as nat)
            == code_row(pixels@, w, cx as int, y as int, cl as nat, start));
        y += 1;
    }
    g_id
}

/// The crop of a cell to its white pixels: columns `cx` to `cx + cl`, rows
/// `y_o` on (`rl` of them).
fn crop_cell(pixels: &[u8], w: usize, cx: usize, cl: usize, y_o: usize, rl: usize) -> (r: (usize, usize, usize, usize))
    requires
        cx + cl <= w <= 0x00ff_ffff,
        y_o + rl <= 0x00ff_ffff,
    ensures
        r.0 == trim_left(pixels@, w, cx, (cx + cl) as usize, y_o, rl),
        r.1 == trim_right(pixels@, w, r.0, (cx + cl) as usize, y_o, rl),
        r.2 == trim_top(pixels@, w, r.0, (r.1 - r.0 + 1) as usize, y_o, (y_o + rl) as usize),
        r.3 == trim_bottom(pixels@, w, r.0, (r.1 - r.0 + 1) as usize, r.2, (y_o + rl) as usize),
        cx <= r.0 <= r.1 <= cx + cl,
        y_o <= r.2 <= r.3 <= y_o + rl,
{
    let mut x_0 = cx;
    let mut x_1 = cx + cl;
    while !any_white(pixels, w, x_0, y_o, rl, false) && x_0 != x_1
        invariant
            cx <= x_0 <= x_1 == cx + cl,
            trim_left(pixels@, w, x_0, x_1, y_o, rl) == trim_left(pixels@, w, cx, (cx + cl) as usize, y_o, rl),
        decreases x_1 - x_0,
    {
        x_0 += 1;
    }
    let ghost left = x_0;
    while !any_white(pixels, w, x_1, y_o, rl, false) && x_0 != x_1
        invariant
            cx <= x_0 <= x_1 <= cx + cl,
            x_0 == left,
            trim_right(pixels@, w, x_0, x_1, y_o, rl) == trim_right(pixels@, w, left, (cx + cl) as usize, y_o, rl),
        decreases x_1 - x_0,
    {
        x_1 -= 1;
    }
    let len = x_1 - x_0 + 1;
    let mut y_0 = y_o;
    let mut y_1 = y_o + rl;
    while !any_white(pixels, w, x_0, y_0, len, true) && y_0 != y_1
        invariant
            y_o <= y_0 <= y_1 == y_o + rl,
            trim_top(pixels@, w, x_0, len, y_0, y_1) == trim_top(pixels@, w, x_0, len, y_o, (y_o + rl) as usize),
        decreases y_1 - y_0,
    {
        y_0 += 1;
    }
    let ghost top = y_0;
    while !any_white(pixels, w, x_0, y_1, len, true) && y_0 != y_1
        invariant
            y_o <= y_0 <= y_1 <= y_o + rl,
            y_0 == top,
            trim_bottom(pixels@, w, x_0, len, y_0, y_1) == trim_bottom(pixels@, w, x_0, len, top, (y_o + rl) as usize),
        decreases y_1 - y_0,
    {
        y_1 -= 1;
    }
    (x_0, x_1, y_0, y_1)
}

/// The one-bit pixel stream of the white pixels of the rectangle from
/// (`x0`, `y0`) to (`x1`, `y1`), both included, row by row.
fn glyph_stream(pixels: &[u8], width: usize, x0: usize, y0: usize, x1: usize, y1: usize) -> (r: Vec<u8>)
    requires
        x0 <= x1 <= 0x00ff_ffff,
        y0 <= y1 <= 0x00ff_ffff,
        (x1 - x0 + 1) * (y1 - y0 + 1) <= 0x10000,
    ensures
        r@.len() >= 1,
        r@.len() <= 2 + 0x10000,
        r@ == glyph_bits(pixels@, width, x0, y0, x1, y1),
{
    let mut img = bytes_new();
    bytes_put_u8(&mut img, 0);
    let mut byte: u8 = 0;
    let mut mask: u8 = 0x80;
    let wdt = x1 - x0 + 1;
    let n = wdt * (y1 - y0 + 1);
    let mut k: usize = 0;
    while k < n
        invariant
            x0 <= x1 <= 0x00ff_ffff,
            y0 <= y1 <= 0x00ff_ffff,
            wdt == x1 - x0 + 1,
            n <= 0x10000,
            k <= n,
            bytes_contents(img).len() >= 1,
            bytes_contents(img).len() <= 1 + k,
            bits_state(pixels@, width, x0, y0, wdt, k as nat) == (bytes_contents(img), byte, mask),
            n == wdt * (y1 - y0 + 1),
        decreases n - k,
    {
        let x = x0 + k % wdt;
        assert(k / wdt <= k) by (nonlinear_arith)
            requires
                wdt >= 1,
        ;
        let y = y0 + k / wdt;
        if pixel_is(pixels, width, x, y, (0xff, 0xff, 0xff)) {
            byte = byte | mask;
        }
        if mask == 1 {
            bytes_put_u8(&mut img, byte);
            byte = 0;
            mask = 0x80;
        } else {
            mask = mask >> 1u8;
        }
        k += 1;
    }
    if mask != 0x80 {
        bytes_put_u8(&mut img, byte);
    }
    bytes_to_vec(&img)
}

/// What a glyph holds, its pixel stream as a sequence.
pub struct GlyphView {
    pub id: u32,
    pub width: u8,
    pub height: u8,
    pub top: i8,
    pub left: i8,
    pub img: Seq<u8>,
}

/// The view of a glyph.
pub open spec fn glyph_view(g: Glyph) -> GlyphView {
    GlyphView { id: g.id, width: g.width, height: g.height, top: g.top, left: g.left, img: g.img@ }
}

/// The views of glyphs.
pub open spec fn glyph_views(gs: Seq<Glyph>) -> Seq<GlyphView> {
    gs.map_values(|g: Glyph| glyph_view(g))
}

/// Where `insert_font` stands after some glyphs: the packs written so far
/// and their count, the code of the last glyph, the first code, glyph count
/// and running size of the open pack, its directory and glyph bytes, and
/// whether it stopped at a glyph or pack that would not fit.
pub struct FontPacking {
    pub lib: Seq<u8>,
    pub cnt: u8,
    pub last_id: u32,
    pub pack_id: u32,
    pub pack_len: u32,
    pub pack_size: usize,
    pub idx: Seq<u8>,
    pub data: Seq<u8>,
    pub stopped: bool,
}

/// The packs written so far with the open pack closed: first and last code,
/// length of directory and glyphs, directory, glyphs.
pub open spec fn closed_packs(st: FontPacking) -> Seq<u8> {
    st.lib + seq![st.pack_id as u8, st.pack_id.wrapping_add(st.pack_len).wrapping_sub(1) as u8]
        + le_bytes((st.idx.len() + st.data.len()) as u16) + st.idx + st.data
}

/// One glyph into the packs: a code that does not follow the last one
/// closes the open pack first (stopping where it would not fit); the glyph
/// then joins the open pack, its end going into the directory and its size,
/// offsets and pixel stream into the glyphs (stopping where its stream
/// passes 65536 bytes or the pack would not fit).
pub open spec fn font_pack_step(st: FontPacking, g: GlyphView) -> FontPacking {
    if st.stopped {
        st
    } else {
        let st1 = if g.id != st.last_id.wrapping_add(1) {
            if st.lib.len() + 4 + st.idx.len() + st.data.len() > FONT_BODY_MAX {
                FontPacking { stopped: true, ..st }
            } else {
                FontPacking {
                    lib: closed_packs(st),
                    cnt: st.cnt.wrapping_add(1),
                    pack_id: g.id,
                    pack_len: 0,
                    pack_size: 0,
                    idx: Seq::empty(),
                    data: Seq::empty(),
                    ..st
                }
            }
        } else {
            st
        };
        if st1.stopped {
            st1
        } else if g.img.len() > 0x10000 || st1.idx.len() + st1.data.len() + 6 + g.img.len() > FONT_BODY_MAX {
            FontPacking { stopped: true, ..st1 }
        } else {
            let ps = st1.pack_size.wrapping_add((4 + g.img.len()) as usize);
            FontPacking {
                pack_size: ps,
                idx: st1.idx + le_bytes(ps as u16),
                data: st1.data + seq![g.width, g.height, g.left as u8, g.top as u8] + g.img,
                pack_len: st1.pack_len.wrapping_add(1),
                last_id: g.id,
                ..st1
            }
        }
    }
}

/// The packing after the first `n` glyphs, the first pack starting at the
/// code of the first glyph.
pub open spec fn font_pack_run(glyphs: Seq<GlyphView>, n: nat) -> FontPacking
    decreases n,
{
    if n == 0 {
        FontPacking {
            lib: Seq::empty(),
            cnt: 0,
            last_id: glyphs[0].id.wrapping_sub(1),
            pack_id: glyphs[0].id,
            pack_len: 0,
            pack_size: 0,
            idx: Seq::empty(),
            data: Seq::empty(),
            stopped: false,
        }
    } else {
        font_pack_step(font_pack_run(glyphs, (n - 1) as nat), glyphs[n - 1])
    }
}

/// The packs of the glyphs `glyphs` and their count: the open pack closed
/// at the end where it holds glyphs and fits.
pub open spec fn font_packs_of(glyphs: Seq<GlyphView>) -> (Seq<u8>, u8) {
    if glyphs.len() == 0 {
        (Seq::empty(), 0)
    } else {
        let st = font_pack_run(glyphs, glyphs.len());
        if st.pack_len > 0 && st.lib.len() + 4 + st.idx.len() + st.data.len() <= FONT_BODY_MAX {
            (closed_packs(st), st.cnt.wrapping_add(1))
        } else {
            (st.lib, st.cnt)
        }
    }
}

/// The body of a font entry: pack count, mono width, base and full height,
/// then the packs of `glyphs`.
pub open spec fn font_payload(mono_width: u8, base_height: u8, full_height: u8, glyphs: Seq<GlyphView>) -> Seq<u8> {
    let (lib, cnt) = font_packs_of(glyphs);
    seq![cnt, mono_width, base_height, full_height] + lib
}

/// Once the packing stops, later glyphs change nothing.
proof fn lemma_font_pack_stopped(glyphs: Seq<GlyphView>, i: nat, j: nat)
    requires
        i <= j,
        font_pack_run(glyphs, i).stopped,
    ensures
        font_pack_run(glyphs, j) == font_pack_run(glyphs, i),
    decreases j - i,
{
    if i < j {
        lemma_font_pack_stopped(glyphs, i, (j - 1) as nat);
    }
}

/// What the packs of a glyph list hold stays within the body limit.
proof fn lemma_font_pack_bounds(glyphs: Seq<GlyphView>, n: nat)
    requires
        glyphs.len() > 0,
    ensures
        font_pack_run(glyphs, n).lib.len() <= FONT_BODY_MAX,
        font_pack_run(glyphs, n).idx.len() + font_pack_run(glyphs, n).data.len() <= FONT_BODY_MAX,
    decreases n,
{
    if n > 0 {
        lemma_font_pack_bounds(glyphs, (n - 1) as nat);
    }
}

/// The entry that importing a sheet of `width` x `height` RGBA pixels as
/// font `index` under `name` writes (see `sheet_scan`): none for a sheet
/// without glyphs, an empty font without a name for an empty sheet; else
/// the glyphs sorted by code, their offsets relative to the smallest ones,
/// with the widest crop as mono width, the tallest as full height, and as
/// base height that of the last of `A`, `W`, `0`, `!` (else the first glyph).
pub open spec fn sheet_font_entry(index: u8, name: Seq<u8>, pixels: Seq<u8>, width: u32, height: u32) -> Seq<u8> {
    let w: usize = if width > 0x00ff_ffff { 0x00ff_ffff } else { width as usize };
    let h: usize = if height > 0x00ff_ffff { 0x00ff_ffff } else { height as usize };
    let sc = sheet_scan(pixels, w, h);
    if sc.glyphs.len() == 0 {
        if width > 0 || height > 0 { Seq::empty() } else { entry_one(index, Seq::empty(), seq![0u8, 0u8, 0u8, 0u8]) }
    } else {
        let sorted = sorted_glyphs(sc.glyphs, sc.min_x, sc.min_y, sc.glyphs.len());
        let base = match base_search(sorted, sorted.len()) {
            Some(b) => b,
            None => sorted[0].height,
        };
        entry_one(
            index,
            name,
            font_payload(
                sc.max_x.wrapping_sub(sc.min_x).wrapping_add(1) as u8,
                base,
                sc.max_y.wrapping_sub(sc.min_y).wrapping_add(1) as u8,
                sorted,
            ),
        )
    }
}

/// Inserts `g` into `glyphs` behind the glyphs whose code is not larger.
fn insert_sorted(glyphs: &mut Vec<Glyph>, g: Glyph)
    ensures
        final(glyphs)@.len() == old(glyphs)@.len() + 1,
        glyph_views(final(glyphs)@) == glyph_views(old(glyphs)@).insert(
            insert_pos(glyph_views(old(glyphs)@), g.id, 0) as int,
            glyph_view(g),
        ),
{
    let ghost gv = glyph_views(glyphs@);
    let mut pos: usize = 0;
    while pos < glyphs.len() && glyphs[pos].id <= g.id
        invariant
            pos <= glyphs@.len(),
            gv == glyph_views(glyphs@),
            glyphs@ == old(glyphs)@,
            insert_pos(gv, g.id, pos as nat) == insert_pos(gv, g.id, 0),
        decreases glyphs@.len() - pos,
    {
        assert(gv[pos as int].id == glyphs@[pos as int].id);
        pos += 1;
    }
    proof {
        if pos < glyphs@.len() {
            assert(gv[pos as int].id == glyphs@[pos as int].id);
        }
    }
    glyphs.insert(pos, g);
    assert(glyph_views(glyphs@) =~= gv.insert(pos as int, glyph_view(g)));
}

impl Media {
    /// Appends the font entry `index` named `id` to `dest`: the font header
    /// (pack count, mono width, base and full height), then the glyphs in
    /// packs of consecutive codes, each pack a code range, a directory of
    /// glyph ends and the glyphs (size, offsets, pixel stream).
    pub fn insert_font(dest: &mut bytes::BytesMut, index: u8, id: &str, mono_width: u8, base_height: u8, full_height: u8, glyphs: Vec<Glyph>)
        requires
            bytes_contents(*old(dest)).len() + id.spec_bytes().len() + FONT_BODY_MAX + 8 <= LIB_LEN_MAX,
        ensures
            bytes_contents(*final(dest)) == bytes_contents(*old(dest))
                + entry_one(index, id.spec_bytes(), font_payload(mono_width, base_height, full_height, glyph_views(glyphs@))),
            font_payload(mono_width, base_height, full_height, glyph_views(glyphs@)).len() <= FONT_BODY_MAX + 4,
    {
        let mut lib = bytes_new();
        let mut pack_cnt: u8 = 0;
        if glyphs.len() > 0 {
            let mut last_id: u32 = glyphs[0].id.wrapping_sub(1);
            let mut pack_id: u32 = glyphs[0].id;
            let mut pack_len: u32 = 0;
            let mut pack_size: usize = 0;
            let mut indexes = bytes_new();
            let mut data = bytes_new();
            let mut k: usize = 0;
            while k < glyphs.len()
                invariant_except_break
                    font_pack_run(glyph_views(glyphs@), k as nat) == (FontPacking {
                        lib: bytes_contents(lib),
                        cnt: pack_cnt,
                        last_id,
                        pack_id,
                        pack_len,
                        pack_size,
                        idx: bytes_contents(indexes),
                        data: bytes_contents(data),
                        stopped: false,
                    }),
                invariant
                    glyphs@.len() > 0,
                    k <= glyphs@.len(),
                    bytes_contents(lib).len() <= FONT_BODY_MAX,
                    bytes_contents(indexes).len() + bytes_contents(data).len() <= FONT_BODY_MAX,
                ensures
                    bytes_contents(lib).len() <= FONT_BODY_MAX,
                    bytes_contents(indexes).len() + bytes_contents(data).len() <= FONT_BODY_MAX,
                    font_pack_run(glyph_views(glyphs@), glyphs@.len()) == (FontPacking {
                        lib: bytes_contents(lib),
                        cnt: pack_cnt,
                        last_id,
                        pack_id,
                        pack_len,
                        pack_size,
                        idx: bytes_contents(indexes),
                        data: bytes_contents(data),
                        stopped: font_pack_run(glyph_views(glyphs@), glyphs@.len()).stopped,
                    }),
                decreases glyphs@.len() - k,
            {
                let glyph = &glyphs[k];
                let ghost st0 = font_pack_run(glyph_views(glyphs@), k as nat);
                assert(font_pack_run(glyph_views(glyphs@), (k + 1) as nat) == font_pack_step(st0, glyph_views(glyphs@)[k as int]));
                if glyph.id != last_id.wrapping_add(1) {
                    let iv = bytes_to_vec(&indexes);
                    let dv = bytes_to_vec(&data);
                    if bytes_len(&lib) + 4 + iv.len() + dv.len() > FONT_BODY_MAX {
                        proof {
                            lemma_font_pack_stopped(glyph_views(glyphs@), (k + 1) as nat, glyphs@.len());
                        }
                        break;
                    }
                    bytes_put_u8(&mut lib, pack_id as u8);
                    bytes_put_u8(&mut lib, pack_id.wrapping_add(pack_len).wrapping_sub(1) as u8);
                    bytes_put_u16_le(&mut lib, (iv.len() + dv.len()) as u16);
                    bytes_put_slice(&mut lib, iv.as_slice());
                    bytes_put_slice(&mut lib, dv.as_slice());
                    assert(bytes_contents(lib) =~= closed_packs(st0));
                    pack_id = glyph.id;
                    pack_len = 0;
                    pack_size = 0;
                    pack_cnt = pack_cnt.wrapping_add(1);
                    indexes = bytes_new();
                    data = bytes_new();
                }
                let ghost st1 = FontPacking {
                    lib: bytes_contents(lib),
                    cnt: pack_cnt,
                    last_id,
                    pack_id,
                    pack_len,
                    pack_size,
                    idx: bytes_contents(indexes),
                    data: bytes_contents(data),
                    stopped: false,
                };
                if glyph.img.len() > 0x10000 || bytes_len(&indexes) + bytes_len(&data) + 6 + glyph.img.len() > FONT_BODY_MAX {
                    proof {
                        lemma_font_pack_stopped(glyph_views(glyphs@), (k + 1) as nat, glyphs@.len());
                    }
                    break;
                }
                pack_size = pack_size.wrapping_add(4 + glyph.img.len());
                bytes_put_u16_le(&mut indexes, pack_size as u16);
                bytes_put_u8(&mut data, glyph.width);
                bytes_put_u8(&mut data, glyph.height);
                bytes_put_u8(&mut data, glyph.left as u8);
                bytes_put_u8(&mut data, glyph.top as u8);
                bytes_put_slice(&mut data, glyph.img.as_slice());
                pack_len = pack_len.wrapping_add(1);
                last_id = glyph.id;
                assert(bytes_contents(data) =~= st1.data + seq![glyph.width, glyph.height, glyph.left as u8, glyph.top as u8] + glyph.img@);
                assert(glyph_views(glyphs@)[k as int] == glyph_view(glyphs@[k as int]));
                k += 1;
            }
            if pack_len > 0 {
                let iv = bytes_to_vec(&indexes);
                let dv = bytes_to_vec(&data);
                if bytes_len(&lib) + 4 + iv.len() + dv.len() <= FONT_BODY_MAX {
                    bytes_put_u8(&mut lib, pack_id as u8);
                    bytes_put_u8(&mut lib, pack_id.wrapping_add(pack_len).wrapping_sub(1) as u8);
                    bytes_put_u16_le(&mut lib, (iv.len() + dv.len()) as u16);
                    bytes_put_slice(&mut lib, iv.as_slice());
                    bytes_put_slice(&mut lib, dv.as_slice());
                    pack_cnt = pack_cnt.wrapping_add(1);
                    assert(bytes_contents(lib) =~= closed_packs(font_pack_run(glyph_views(glyphs@), glyphs@.len())));
                }
            }
        }
        let lv = bytes_to_vec(&lib);
        assert((lv@, pack_cnt) == font_packs_of(glyph_views(glyphs@)));
        let mut body = bytes_new();
        bytes_put_u8(&mut body, pack_cnt);
        bytes_put_u8(&mut body, mono_width);
        bytes_put_u8(&mut body, base_height);
        bytes_put_u8(&mut body, full_height);
        bytes_put_slice(&mut body, lv.as_slice());
        let payload = bytes_to_vec(&body);
        assert(payload@ =~= font_payload(mono_width, base_height, full_height, glyph_views(glyphs@)));
        put_entry_one(dest, index, id.as_bytes(), payload.as_slice());
    }

    /// Starts the font library of imports afresh, where it was started.
    pub fn clear_font(&mut self)
        requires
            old(self).wf(),
        ensures
            final(self).wf(),
            final(self).libs() == old(self).libs(),
            old(self).import_fonts.is_some() ==> (final(self).import_fonts matches Some(v) && v@ == seq![255u8]),
            old(self).import_fonts.is_none() ==> final(self).import_fonts.is_none(),
            final(self).import_images == old(self).import_images,
            final(self).import_borders == old(self).import_borders,
            final(self).import_pages == old(self).import_pages,
            final(self).import_programs == old(self).import_programs,
            final(self).drawing == old(self).drawing,
            final(self).typesetting == old(self).typesetting,
    {
        if self.import_fonts.is_some() {
            let v: Vec<u8> = vec![255u8];
            assert(v@ =~= seq![255u8]);
            self.import_fonts = Some(v);
        }
    }

    /// Drops the imported font `index`: an empty font takes its place.
    pub fn remove_font(&mut self, index: u8)
        requires
            old(self).wf(),
            import_lib(old(self).import_fonts).len() + FONT_BODY_MAX + 16 <= LIB_LEN_MAX,
        ensures
            final(self).wf(),
            final(self).import_fonts matches Some(v)
                && v@ == replaced_lib(import_lib(old(self).import_fonts), index, false, entry_one(index, Seq::empty(), seq![0u8, 0u8, 0u8, 0u8])),            final(self).libs().fonts == old(self).libs().fonts.update(2, final(self).import_fonts->0@),
            final(self).libs().images == old(self).libs().images,
            final(self).libs().borders == old(self).libs().borders,
            final(self).libs().pages == old(self).libs().pages,
            final(self).libs().programs == old(self).libs().programs,
            final(self).import_images == old(self).import_images,
            final(self).import_borders == old(self).import_borders,
            final(self).import_pages == old(self).import_pages,
            final(self).import_programs == old(self).import_programs,
            final(self).drawing == old(self).drawing,
            final(self).typesetting == old(self).typesetting,
    {
        proof {
            reveal_strlit("");
        }
        self.import_font(index, "", &[], 0, 0);
    }

    /// Reads a font from a glyph sheet of `width` x `height` RGBA pixels: red
    /// marks in the top row give the glyph columns, in the left column the
    /// glyph rows, blue ones the rows of code pixels (the blue pixels of a
    /// cell, read as bits, give its character code); the white pixels of a
    /// cell, cropped, give the glyph. The font replaces the imported font
    /// `index` and the library of imports becomes the third source of fonts;
    /// a sheet without glyphs adds nothing, an empty one an empty font.
    pub fn import_font(&mut self, index: u8, name: &str, pixels: &[u8], width: u32, height: u32)
        requires
            old(self).wf(),
            import_lib(old(self).import_fonts).len() + name.spec_bytes().len() + FONT_BODY_MAX + 16 <= LIB_LEN_MAX,
        ensures
            final(self).wf(),
            final(self).import_fonts matches Some(v) && v@ == replaced_lib(
                import_lib(old(self).import_fonts),
                index,
                false,
                sheet_font_entry(index, name.spec_bytes(), pixels@, width, height),
            ),
            width == 0 && height == 0 ==> (final(self).import_fonts matches Some(v)
                && v@ == replaced_lib(import_lib(old(self).import_fonts), index, false, entry_one(index, Seq::empty(), seq![0u8, 0u8, 0u8, 0u8]))),
            final(self).libs().fonts == old(self).libs().fonts.update(2, final(self).import_fonts->0@),
            final(self).libs().images == old(self).libs().images,
            final(self).libs().borders == old(self).libs().borders,
            final(self).libs().pages == old(self).libs().pages,
            final(self).libs().programs == old(self).libs().programs,
            final(self).import_images == old(self).import_images,
            final(self).import_borders == old(self).import_borders,
            final(self).import_pages == old(self).import_pages,
            final(self).import_programs == old(self).import_programs,
            final(self).drawing == old(self).drawing,
            final(self).typesetting == old(self).typesetting,
    {
        let w: usize = if width > 0x00ff_ffff { 0x00ff_ffff } else { width as usize };
        let h: usize = if height > 0x00ff_ffff { 0x00ff_ffff } else { height as usize };
        let (cols_x, cols_l) = marker_runs(pixels, w, w, true, (0xff, 0, 0));
        let (ids_y, ids_l) = marker_runs(pixels, w, h, false, (0, 0, 0xff));
        let (rows_y, rows_l) = marker_runs(pixels, w, h, false, (0xff, 0, 0));
        let ghost cols = (cols_x@, cols_l@);
        let ghost ids = (ids_y@, ids_l@);
        let ghost rows = (rows_y@, rows_l@);
        assert(cols == sheet_cols(pixels@, w));
        assert(ids == sheet_ids(pixels@, w, h));
        assert(rows == sheet_rows(pixels@, w, h));
        let mut glyphs: Vec<Glyph> = Vec::new();
        let mut min_x: usize = usize::MAX;
        let mut max_x: usize = 0;
        let mut min_y: usize = usize::MAX;
        let mut max_y: usize = 0;
        assert(glyph_views(glyphs@) =~= Seq::<GlyphView>::empty());
        let mut row: usize = 0;
        while row < ids_y.len() && row < rows_y.len()
            invariant
                ids_y@.len() == ids_l@.len(),
                rows_y@.len() == rows_l@.len(),
                cols_x@.len() == cols_l@.len(),
                cols == (cols_x@, cols_l@),
                ids == (ids_y@, ids_l@),
                rows == (rows_y@, rows_l@),
                row <= ids_y@.len(),
                row <= rows_y@.len(),
                forall|k: int| 0 <= k < ids_y@.len() ==> ids_y@[k] + ids_l@[k] <= h,
                forall|k: int| 0 <= k < rows_y@.len() ==> rows_y@[k] + rows_l@[k] <= h,
                forall|k: int| 0 <= k < cols_x@.len() ==> cols_x@[k] + cols_l@[k] <= w && cols_l@[k] > 0,
                w <= 0x00ff_ffff,
                h <= 0x00ff_ffff,
                (SheetScan { glyphs: glyph_views(glyphs@), min_x, max_x, min_y, max_y })
                    == scan_rows(pixels@, w, cols, ids, rows, row as nat),
            decreases ids_y@.len() - row,
        {
            let ghost st_row = scan_rows(pixels@, w, cols, ids, rows, row as nat);
            let mut col: usize = 0;
            while col < cols_x.len()
                invariant
                    row < ids_y@.len(),
                    row < rows_y@.len(),
                    ids_y@.len() == ids_l@.len(),
                    rows_y@.len() == rows_l@.len(),
                    cols_x@.len() == cols_l@.len(),
                    cols == (cols_x@, cols_l@),
                    col <= cols_x@.len(),
                    forall|k: int| 0 <= k < ids_y@.len() ==> ids_y@[k] + ids_l@[k] <= h,
                    forall|k: int| 0 <= k < rows_y@.len() ==> rows_y@[k] + rows_l@[k] <= h,
                    forall|k: int| 0 <= k < cols_x@.len() ==> cols_x@[k] + cols_l@[k] <= w && cols_l@[k] > 0,
                    w <= 0x00ff_ffff,
                    h <= 0x00ff_ffff,
                    (SheetScan { glyphs: glyph_views(glyphs@), min_x, max_x, min_y, max_y })
                        == scan_row(pixels@, w, cols, ids_y@[row as int], ids_l@[row as int], rows_y@[row as int],
                            rows_l@[row as int], col as nat, st_row),
                decreases cols_x@.len() - col,
            {
                let cx = cols_x[col];
                let cl = cols_l[col];
                let g_id = cell_code(pixels, w, cx, cl, ids_y[row], ids_l[row]);
                if g_id > 0 {
                    let x_o = cx;
                    let y_o = rows_y[row];
                    let rl = rows_l[row];
                    let (x_0, x_1, y_0, y_1) = crop_cell(pixels, w, cx, cl, y_o, rl);
                    let g_w = x_1 - x_0;
                    let g_h = y_1 - y_0;
                    if x_0 - x_o != cl && g_w < 256 && g_h < 256 {
                        if x_0 - x_o < min_x {
                            min_x = x_0 - x_o;
                        }
                        if x_1 - x_o > max_x {
                            max_x = x_1 - x_o;
                        }
                        if y_0 - y_o < min_y {
                            min_y = y_0 - y_o;
                        }
                        if y_1 - y_o > max_y {
                            max_y = y_1 - y_o;
                        }
                        assert((g_w + 1) * (g_h + 1) <= 256 * 256) by (nonlinear_arith)
                            requires
                                g_w < 256,
                                g_h < 256,
                        ;
                        let img = glyph_stream(pixels, w, x_0, y_0, x_1, y_1);
                        let ghost before = glyphs@;
                        glyphs.push(Glyph {
                            id: g_id,
                            width: (g_w as u8).wrapping_add(1),
                            height: (g_h as u8).wrapping_add(1),
                            top: (y_0 - y_o) as i8,
                            left: (x_0 - x_o) as i8,
                            img,
                        });
                        assert(glyph_views(glyphs@) =~= glyph_views(before).push(glyph_view(glyphs@[glyphs@.len() - 1])));
                    }
                }
                col += 1;
            }
            row += 1;
        }
        assert((SheetScan { glyphs: glyph_views(glyphs@), min_x, max_x, min_y, max_y }) == sheet_scan(pixels@, w, h));
        let lib = import_lib_bytes(&self.import_fonts);
        let mut entry = bytes_new();
        if glyphs.len() == 0 {
            if width > 0 || height > 0 {
                assert(bytes_contents(entry) =~= sheet_font_entry(index, name.spec_bytes(), pixels@, width, height));
            } else {
                proof {
                    reveal_strlit("");
                    assert(""@ =~= Seq::<char>::empty());
                }
                Media::insert_font(&mut entry, index, "", 0, 0, 0, Vec::new());
                assert(glyph_views(Seq::<Glyph>::empty()) =~= Seq::<GlyphView>::empty());
                assert(font_payload(0, 0, 0, Seq::<GlyphView>::empty()) =~= seq![0u8, 0u8, 0u8, 0u8]);
                assert(bytes_contents(entry) =~= sheet_font_entry(index, name.spec_bytes(), pixels@, width, height));
            }
        } else {
            let ghost orig = glyph_views(glyphs@);
            let ghost n0 = glyphs@.len();
            let mut sorted: Vec<Glyph> = Vec::new();
            assert(glyph_views(sorted@) =~= Seq::<GlyphView>::empty());
            assert(glyph_views(glyphs@) =~= orig.subrange(0, n0 as int));
            while glyphs.len() > 0
                invariant
                    glyphs@.len() <= n0,
                    orig.len() == n0,
                    glyph_views(glyphs@) == orig.subrange(n0 - glyphs@.len(), n0 as int),
                    glyph_views(sorted@) == sorted_glyphs(orig, min_x, min_y, (n0 - glyphs@.len()) as nat),
                decreases glyphs@.len(),
            {
                let ghost before = glyphs@;
                let ghost c = n0 - before.len();
                let mut g = glyphs.remove(0);
                assert(orig[c] == glyph_views(before)[0]);
                g.top = g.top.wrapping_sub(min_y as i8);
                g.left = g.left.wrapping_sub(min_x as i8);
                assert(glyph_view(g) == shift_glyph(orig[c], min_x, min_y));
                assert forall|j: int| 0 <= j < glyphs@.len() implies #[trigger] glyph_views(glyphs@)[j]
                    == orig.subrange(n0 - glyphs@.len(), n0 as int)[j] by {
                    assert(glyphs@[j] == before[j + 1]);
                    assert(glyph_views(before)[j + 1] == orig.subrange(c, n0 as int)[j + 1]);
                }
                assert(glyph_views(glyphs@) =~= orig.subrange(n0 - glyphs@.len(), n0 as int));
                insert_sorted(&mut sorted, g);
            }
            let ghost sv = glyph_views(sorted@);
            let mut base_height: Option<u8> = None;
            let mut first_height: u8 = 0;
            let mut k: usize = 0;
            while k < sorted.len()
                invariant
                    k <= sorted@.len(),
                    sv == glyph_views(sorted@),
                    base_height == base_search(sv, k as nat),
                    k > 0 ==> first_height == sv[0].height,
                decreases sorted@.len() - k,
            {
                let id = sorted[k].id;
                if id == 65 || id == 87 || id == 48 || id == 33 {
                    base_height = Some(sorted[k].height);
                }
                if k == 0 {
                    first_height = sorted[k].height;
                }
                k += 1;
            }
            let base = match base_height {
                Some(b) => b,
                None => first_height,
            };
            let mono_width = max_x.wrapping_sub(min_x).wrapping_add(1);
            let full_height = max_y.wrapping_sub(min_y).wrapping_add(1);
            Media::insert_font(&mut entry, index, name, mono_width as u8, base, full_height as u8, sorted);
            assert(bytes_contents(entry) =~= sheet_font_entry(index, name.spec_bytes(), pixels@, width, height));
        }
        let entry = bytes_to_vec(&entry);
        let lib2 = rebuild_lib(lib.as_slice(), index, false, entry.as_slice());
        self.fonts.set(2, Library { data: super::copy_all(lib2.as_slice()) });
        self.import_fonts = Some(lib2);
        proof {
            assert(self.libs().fonts =~= old(self).libs().fonts.update(2, self.import_fonts->0@));
        }
    }
}

} // verus!
