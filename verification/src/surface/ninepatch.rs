use vstd::prelude::*;
use crate::{i16_saturating_add, i16_saturating_sub, sat_i16, Area, BorderIdx, Point, BORDER_RECT};
use crate::media::{IdentView, Identifier};
use crate::media::border::{patch_of, PatchView};
use crate::stream::{bit_reset, bit_step, bit_step_defined, BinaryStream, BitState};
use super::{plot_pixel, rect_spec, Surface};
use super::font::{canvas_of, Canvas};
use super::image::reader_start;

verus! {

/// The smaller of two positions.
fn min_pos(a: i16, b: i16) -> (r: i16)
    ensures
        r == if a <= b { a } else { b },
{
    if a <= b { a } else { b }
}

/// The next bit of a stream and the reader after it; 0 and the reader
/// unchanged where the stream holds no further bit.
pub open spec fn next_bit_spec(data: Seq<u8>, bs: BitState) -> (BitState, u8) {
    if bit_step_defined(data, bs) { bit_step(data, bs) } else { (bs, 0) }
}

/// The next bit of `reader`, or 0 where its stream holds no further bit.
fn next_bit(reader: &mut BinaryStream) -> (r: u8)
    ensures
        final(reader).data_view() == old(reader).data_view(),
        (final(reader).state(), r) == next_bit_spec(old(reader).data_view(), old(reader).state()),
{
    if reader.can_read_bit() {
        reader.read_bit()
    } else {
        0
    }
}

/// Drawing `count` bits of a stream as pixels (the bit is the color) from
/// `pos`, stepping by `dx`, `dy` (saturating) after each: the reader and the
/// pixels after it.
pub open spec fn patch_run(cv: Canvas, data: Seq<u8>, bs: BitState, fb: Seq<u8>, pos: Point, count: nat, dx: i16, dy: i16) -> (BitState, Seq<u8>)
    decreases count,
{
    if count == 0 {
        (bs, fb)
    } else {
        let (bs2, pixel) = next_bit_spec(data, bs);
        let fb2 = plot_pixel(fb, cv.width as int, cv.clip, pos.x as int, pos.y as int, pixel);
        patch_run(cv, data, bs2, fb2, Point { x: sat_i16(pos.x + dx), y: sat_i16(pos.y + dy) }, (count - 1) as nat, dx, dy)
    }
}

/// The north and south bands repeated along x from column `x`, column `p`
/// of `span`: each column draws the north band down from row `ny` and the
/// south band up from row `sy`; both streams start over after `x_w`
/// columns.
pub open spec fn x_edges(cv: Canvas, np: PatchView, ny: i16, sy: i16, bsn: BitState, bss: BitState, fb: Seq<u8>, x: i16, p: int, span: int) -> Seq<u8>
    decreases span - p,
{
    if p >= span {
        fb
    } else {
        let (bsn2, fb1) = patch_run(cv, np.data[0], bsn, fb, Point { x: x, y: ny }, np.n_h as nat, 0i16, 1i16);
        let (bss2, fb2) = patch_run(cv, np.data[4], bss, fb1, Point { x: x, y: sy }, np.s_h as nat, 0i16, -1i16);
        let wrap = p % (np.x_w as int) == np.x_w - 1;
        x_edges(
            cv,
            np,
            ny,
            sy,
            if wrap { bit_reset(np.data[0], bsn2) } else { bsn2 },
            if wrap { bit_reset(np.data[4], bss2) } else { bss2 },
            fb2,
            sat_i16(x + 1),
            p + 1,
            span,
        )
    }
}

/// The west and east bands repeated along y from row `y`, row `p` of
/// `span`: each row draws the west band right from column `wx` and the east
/// band left from column `ex`; both streams start over after `y_h` rows.
pub open spec fn y_edges(cv: Canvas, np: PatchView, wx: i16, ex: i16, bsw: BitState, bse: BitState, fb: Seq<u8>, y: i16, p: int, span: int) -> Seq<u8>
    decreases span - p,
{
    if p >= span {
        fb
    } else {
        let (bsw2, fb1) = patch_run(cv, np.data[6], bsw, fb, Point { x: wx, y: y }, np.w_w as nat, 1i16, 0i16);
        let (bse2, fb2) = patch_run(cv, np.data[2], bse, fb1, Point { x: ex, y: y }, np.e_w as nat, -1i16, 0i16);
        let wrap = p % (np.y_h as int) == np.y_h - 1;
        y_edges(
            cv,
            np,
            wx,
            ex,
            if wrap { bit_reset(np.data[6], bsw2) } else { bsw2 },
            if wrap { bit_reset(np.data[2], bse2) } else { bse2 },
            fb2,
            sat_i16(y + 1),
            p + 1,
            span,
        )
    }
}

/// The remaining `k` rows of a corner piece of `width` pixels from column
/// `x`, row `y`: rows run by `dx`, the next row is `dy` further.
pub open spec fn corner_rows(cv: Canvas, data: Seq<u8>, bs: BitState, fb: Seq<u8>, x: i16, y: i16, width: u8, k: nat, dx: i16, dy: i16) -> Seq<u8>
    decreases k,
{
    if k == 0 {
        fb
    } else {
        let (bs2, fb2) = patch_run(cv, data, bs, fb, Point { x: x, y: y }, width as nat, dx, 0i16);
        corner_rows(cv, data, bs2, fb2, x, sat_i16(y + dy), width, (k - 1) as nat, dx, dy)
    }
}

/// A size as a position, at most `i16::MAX`.
pub open spec fn size_pos(v: u16) -> i16 {
    if v > 32767 { 32767 } else { v as i16 }
}

/// The pixels after drawing the nine patch border `np` around `target`:
/// the north and south bands repeated along x between the corners, the west
/// and east bands along y, then the four corners.
pub open spec fn ninepatch_fb(cv: Canvas, np: PatchView, target: Area, fb: Seq<u8>) -> Seq<u8> {
    if np.data.len() < 8 {
        fb
    } else {
        let nw = target.point;
        let se = Point {
            x: sat_i16(target.point.x + size_pos(target.size.width)),
            y: sat_i16(target.point.y + size_pos(target.size.height)),
        };
        let nwx = sat_i16(target.point.x + (np.w_w as i16));
        let nwy = sat_i16(target.point.y + (np.n_h as i16));
        let nw_in = Point { x: if se.x <= nwx { se.x } else { nwx }, y: if se.y <= nwy { se.y } else { nwy } };
        let se_in = Point { x: sat_i16(se.x - (np.e_w as i16)), y: sat_i16(se.y - (np.s_h as i16)) };
        let fb1 = if np.x_w > 0 {
            x_edges(
                cv,
                np,
                nw.y,
                sat_i16(se.y - 1),
                reader_start(np.data[0]),
                reader_start(np.data[4]),
                fb,
                nw_in.x,
                0,
                sat_i16(se_in.x - nw_in.x) as int,
            )
        } else {
            fb
        };
        let fb2 = if np.y_h > 0 {
            y_edges(
                cv,
                np,
                nw.x,
                sat_i16(se.x - 1),
                reader_start(np.data[6]),
                reader_start(np.data[2]),
                fb1,
                nw_in.y,
                0,
                sat_i16(se_in.y - nw_in.y) as int,
            )
        } else {
            fb1
        };
        let east = sat_i16(se.x - 1);
        let south = sat_i16(se.y - 1);
        let fb3 = corner_rows(cv, np.data[7], reader_start(np.data[7]), fb2, nw.x, nw.y, np.w_w, np.n_h as nat, 1i16, 1i16);
        let fb4 = corner_rows(cv, np.data[1], reader_start(np.data[1]), fb3, east, nw.y, np.e_w, np.n_h as nat, -1i16, 1i16);
        let fb5 = corner_rows(cv, np.data[5], reader_start(np.data[5]), fb4, nw.x, south, np.w_w, np.s_h as nat, 1i16, -1i16);
        corner_rows(cv, np.data[3], reader_start(np.data[3]), fb5, east, south, np.e_w, np.s_h as nat, -1i16, -1i16)
    }
}

impl Surface {
    /// Draws the border of style `border_idx` around `target`: a one pixel
    /// rectangle for the plain style, a nine patch border of the media for
    /// the styles below it, nothing for the others.
    pub fn draw_border(&mut self, border_idx: BorderIdx, target: Area)
        requires
            old(self).wf(),
        ensures
            final(self).same_but_pixels(old(self)),
            border_idx == BORDER_RECT ==> final(self).fb() == rect_spec(
                old(self).fb(),
                old(self).width,
                old(self).height,
                old(self).clip,
                target,
                old(self).palette@[1],
            ),
            border_idx < BORDER_RECT ==> final(self).fb() == ninepatch_fb(
                canvas_of(*old(self)),
                patch_of(old(self).media.libs().borders, IdentView::Index(border_idx)),
                target,
                old(self).fb(),
            ),
            border_idx > BORDER_RECT ==> final(self).fb() == old(self).fb(),
    {
        if border_idx == BORDER_RECT {
            let c = self.get_color(1);
            self.draw_rect(target, c);
        } else if border_idx < BORDER_RECT {
            self.draw_ninepatch(Identifier::Index(border_idx), target);
        }
    }

    /// Draws `count` pixels of `reader` from `start`, stepping by `dx`, `dy`
    /// (saturating) after each pixel (see `patch_run`).
    fn draw_patch_run(&mut self, reader: &mut BinaryStream, start: Point, count: u8, dx: i16, dy: i16)
        ensures
            final(self).same_but_pixels(old(self)),
            final(reader).data_view() == old(reader).data_view(),
            (final(reader).state(), final(self).fb()) == patch_run(
                canvas_of(*old(self)),
                old(reader).data_view(),
                old(reader).state(),
                old(self).fb(),
                start,
                count as nat,
                dx,
                dy,
            ),
    {
        let ghost cv = canvas_of(*self);
        let ghost target = patch_run(cv, reader.data_view(), reader.state(), self.fb(), start, count as nat, dx, dy);
        let mut pos = start;
        let mut k: u8 = 0;
        while k < count
            invariant
                self.same_but_pixels(old(self)),
                reader.data_view() == old(reader).data_view(),
                cv == canvas_of(*old(self)),
                k <= count,
                target == patch_run(cv, old(reader).data_view(), old(reader).state(), old(self).fb(), start, count as nat, dx, dy),
                patch_run(cv, reader.data_view(), reader.state(), self.fb(), pos, (count - k) as nat, dx, dy) == target,
            decreases count - k,
        {
            let pixel = next_bit(reader);
            self.draw_pixel(pos, pixel);
            pos = Point { x: i16_saturating_add(pos.x, dx), y: i16_saturating_add(pos.y, dy) };
            k += 1;
        }
    }

    /// Draws a nine patch border from the media around `target` (see
    /// `ninepatch_fb`).
    #[verifier::spinoff_prover]
    #[verifier::rlimit(40)]
    pub fn draw_ninepatch(&mut self, ident: Identifier, target: Area)
        requires
            old(self).wf(),
        ensures
            final(self).same_but_pixels(old(self)),
            final(self).fb() == ninepatch_fb(
                canvas_of(*old(self)),
                patch_of(old(self).media.libs().borders, ident@),
                target,
                old(self).fb(),
            ),
    {
        let ghost cv = canvas_of(*self);
        let ninepatch = self.media.get_border(ident);
        let ghost np = patch_of(self.media.libs().borders, ident@);
        if ninepatch.data.len() < 8 {
            return;
        }
        let tw = target.size.width as i32;
        let th = target.size.height as i32;
        let tw16: i16 = if tw > 32767 { 32767 } else { tw as i16 };
        let th16: i16 = if th > 32767 { 32767 } else { th as i16 };
        let nw_outer = target.point;
        let se_outer = Point {
            x: i16_saturating_add(target.point.x, tw16),
            y: i16_saturating_add(target.point.y, th16),
        };
        let nw_inner = Point {
            x: min_pos(se_outer.x, i16_saturating_add(target.point.x, ninepatch.w_w as i16)),
            y: min_pos(se_outer.y, i16_saturating_add(target.point.y, ninepatch.n_h as i16)),
        };
        let se_inner = Point {
            x: i16_saturating_sub(se_outer.x, ninepatch.e_w as i16),
            y: i16_saturating_sub(se_outer.y, ninepatch.s_h as i16),
        };
        if ninepatch.x_w > 0 {
            let mut reader_n = BinaryStream::new(ninepatch.data[0].as_slice());
            let mut reader_s = BinaryStream::new(ninepatch.data[4].as_slice());
            let span: i16 = i16_saturating_sub(se_inner.x, nw_inner.x);
            let south = i16_saturating_sub(se_outer.y, 1);
            let ghost fb0 = self.fb();
            let ghost goal = x_edges(cv, np, nw_outer.y, south, reader_n.state(), reader_s.state(), fb0, nw_inner.x, 0, span as int);
            let mut x: i16 = nw_inner.x;
            let mut p_x: i16 = 0;
            while p_x < span
                invariant
                    self.same_but_pixels(old(self)),
                    cv == canvas_of(*old(self)),
                    np == patch_of(old(self).media.libs().borders, ident@),
                    np == crate::media::border::patch_view(ninepatch),
                    ninepatch.data@.len() >= 8,
                    ninepatch.x_w > 0,
                    0 <= p_x,
                    reader_n.data_view() == np.data[0],
                    reader_s.data_view() == np.data[4],
                    x_edges(cv, np, nw_outer.y, south, reader_n.state(), reader_s.state(), self.fb(), x, p_x as int, span as int) == goal,
                decreases span - p_x,
            {
                self.draw_patch_run(&mut reader_n, Point { x, y: nw_outer.y }, ninepatch.n_h, 0, 1);
                self.draw_patch_run(&mut reader_s, Point { x, y: south }, ninepatch.s_h, 0, -1);
                if p_x % (ninepatch.x_w as i16) == (ninepatch.x_w as i16) - 1 {
                    reader_n.reset();
                    reader_s.reset();
                }
                x = i16_saturating_add(x, 1);
                p_x += 1;
            }
        }
        let ghost fb1 = self.fb();
        if ninepatch.y_h > 0 {
            let mut reader_e = BinaryStream::new(ninepatch.data[2].as_slice());
            let mut reader_w = BinaryStream::new(ninepatch.data[6].as_slice());
            let span: i16 = i16_saturating_sub(se_inner.y, nw_inner.y);
            let east = i16_saturating_sub(se_outer.x, 1);
            let ghost goal = y_edges(cv, np, nw_outer.x, east, reader_w.state(), reader_e.state(), fb1, nw_inner.y, 0, span as int);
            let mut y: i16 = nw_inner.y;
            let mut p_y: i16 = 0;
            while p_y < span
                invariant
                    self.same_but_pixels(old(self)),
                    cv == canvas_of(*old(self)),
                    np == patch_of(old(self).media.libs().borders, ident@),
                    np == crate::media::border::patch_view(ninepatch),
                    ninepatch.data@.len() >= 8,
                    ninepatch.y_h > 0,
                    0 <= p_y,
                    reader_w.data_view() == np.data[6],
                    reader_e.data_view() == np.data[2],
                    y_edges(cv, np, nw_outer.x, east, reader_w.state(), reader_e.state(), self.fb(), y, p_y as int, span as int) == goal,
                decreases span - p_y,
            {
                self.draw_patch_run(&mut reader_w, Point { x: nw_outer.x, y }, ninepatch.w_w, 1, 0);
                self.draw_patch_run(&mut reader_e, Point { x: east, y }, ninepatch.e_w, -1, 0);
                if p_y % (ninepatch.y_h as i16) == (ninepatch.y_h as i16) - 1 {
                    reader_e.reset();
                    reader_w.reset();
                }
                y = i16_saturating_add(y, 1);
                p_y += 1;
            }
        }
        let east = i16_saturating_sub(se_outer.x, 1);
        let south = i16_saturating_sub(se_outer.y, 1);
        self.draw_corner(ninepatch.data[7].as_slice(), Point { x: nw_outer.x, y: nw_outer.y }, ninepatch.w_w, ninepatch.n_h, 1, 1);
        self.draw_corner(ninepatch.data[1].as_slice(), Point { x: east, y: nw_outer.y }, ninepatch.e_w, ninepatch.n_h, -1, 1);
        self.draw_corner(ninepatch.data[5].as_slice(), Point { x: nw_outer.x, y: south }, ninepatch.w_w, ninepatch.s_h, 1, -1);
        self.draw_corner(ninepatch.data[3].as_slice(), Point { x: east, y: south }, ninepatch.e_w, ninepatch.s_h, -1, -1);
    }

    /// Draws a `width` x `height` corner piece from `start`, rows running by
    /// `dx` and columns by `dy` (see `corner_rows`).
    fn draw_corner(&mut self, data: &[u8], start: Point, width: u8, height: u8, dx: i16, dy: i16)
        ensures
            final(self).same_but_pixels(old(self)),
            final(self).fb() == corner_rows(
                canvas_of(*old(self)),
                data@,
                reader_start(data@),
                old(self).fb(),
                start.x,
                start.y,
                width,
                height as nat,
                dx,
                dy,
            ),
    {
        let ghost cv = canvas_of(*self);
        let ghost goal = corner_rows(cv, data@, reader_start(data@), self.fb(), start.x, start.y, width, height as nat, dx, dy);
        let mut reader = BinaryStream::new(data);
        let mut y = start.y;
        let mut k: u8 = 0;
        while k < height
            invariant
                self.same_but_pixels(old(self)),
                cv == canvas_of(*old(self)),
                k <= height,
                reader.data_view() == data@,
                corner_rows(cv, data@, reader.state(), self.fb(), start.x, y, width, (height - k) as nat, dx, dy) == goal,
            decreases height - k,
        {
            self.draw_patch_run(&mut reader, Point { x: start.x, y }, width, dx, 0);
            y = i16_saturating_add(y, dy);
            k += 1;
        }
    }
}

} // verus!
