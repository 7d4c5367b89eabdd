//! A one-bit-per-pixel surface: pixels are stored row by row, eight to a
//! byte, most significant bit first. Drawing respects a clip rectangle.

use vstd::prelude::*;
use crate::{Area, Color, Point, PosX, PosY, Size, SizeH, SizeW};
use crate::media::Media;

pub mod image;
pub mod font;
pub mod ninepatch;
pub mod laws;

verus! {

pub const IMAGE: char = '\x01';
pub const FONT: char = '\x02';
pub const DRAWING: char = '\x03';
pub const TYPESETTING: char = '\x04';

/// The half-open rectangle from `p0` to `p1` that drawing is held to.
#[derive(Copy, Clone)]
pub struct Clip {
    pub p0: Point,
    pub p1: Point,
}

impl Default for Clip {
    fn default() -> (r: Self)
        ensures
            r.p0.x == 0 && r.p0.y == 0 && r.p1.x == i16::MAX && r.p1.y == i16::MAX,
    {
        Clip { p0: Point { x: 0, y: 0 }, p1: Point { x: PosX::MAX, y: PosY::MAX } }
    }
}

impl Clip {
    pub fn reset(&mut self, width: SizeW, height: SizeH)
        ensures
            final(self).p0.x == 0,
            final(self).p0.y == 0,
            final(self).p1.x == width as i16,
            final(self).p1.y == height as i16,
    {
        self.p0.x = 0;
        self.p0.y = 0;
        self.p1.x = width as PosX;
        self.p1.y = height as PosY;
    }
}

pub open spec fn in_clip(c: Clip, x: int, y: int) -> bool {
    c.p0.x <= x < c.p1.x && c.p0.y <= y < c.p1.y
}

/// `fb` with the pixel at `(x, y)` of a surface `w` pixels wide set
/// (`color` not 0) or cleared; pixels outside the buffer are ignored.
pub open spec fn put_pixel(fb: Seq<u8>, w: int, x: int, y: int, color: u8) -> Seq<u8> {
    if x < 0 || y < 0 {
        fb
    } else {
        let i = y * w + x;
        if 0 <= i && i / 8 < fb.len() {
            let bit = (1u8 << ((7 - i % 8) as u8)) as u8;
            fb.update(i / 8, if color == 0 { fb[i / 8] & !bit } else { fb[i / 8] | bit })
        } else {
            fb
        }
    }
}

/// A pixel drawn inside the clip rectangle.
pub open spec fn plot_pixel(fb: Seq<u8>, w: int, c: Clip, x: int, y: int, color: u8) -> Seq<u8> {
    if in_clip(c, x, y) { put_pixel(fb, w, x, y, color) } else { fb }
}

/// The pixels `x .. end` of row `y`.
pub open spec fn hline_run(fb: Seq<u8>, w: int, c: Clip, x: int, end: int, y: int, color: u8) -> Seq<u8>
    decreases end - x,
{
    if x >= end {
        fb
    } else {
        hline_run(plot_pixel(fb, w, c, x, y, color), w, c, x + 1, end, y, color)
    }
}

/// The pixels `y .. end` of column `x`.
pub open spec fn vline_run(fb: Seq<u8>, w: int, c: Clip, x: int, y: int, end: int, color: u8) -> Seq<u8>
    decreases end - y,
{
    if y >= end {
        fb
    } else {
        vline_run(plot_pixel(fb, w, c, x, y, color), w, c, x, y + 1, end, color)
    }
}

pub open spec fn max_int(a: int, b: int) -> int {
    if a >= b { a } else { b }
}

pub open spec fn min_int(a: int, b: int) -> int {
    if a <= b { a } else { b }
}

/// A horizontal line of `length` pixels from `p`, on a surface `h` pixels high.
pub open spec fn hline_spec(fb: Seq<u8>, w: int, h: u16, c: Clip, p: Point, length: u16, color: u8) -> Seq<u8> {
    if length == 0 || p.y < 0 || p.y >= h as i16 {
        fb
    } else {
        hline_run(fb, w, c, max_int(p.x as int, c.p0.x as int), min_int(p.x + length as i16, c.p1.x as int), p.y as int, color)
    }
}

/// A vertical line of `length` pixels from `p`.
pub open spec fn vline_spec(fb: Seq<u8>, w: int, h: u16, c: Clip, p: Point, length: u16, color: u8) -> Seq<u8> {
    if length == 0 || p.y < 0 || p.y >= h as i16 {
        fb
    } else {
        vline_run(fb, w, c, p.x as int, max_int(p.y as int, c.p0.y as int), min_int(p.y + length as i16, c.p1.y as int), color)
    }
}

/// The outline of `a`.
pub open spec fn rect_spec(fb: Seq<u8>, w: u16, h: u16, c: Clip, a: Area, color: u8) -> Seq<u8> {
    let aw = a.size.width;
    let ah = a.size.height;
    let fb1 = if aw >= 2 {
        let t = hline_spec(fb, w as int, h, c, a.point, aw, color);
        if ah > 1 && (ah as i16) - 1 < (h as i16) - a.point.y {
            hline_spec(t, w as int, h, c, Point { x: a.point.x, y: (a.point.y + ah as i16 - 1) as i16 }, aw, color)
        } else {
            t
        }
    } else {
        fb
    };
    if ah >= 2 {
        let t = vline_spec(fb1, w as int, h, c, a.point, (ah - 1) as u16, color);
        if aw > 1 && (aw as i16) - 1 < (w as i16) - a.point.x {
            vline_spec(
                t,
                w as int,
                h,
                c,
                Point { x: (a.point.x + aw as i16 - 1) as i16, y: (a.point.y + 1) as i16 },
                (ah - 2) as u16,
                color,
            )
        } else {
            t
        }
    } else {
        fb1
    }
}

/// Rows `y .. end` of a filled rectangle.
pub open spec fn fill_run(fb: Seq<u8>, w: u16, h: u16, c: Clip, x: i16, y: int, end: int, width: u16, color: u8) -> Seq<u8>
    decreases end - y,
{
    if y >= end {
        fb
    } else {
        fill_run(hline_spec(fb, w as int, h, c, Point { x, y: y as i16 }, width, color), w, h, c, x, y + 1, end, width, color)
    }
}

/// The filled rectangle `a`.
pub open spec fn fill_spec(fb: Seq<u8>, w: u16, h: u16, c: Clip, a: Area, color: u8) -> Seq<u8> {
    if a.size.width >= 1 && a.size.height > 0 {
        fill_run(fb, w, h, c, a.point.x, max_int(a.point.y as int, 0), min_int(a.point.y + a.size.height as i16, h as i16 as int), a.size.width, color)
    } else {
        fb
    }
}

pub open spec fn step_toward(v: int, target: int) -> int {
    if v < target { v + 1 } else { v - 1 }
}

/// The rest of a line from `(x, y)` to `(x1, y1)` with error term `err`.
pub open spec fn line_run(fb: Seq<u8>, w: int, c: Clip, x: int, y: int, x1: int, y1: int, dx: int, dy: int, err: int, color: u8) -> Seq<u8>
    decreases (if x <= x1 { x1 - x } else { x - x1 }) + (if y <= y1 { y1 - y } else { y - y1 }),
{
    let fb1 = plot_pixel(fb, w, c, x, y, color);
    let e2 = 2 * err;
    if e2 >= dy {
        if x == x1 {
            fb1
        } else if e2 <= dx {
            if y == y1 {
                fb1
            } else {
                line_run(fb1, w, c, step_toward(x, x1), step_toward(y, y1), x1, y1, dx, dy, err + dy + dx, color)
            }
        } else {
            line_run(fb1, w, c, step_toward(x, x1), y, x1, y1, dx, dy, err + dy, color)
        }
    } else if y == y1 {
        fb1
    } else {
        line_run(fb1, w, c, x, step_toward(y, y1), x1, y1, dx, dy, err + dx, color)
    }
}

/// The line from `p0` to `p1` (Bresenham), both ends included.
pub open spec fn line_spec(fb: Seq<u8>, w: int, c: Clip, p0: Point, p1: Point, color: u8) -> Seq<u8> {
    let dx = if p1.x >= p0.x { p1.x - p0.x } else { p0.x - p1.x };
    let dy = -(if p1.y >= p0.y { p1.y - p0.y } else { p0.y - p1.y });
    line_run(fb, w, c, p0.x as int, p0.y as int, p1.x as int, p1.y as int, dx, dy, dx + dy, color)
}

pub proof fn lemma_plot_len(fb: Seq<u8>, w: int, c: Clip, x: int, y: int, color: u8)
    ensures
        plot_pixel(fb, w, c, x, y, color).len() == fb.len(),
{
}

pub proof fn lemma_hline_len(fb: Seq<u8>, w: int, c: Clip, x: int, end: int, y: int, color: u8)
    ensures
        hline_run(fb, w, c, x, end, y, color).len() == fb.len(),
    decreases end - x,
{
    if x < end {
        lemma_hline_len(plot_pixel(fb, w, c, x, y, color), w, c, x + 1, end, y, color);
    }
}

pub proof fn lemma_vline_len(fb: Seq<u8>, w: int, c: Clip, x: int, y: int, end: int, color: u8)
    ensures
        vline_run(fb, w, c, x, y, end, color).len() == fb.len(),
    decreases end - y,
{
    if y < end {
        lemma_vline_len(plot_pixel(fb, w, c, x, y, color), w, c, x, y + 1, end, color);
    }
}

pub proof fn lemma_hline_spec_len(fb: Seq<u8>, w: int, h: u16, c: Clip, p: Point, length: u16, color: u8)
    ensures
        hline_spec(fb, w, h, c, p, length, color).len() == fb.len(),
{
    lemma_hline_len(fb, w, c, max_int(p.x as int, c.p0.x as int), min_int(p.x + length as i16, c.p1.x as int), p.y as int, color);
}

pub proof fn lemma_vline_spec_len(fb: Seq<u8>, w: int, h: u16, c: Clip, p: Point, length: u16, color: u8)
    ensures
        vline_spec(fb, w, h, c, p, length, color).len() == fb.len(),
{
    lemma_vline_len(fb, w, c, p.x as int, max_int(p.y as int, c.p0.y as int), min_int(p.y + length as i16, c.p1.y as int), color);
}

pub proof fn lemma_rect_len(fb: Seq<u8>, w: u16, h: u16, c: Clip, a: Area, color: u8)
    ensures
        rect_spec(fb, w, h, c, a, color).len() == fb.len(),
{
    let aw = a.size.width;
    let ah = a.size.height;
    lemma_hline_spec_len(fb, w as int, h, c, a.point, aw, color);
    let t = hline_spec(fb, w as int, h, c, a.point, aw, color);
    lemma_hline_spec_len(t, w as int, h, c, Point { x: a.point.x, y: (a.point.y + ah as i16 - 1) as i16 }, aw, color);
    let fb1 = if aw >= 2 {
        if ah > 1 && (ah as i16) - 1 < (h as i16) - a.point.y {
            hline_spec(t, w as int, h, c, Point { x: a.point.x, y: (a.point.y + ah as i16 - 1) as i16 }, aw, color)
        } else {
            t
        }
    } else {
        fb
    };
    lemma_vline_spec_len(fb1, w as int, h, c, a.point, (ah - 1) as u16, color);
    let t2 = vline_spec(fb1, w as int, h, c, a.point, (ah - 1) as u16, color);
    lemma_vline_spec_len(t2, w as int, h, c, Point { x: (a.point.x + aw as i16 - 1) as i16, y: (a.point.y + 1) as i16 }, (ah - 2) as u16, color);
}

pub proof fn lemma_fill_run_len(fb: Seq<u8>, w: u16, h: u16, c: Clip, x: i16, y: int, end: int, width: u16, color: u8)
    ensures
        fill_run(fb, w, h, c, x, y, end, width, color).len() == fb.len(),
    decreases end - y,
{
    if y < end {
        lemma_hline_spec_len(fb, w as int, h, c, Point { x, y: y as i16 }, width, color);
        lemma_fill_run_len(hline_spec(fb, w as int, h, c, Point { x, y: y as i16 }, width, color), w, h, c, x, y + 1, end, width, color);
    }
}

pub proof fn lemma_fill_len(fb: Seq<u8>, w: u16, h: u16, c: Clip, a: Area, color: u8)
    ensures
        fill_spec(fb, w, h, c, a, color).len() == fb.len(),
{
    lemma_fill_run_len(fb, w, h, c, a.point.x, max_int(a.point.y as int, 0), min_int(a.point.y + a.size.height as i16, h as i16 as int), a.size.width, color);
}

pub proof fn lemma_line_len(fb: Seq<u8>, w: int, c: Clip, x: int, y: int, x1: int, y1: int, dx: int, dy: int, err: int, color: u8)
    ensures
        line_run(fb, w, c, x, y, x1, y1, dx, dy, err, color).len() == fb.len(),
    decreases (if x <= x1 { x1 - x } else { x - x1 }) + (if y <= y1 { y1 - y } else { y - y1 }),
{
    let fb1 = plot_pixel(fb, w, c, x, y, color);
    let e2 = 2 * err;
    if e2 >= dy {
        if x == x1 {
        } else if e2 <= dx {
            if y != y1 {
                lemma_line_len(fb1, w, c, step_toward(x, x1), step_toward(y, y1), x1, y1, dx, dy, err + dy + dx, color);
            }
        } else {
            lemma_line_len(fb1, w, c, step_toward(x, x1), y, x1, y1, dx, dy, err + dy, color);
        }
    } else if y != y1 {
        lemma_line_len(fb1, w, c, x, step_toward(y, y1), x1, y1, dx, dy, err + dx, color);
    }
}

pub struct Surface {
    pub framebuffer: Vec<u8>,
    pub width: SizeW,
    pub height: SizeH,
    pub palette: [Color; 2],
    pub clip: Clip,
    pub media: Media,
}

/// The bar of the loader screen on `fb`: a frame and a filled line of
/// `progress` out of 255; nothing at 255.
pub open spec fn progress_bar(fb: Seq<u8>, w: u16, h: u16, c: Clip, progress: u8) -> Seq<u8> {
    if progress < 255 {
        let half = h / 2;
        let y0: i16 = (if half >= 3 { half - 3 } else { 0 }) as i16;
        let bar: u16 = if w >= 16 { (w - 16) as u16 } else { 0 };
        let y1: i16 = (if half >= 1 { half - 1 } else { 0 }) as i16;
        let inner: int = if w >= 18 { w - 18 } else { 0 };
        let fill: u16 = (inner * progress / 255) as u16;
        fill_spec(rect_spec(fb, w, h, c, Area { point: Point { x: 8, y: y0 }, size: Size { width: bar, height: 5 } }, 1),
            w, h, c, Area { point: Point { x: 10, y: y1 }, size: Size { width: fill, height: 1 } }, 1)
    } else {
        fb
    }
}

/// `fb` with the first `k` dots of the loader screen set: pixels 2, 3, …
/// of row 2.
pub open spec fn progress_dots(fb: Seq<u8>, w: int, c: Clip, k: int) -> Seq<u8>
    decreases k,
{
    if k <= 0 { fb } else { plot_pixel(progress_dots(fb, w, c, k - 1), w, c, 2 + k - 1, 2, 1) }
}

impl Surface {
    pub open spec fn wf(&self) -> bool {
        self.media.wf()
    }

    pub open spec fn fb(&self) -> Seq<u8> {
        self.framebuffer@
    }

    /// Everything but the pixels stays as it was.
    pub open spec fn same_but_pixels(&self, other: &Surface) -> bool {
        &&& self.width == other.width
        &&& self.height == other.height
        &&& self.palette == other.palette
        &&& self.clip == other.clip
        &&& self.media == other.media
    }

    pub fn new(framebuffer: Vec<u8>, width: SizeW, height: SizeH) -> (r: Self)
        ensures
            r.wf(),
            r.framebuffer@ == framebuffer@,
            r.width == width,
            r.height == height,
            r.palette@ == seq![0u8, 1u8],
            r.clip.p0.x == 0 && r.clip.p0.y == 0,
            r.clip.p1.x == width as i16 && r.clip.p1.y == height as i16,
    {
        let r = Surface {
            framebuffer: framebuffer,
            width: width,
            height: height,
            palette: [0, 1],
            clip: Clip { p0: Point { x: 0, y: 0 }, p1: Point { x: width as PosX, y: height as PosY } },
            media: Media::default(),
        };
        assert(r.palette@ =~= seq![0u8, 1u8]);
        r
    }

    pub fn resize(&mut self, framebuffer: Vec<u8>, width: SizeW, height: SizeH)
        ensures
            final(self).framebuffer@ == framebuffer@,
            final(self).width == width,
            final(self).height == height,
            final(self).clip.p0.x == 0 && final(self).clip.p0.y == 0,
            final(self).clip.p1.x == width as i16 && final(self).clip.p1.y == height as i16,
            final(self).palette == old(self).palette,
            final(self).media == old(self).media,
    {
        self.framebuffer = framebuffer;
        self.width = width;
        self.height = height;
        self.clip.reset(width, height);
    }

    /// Fills the whole surface with `color`.
    pub fn clear(&mut self, color: Color)
        ensures
            final(self).fb() == fill_spec(
                old(self).fb(),
                old(self).width,
                old(self).height,
                old(self).clip,
                Area { point: Point { x: 0, y: 0 }, size: Size { width: old(self).width, height: old(self).height } },
                color,
            ),
            final(self).same_but_pixels(old(self)),
    {
        let a = Area { point: Point { x: 0, y: 0 }, size: Size { width: self.width, height: self.height } };
        self.fill_rect(a, color);
    }

    /// Palette entry `index`, the last one for indices past the end.
    pub fn get_color(&self, index: usize) -> (r: Color)
        ensures
            r == self.palette@[if index < 1 { index as int } else { 1 }],
    {
        if index < 1 {
            self.palette[0]
        } else {
            self.palette[1]
        }
    }

    pub fn set_clip(&mut self, p_0: Point, p_1: Point)
        ensures
            final(self).clip.p0 == p_0,
            final(self).clip.p1 == p_1,
            final(self).fb() == old(self).fb(),
            final(self).width == old(self).width,
            final(self).height == old(self).height,
            final(self).palette == old(self).palette,
            final(self).media == old(self).media,
    {
        self.clip.p0 = p_0;
        self.clip.p1 = p_1;
    }

    fn draw_pixel_raw(&mut self, x: i32, y: i32, color: Color)
        requires
            i16::MIN <= x <= i16::MAX,
            i16::MIN <= y <= i16::MAX,
        ensures
            final(self).fb() == put_pixel(old(self).fb(), old(self).width as int, x as int, y as int, color),
            final(self).same_but_pixels(old(self)),
    {
        if x < 0 || y < 0 {
            return;
        }
        let xu = x as usize;
        let yu = y as usize;
        let w = self.width as usize;
        assert(yu * w <= 32767 * 65535) by (nonlinear_arith)
            requires
                yu <= 32767,
                w <= 65535,
        ;
        let pixel_i = yu * w + xu;
        if pixel_i / 8 < self.framebuffer.len() {
            let k = pixel_i / 8;
            let bit: u8 = 1u8 << ((7 - (pixel_i % 8)) as u8);
            let old_byte = self.framebuffer[k];
            if color == 0 {
                self.framebuffer.set(k, old_byte & !bit);
            } else {
                self.framebuffer.set(k, old_byte | bit);
            }
        }
    }

    /// Sets or clears one pixel inside the clip rectangle.
    pub fn draw_pixel(&mut self, p: Point, color: Color)
        ensures
            final(self).fb() == plot_pixel(old(self).fb(), old(self).width as int, old(self).clip, p.x as int, p.y as int, color),
            final(self).same_but_pixels(old(self)),
    {
        if p.x < self.clip.p0.x || p.y < self.clip.p0.y || p.x >= self.clip.p1.x || p.y
            >= self.clip.p1.y {
            return;
        }
        self.draw_pixel_raw(p.x as i32, p.y as i32, color);
    }

    fn plot(&mut self, x: i32, y: i32, color: Color)
        requires
            i16::MIN <= x <= i16::MAX,
            i16::MIN <= y <= i16::MAX,
        ensures
            final(self).fb() == plot_pixel(old(self).fb(), old(self).width as int, old(self).clip, x as int, y as int, color),
            final(self).same_but_pixels(old(self)),
    {
        self.draw_pixel(Point { x: x as i16, y: y as i16 }, color);
    }

    pub fn draw_hline(&mut self, p: Point, length: SizeW, color: Color)
        ensures
            final(self).fb() == hline_spec(old(self).fb(), old(self).width as int, old(self).height, old(self).clip, p, length, color),
            final(self).same_but_pixels(old(self)),
    {
        if length == 0 || p.y < 0 || p.y >= self.height as PosY {
            return;
        }
        let start: i32 = if p.x >= self.clip.p0.x { p.x as i32 } else { self.clip.p0.x as i32 };
        let e: i32 = p.x as i32 + (length as i16) as i32;
        let end: i32 = if e <= self.clip.p1.x as i32 { e } else { self.clip.p1.x as i32 };
        let mut x = start;
        while x < end
            invariant
                start <= x,
                x <= end || x == start,
                i16::MIN <= start <= i16::MAX,
                end <= i16::MAX,
                p.y >= 0,
                self.same_but_pixels(old(self)),
                hline_run(self.fb(), self.width as int, self.clip, x as int, end as int, p.y as int, color)
                    == hline_run(old(self).fb(), old(self).width as int, old(self).clip, start as int, end as int, p.y as int, color),
            decreases end - x,
        {
            self.plot(x, p.y as i32, color);
            x += 1;
        }
    }

    pub fn draw_vline(&mut self, p: Point, length: SizeH, color: Color)
        ensures
            final(self).fb() == vline_spec(old(self).fb(), old(self).width as int, old(self).height, old(self).clip, p, length, color),
            final(self).same_but_pixels(old(self)),
    {
        if length == 0 || p.y < 0 || p.y >= self.height as PosY {
            return;
        }
        let start: i32 = if p.y >= self.clip.p0.y { p.y as i32 } else { self.clip.p0.y as i32 };
        let e: i32 = p.y as i32 + (length as i16) as i32;
        let end: i32 = if e <= self.clip.p1.y as i32 { e } else { self.clip.p1.y as i32 };
        let mut y = start;
        while y < end
            invariant
                start <= y,
                y <= end || y == start,
                i16::MIN <= start <= i16::MAX,
                end <= i16::MAX,
                self.same_but_pixels(old(self)),
                vline_run(self.fb(), self.width as int, self.clip, p.x as int, y as int, end as int, color)
                    == vline_run(old(self).fb(), old(self).width as int, old(self).clip, p.x as int, start as int, end as int, color),
            decreases end - y,
        {
            self.plot(p.x as i32, y, color);
            y += 1;
        }
    }

    pub fn draw_rect(&mut self, a: Area, color: Color)
        ensures
            final(self).fb() == rect_spec(old(self).fb(), old(self).width, old(self).height, old(self).clip, a, color),
            final(self).same_but_pixels(old(self)),
    {
        let aw = a.size.width;
        let ah = a.size.height;
        if aw >= 2 {
            self.draw_hline(a.point, aw, color);
            if ah > 1 && ((ah as i16) as i32 - 1) < (self.height as i16) as i32 - a.point.y as i32 {
                let y: i16 = (a.point.y as i32 + (ah as i16) as i32 - 1) as i16;
                self.draw_hline(Point { x: a.point.x, y }, aw, color);
            }
        }
        if ah >= 2 {
            self.draw_vline(a.point, ah - 1, color);
            if aw > 1 && ((aw as i16) as i32 - 1) < (self.width as i16) as i32 - a.point.x as i32 {
                let x: i16 = (a.point.x as i32 + (aw as i16) as i32 - 1) as i16;
                let y: i16 = (a.point.y as i32 + 1) as i16;
                self.draw_vline(Point { x, y }, ah - 2, color);
            }
        }
    }

    pub fn fill_rect(&mut self, a: Area, color: Color)
        ensures
            final(self).fb() == fill_spec(old(self).fb(), old(self).width, old(self).height, old(self).clip, a, color),
            final(self).same_but_pixels(old(self)),
    {
        if a.size.width >= 1 && a.size.height > 0 {
            let start: i32 = if a.point.y >= 0 { a.point.y as i32 } else { 0 };
            let e: i32 = a.point.y as i32 + (a.size.height as i16) as i32;
            let hh: i32 = (self.height as i16) as i32;
            let end: i32 = if e <= hh { e } else { hh };
            let mut y = start;
            while y < end
                invariant
                    start <= y,
                    y <= end || y == start,
                    0 <= start <= i16::MAX,
                    end <= i16::MAX,
                    self.same_but_pixels(old(self)),
                    fill_run(self.fb(), self.width, self.height, self.clip, a.point.x, y as int, end as int, a.size.width, color)
                        == fill_run(old(self).fb(), old(self).width, old(self).height, old(self).clip, a.point.x, start as int, end as int, a.size.width, color),
                decreases end - y,
            {
                self.draw_hline(Point { x: a.point.x, y: y as i16 }, a.size.width, color);
                y += 1;
            }
        }
    }

    /// A line from `p_0` to `p_1`, both ends included.
    pub fn draw_line(&mut self, p_0: Point, p_1: Point, color: Color)
        ensures
            final(self).fb() == line_spec(old(self).fb(), old(self).width as int, old(self).clip, p_0, p_1, color),
            final(self).same_but_pixels(old(self)),
    {
        let x0 = p_0.x as i32;
        let y0 = p_0.y as i32;
        let x1 = p_1.x as i32;
        let y1 = p_1.y as i32;
        let dx: i32 = if x1 >= x0 { x1 - x0 } else { x0 - x1 };
        let dy: i32 = -(if y1 >= y0 { y1 - y0 } else { y0 - y1 });
        let sx: i32 = if x0 < x1 { 1 } else { -1 };
        let sy: i32 = if y0 < y1 { 1 } else { -1 };
        let mut error: i32 = dx + dy;
        let mut x = x0;
        let mut y = y0;
        loop
            invariant
                0 <= dx <= 65535,
                -65535 <= dy <= 0,
                2 * dy <= error <= 2 * dx,
                i16::MIN <= x <= i16::MAX,
                i16::MIN <= y <= i16::MAX,
                i16::MIN <= x1 <= i16::MAX,
                i16::MIN <= y1 <= i16::MAX,
                sx == 1 ==> x <= x1,
                sx == -1 ==> x >= x1,
                sy == 1 ==> y <= y1,
                sy == -1 ==> y >= y1,
                sx == 1 || sx == -1,
                sy == 1 || sy == -1,
                self.same_but_pixels(old(self)),
                line_run(self.fb(), self.width as int, self.clip, x as int, y as int, x1 as int, y1 as int, dx as int, dy as int, error as int, color)
                    == line_spec(old(self).fb(), old(self).width as int, old(self).clip, p_0, p_1, color),
            decreases (if x <= x1 { x1 - x } else { x - x1 }) + (if y <= y1 { y1 - y } else { y - y1 }),
        {
            self.plot(x, y, color);
            let e2 = 2 * error;
            if e2 >= dy {
                if x == x1 {
                    return;
                }
                if e2 <= dx {
                    if y == y1 {
                        return;
                    }
                    error = error + dy + dx;
                    x = x + sx;
                    y = y + sy;
                } else {
                    error = error + dy;
                    x = x + sx;
                }
            } else {
                if y == y1 {
                    return;
                }
                error = error + dx;
                y = y + sy;
            }
        }
    }

    /// The loader screen: a progress bar for `progress` out of 255 (none at
    /// 255) and a row of `2 * state` dots.
    pub fn draw_progress_screen(&mut self, progress: u8, state: u8)
        ensures
            final(self).same_but_pixels(old(self)),
            final(self).fb().len() == old(self).fb().len(),
            final(self).fb() == progress_dots(
                progress_bar(
                    fill_spec(old(self).fb(), old(self).width, old(self).height, old(self).clip,
                        Area { point: Point { x: 0, y: 0 }, size: Size { width: old(self).width, height: old(self).height } }, 0),
                    old(self).width, old(self).height, old(self).clip, progress),
                old(self).width as int, old(self).clip, 2 * state as int),
    {
        self.clear(0);
        proof { lemma_fill_len(old(self).fb(), old(self).width, old(self).height, old(self).clip, Area { point: Point { x: 0, y: 0 }, size: Size { width: old(self).width, height: old(self).height } }, 0); }
        if progress < u8::MAX {
            let w = self.width;
            let h = self.height;
            let half = h / 2;
            let y0: i16 = (if half >= 3 { half - 3 } else { 0 }) as i16;
            let bar: u16 = if w >= 16 { w - 16 } else { 0 };
            let ghost f1 = self.fb();
            self.draw_rect(Area { point: Point { x: 8, y: y0 }, size: Size { width: bar, height: 5 } }, 1);
            proof { lemma_rect_len(f1, self.width, self.height, self.clip, Area { point: Point { x: 8, y: y0 }, size: Size { width: bar, height: 5 } }, 1); }
            let ghost f2 = self.fb();
            let y1: i16 = (if half >= 1 { half - 1 } else { 0 }) as i16;
            let inner: u32 = if w >= 18 { (w - 18) as u32 } else { 0 };
            assert(inner * progress as u32 <= 65535 * 255) by (nonlinear_arith)
                requires
                    inner <= 65535,
                    progress <= 255,
            ;
            let fill: u16 = (inner * progress as u32 / 255) as u16;
            self.fill_rect(Area { point: Point { x: 10, y: y1 }, size: Size { width: fill, height: 1 } }, 1);
            proof { lemma_fill_len(f2, self.width, self.height, self.clip, Area { point: Point { x: 10, y: y1 }, size: Size { width: fill, height: 1 } }, 1); }
        }
        let ghost bars = self.fb();
        assert(bars == progress_bar(
            fill_spec(old(self).fb(), old(self).width, old(self).height, old(self).clip,
                Area { point: Point { x: 0, y: 0 }, size: Size { width: old(self).width, height: old(self).height } }, 0),
            old(self).width, old(self).height, old(self).clip, progress));
        let mut i: i16 = 0;
        let n: i16 = (state as u16 * 2) as i16;
        while i < n
            invariant
                0 <= i <= n,
                n == 2 * state,
                n <= 510,
                self.same_but_pixels(old(self)),
                self.fb().len() == old(self).fb().len(),
                self.fb() == progress_dots(bars, old(self).width as int, old(self).clip, i as int),
            decreases n - i,
        {
            let ghost f3 = self.fb();
            self.draw_pixel(Point { x: 2 + i, y: 2 }, 1);
            proof { lemma_plot_len(f3, self.width as int, self.clip, (2 + i) as int, 2, 1); }
            i += 1;
        }
    }
}

} // verus!
