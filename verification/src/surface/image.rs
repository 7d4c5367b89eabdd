use vstd::prelude::*;
use crate::{Color, Point, PosX, PosY, Size, SizeH, SizeW, Area};
use crate::stream::{bit_step, bit_step_defined, bit_reset, BinaryStream, BitState, Encoding};
use crate::media::Identifier;
use crate::media::image::{
    image_data_spec, image_mask_spec, ImageFormat, ImageH, ImageW, Settings, IMAGE_HEADER_SIZE,
    IMAGE_TYPE_DUMMY,
};
use super::{plot_pixel, rect_spec, Clip, Surface};

verus! {

/// The surface color of a pixel bit, swapped where `inverted`.
pub open spec fn pixel_color(palette: Seq<u8>, pixel: u8, inverted: bool) -> u8 {
    let c = palette[if pixel < 1 { pixel as int } else { 1 }];
    let c2 = if inverted { if c == 0 { 1u8 } else { 0u8 } } else { c };
    palette[if c2 < 1 { c2 as int } else { 1 }]
}

/// The state in which a bit reader starts on `data`.
pub open spec fn reader_start(data: Seq<u8>) -> BitState {
    bit_reset(
        data,
        BitState { ok: false, pos: 0, rpt_cnt: 0, rpt_val: 0, raw_cnt: 0, encoding: Encoding::EOL },
    )
}

/// The remaining `k` pixels of an image drawn row by row from `(x, y)`;
/// rows are `width` long and start at `x0`; drawing stops with the data or
/// below the surface.
pub open spec fn render_run(
    data: Seq<u8>,
    bs: BitState,
    fb: Seq<u8>,
    w: int,
    h: u16,
    c: Clip,
    palette: Seq<u8>,
    k: nat,
    x: int,
    y: int,
    r_i: int,
    x0: int,
    width: int,
    inverted: bool,
    transparent: u8,
) -> Seq<u8>
    decreases k,
{
    if k == 0 || !bit_step_defined(data, bs) {
        fb
    } else {
        let bs2 = bit_step(data, bs).0;
        let pixel = bit_step(data, bs).1;
        if !bs2.ok {
            fb
        } else {
            let fb2 = if transparent == 255 || transparent != pixel {
                plot_pixel(fb, w, c, x, y, pixel_color(palette, pixel, inverted))
            } else {
                fb
            };
            if r_i + 1 == width {
                if y >= h as i16 {
                    fb2
                } else {
                    render_run(data, bs2, fb2, w, h, c, palette, (k - 1) as nat, x0, y + 1, 0, x0, width, inverted, transparent)
                }
            } else {
                render_run(data, bs2, fb2, w, h, c, palette, (k - 1) as nat, x + 1, y, r_i + 1, x0, width, inverted, transparent)
            }
        }
    }
}

/// Like `render_run` for an image with a mask: where `use_mask`, only the
/// pixels whose mask bit is 1 are drawn.
pub open spec fn masked_run(
    data: Seq<u8>,
    mask: Seq<u8>,
    bs: BitState,
    ms: BitState,
    fb: Seq<u8>,
    w: int,
    h: u16,
    c: Clip,
    palette: Seq<u8>,
    k: nat,
    x: int,
    y: int,
    r_i: int,
    x0: int,
    width: int,
    inverted: bool,
    use_mask: bool,
) -> Seq<u8>
    decreases k,
{
    if k == 0 || !bit_step_defined(data, bs) || !bit_step_defined(mask, ms) {
        fb
    } else {
        let bs2 = bit_step(data, bs).0;
        let pixel = bit_step(data, bs).1;
        let ms2 = bit_step(mask, ms).0;
        let masked = bit_step(mask, ms).1;
        if !bs2.ok || !ms2.ok {
            fb
        } else {
            let fb2 = if !use_mask || masked == 1 {
                plot_pixel(fb, w, c, x, y, pixel_color(palette, pixel, inverted))
            } else {
                fb
            };
            if r_i + 1 == width {
                if y >= h as i16 {
                    fb2
                } else {
                    masked_run(data, mask, bs2, ms2, fb2, w, h, c, palette, (k - 1) as nat, x0, y + 1, 0, x0, width, inverted, use_mask)
                }
            } else {
                masked_run(data, mask, bs2, ms2, fb2, w, h, c, palette, (k - 1) as nat, x + 1, y, r_i + 1, x0, width, inverted, use_mask)
            }
        }
    }
}

/// What `draw_image` draws: a frame for a dummy image, else the pixel
/// stream behind the three header bytes, through the mask where there is one.
pub open spec fn image_draw_spec(
    fb: Seq<u8>,
    w: u16,
    h: u16,
    c: Clip,
    palette: Seq<u8>,
    data: Seq<u8>,
    mask: Option<Seq<u8>>,
    position: Point,
    s: Settings,
) -> Seq<u8> {
    if data.len() < 3 {
        fb
    } else if data[0] == IMAGE_TYPE_DUMMY {
        rect_spec(fb, w, h, c, Area { point: position, size: Size { width: data[1] as u16, height: data[2] as u16 } }, 1)
    } else {
        let px = data.subrange(3, data.len() as int);
        match mask {
            None => render_run(px, reader_start(px), fb, w as int, h, c, palette, (data[1] * data[2]) as nat, position.x as int, position.y as int, 0, position.x as int, data[1] as int, s.inverted, s.transparent_color),
            Some(m) => masked_run(px, m, reader_start(px), reader_start(m), fb, w as int, h, c, palette, (data[1] * data[2]) as nat, position.x as int, position.y as int, 0, position.x as int, data[1] as int, s.inverted, s.use_mask),
        }
    }
}

impl Surface {
    /// Draws the image `ident` with its top left corner at `position`; gives
    /// its size.
    pub fn draw_image(&mut self, ident: Identifier, position: Point, drawing: Option<Settings>) -> (r: Size)
        requires
            old(self).wf(),
        ensures
            final(self).same_but_pixels(old(self)),
            final(self).fb() == image_draw_spec(
                old(self).fb(),
                old(self).width,
                old(self).height,
                old(self).clip,
                old(self).palette@,
                image_data_spec(old(self).media.libs().images, ident@),
                image_mask_spec(old(self).media.libs().images, ident@),
                position,
                match drawing { Some(s) => s, None => old(self).media.drawing },
            ),
            ({
                let d = image_data_spec(old(self).media.libs().images, ident@);
                if d.len() >= 3 { r.width == d[1] && r.height == d[2] } else { r.width == 0 && r.height == 0 }
            }),
    {
        let image = self.media.get_image(ident);
        let drawing = match drawing {
            Some(s) => s,
            None => self.media.drawing,
        };
        let data = image.data.as_slice();
        if data.len() >= IMAGE_HEADER_SIZE {
            let format = data[0];
            let width = data[1];
            let height = data[2];
            if format == IMAGE_TYPE_DUMMY {
                self.draw_rect(Area { point: position, size: Size { width: width as SizeW, height: height as SizeH } }, 1);
            } else {
                match &image.mask {
                    None => {
                        self.render_stream(format, width, height, &data[3..data.len()], position, drawing.inverted, drawing.transparent_color);
                    },
                    Some(m) => {
                        self.render_masked_stream(format, width, height, &data[3..data.len()], m.as_slice(), position, drawing.inverted, drawing.use_mask);
                    },
                }
            }
            Size { width: width as SizeW, height: height as SizeH }
        } else {
            Size { width: 0, height: 0 }
        }
    }

    /// The size in the header of the image `ident`.
    pub fn get_image_size(&self, ident: Identifier) -> (r: Size)
        requires
            self.wf(),
        ensures
            ({
                let d = image_data_spec(self.media.libs().images, ident@);
                if d.len() >= 3 { r.width == d[1] && r.height == d[2] } else { r.width == 0 && r.height == 0 }
            }),
    {
        let image = self.media.get_image(ident);
        let data = image.data.as_slice();
        if data.len() >= IMAGE_HEADER_SIZE {
            Size { width: data[1] as SizeW, height: data[2] as SizeH }
        } else {
            Size { width: 0, height: 0 }
        }
    }

    fn color_of(&self, pixel: u8, inverted: bool) -> (r: Color)
        ensures
            r == pixel_color(self.palette@, pixel, inverted),
    {
        let mut color_no = self.get_color(pixel as usize);
        if inverted {
            color_no = if color_no == 0 { 1 } else { 0 };
        }
        self.get_color(color_no as usize)
    }

    fn plot_wide(&mut self, x: i32, y: i32, color: Color)
        requires
            i16::MIN <= x,
            i16::MIN <= y <= i16::MAX,
        ensures
            final(self).fb() == plot_pixel(old(self).fb(), old(self).width as int, old(self).clip, x as int, y as int, color),
            final(self).same_but_pixels(old(self)),
    {
        if x <= i16::MAX as i32 {
            self.draw_pixel(Point { x: x as i16, y: y as i16 }, color);
        }
    }

    /// Draws a `width` x `height` pixel stream row by row from `position`;
    /// pixels equal to `transparent_color` are skipped unless it is 255.
    pub fn render_stream(&mut self, _format: ImageFormat, width: ImageW, height: ImageH, data: &[u8], position: Point, inverted: bool, transparent_color: Color)
        ensures
            final(self).same_but_pixels(old(self)),
            final(self).fb() == render_run(data@, reader_start(data@), old(self).fb(), old(self).width as int, old(self).height, old(self).clip, old(self).palette@, (width * height) as nat, position.x as int, position.y as int, 0, position.x as int, width as int, inverted, transparent_color),
    {
        let mut x: i32 = position.x as i32;
        let mut y: i32 = position.y as i32;
        let mut r_i: u8 = 0;
        let mut reader = BinaryStream::new(data);
        assert(width * height <= 255 * 255) by (nonlinear_arith)
            requires
                width <= 255,
                height <= 255,
        ;
        let n: usize = width as usize * height as usize;
        let mut k: usize = 0;
        while k < n
            invariant
                k <= n,
                n == width * height,
                reader.data_view() == data@,
                r_i < width || width == 0,
                x == position.x + r_i,
                i16::MIN <= y <= i16::MAX,
                self.same_but_pixels(old(self)),
                render_run(data@, reader.state(), self.fb(), self.width as int, self.height, self.clip, self.palette@, (n - k) as nat, x as int, y as int, r_i as int, position.x as int, width as int, inverted, transparent_color)
                    == render_run(data@, reader_start(data@), old(self).fb(), old(self).width as int, old(self).height, old(self).clip, old(self).palette@, (width * height) as nat, position.x as int, position.y as int, 0, position.x as int, width as int, inverted, transparent_color),
            decreases n - k,
        {
            if !reader.can_read_bit() {
                return;
            }
            let pixel = reader.read_bit();
            if reader.ok == false {
                return;
            }
            if transparent_color == 255 || transparent_color != pixel {
                let color = self.color_of(pixel, inverted);
                self.plot_wide(x, y, color);
            }
            if r_i + 1 == width {
                r_i = 0;
                x = position.x as i32;
                if y >= (self.height as i16) as i32 {
                    return;
                }
                y += 1;
            } else {
                r_i += 1;
                x += 1;
            }
            k += 1;
        }
    }

    /// Draws a pixel stream through a mask stream; where `use_mask`, only
    /// pixels with mask bit 1 are drawn.
    pub fn render_masked_stream(&mut self, _format: ImageFormat, width: ImageW, height: ImageH, image_data: &[u8], mask_data: &[u8], position: Point, inverted: bool, use_mask: bool)
        ensures
            final(self).same_but_pixels(old(self)),
            final(self).fb() == masked_run(image_data@, mask_data@, reader_start(image_data@), reader_start(mask_data@), old(self).fb(), old(self).width as int, old(self).height, old(self).clip, old(self).palette@, (width * height) as nat, position.x as int, position.y as int, 0, position.x as int, width as int, inverted, use_mask),
    {
        let mut x: i32 = position.x as i32;
        let mut y: i32 = position.y as i32;
        let mut r_i: u8 = 0;
        let mut image_reader = BinaryStream::new(image_data);
        let mut mask_reader = BinaryStream::new(mask_data);
        assert(width * height <= 255 * 255) by (nonlinear_arith)
            requires
                width <= 255,
                height <= 255,
        ;
        let n: usize = width as usize * height as usize;
        let mut k: usize = 0;
        while k < n
            invariant
                k <= n,
                n == width * height,
                image_reader.data_view() == image_data@,
                mask_reader.data_view() == mask_data@,
                r_i < width || width == 0,
                x == position.x + r_i,
                i16::MIN <= y <= i16::MAX,
                self.same_but_pixels(old(self)),
                masked_run(image_data@, mask_data@, image_reader.state(), mask_reader.state(), self.fb(), self.width as int, self.height, self.clip, self.palette@, (n - k) as nat, x as int, y as int, r_i as int, position.x as int, width as int, inverted, use_mask)
                    == masked_run(image_data@, mask_data@, reader_start(image_data@), reader_start(mask_data@), old(self).fb(), old(self).width as int, old(self).height, old(self).clip, old(self).palette@, (width * height) as nat, position.x as int, position.y as int, 0, position.x as int, width as int, inverted, use_mask),
            decreases n - k,
        {
            if !image_reader.can_read_bit() || !mask_reader.can_read_bit() {
                return;
            }
            let pixel = image_reader.read_bit();
            let masked = mask_reader.read_bit();
            if image_reader.ok == false || mask_reader.ok == false {
                return;
            }
            if !use_mask || masked == 1 {
                let color = self.color_of(pixel, inverted);
                self.plot_wide(x, y, color);
            }
            if r_i + 1 == width {
                r_i = 0;
                x = position.x as i32;
                if y >= (self.height as i16) as i32 {
                    return;
                }
                y += 1;
            } else {
                r_i += 1;
                x += 1;
            }
            k += 1;
        }
    }
}

} // verus!
