//! The runtime of a DOM on a surface, frame by frame: an intro that shows
//! the system logo, then the page of the DOM (or the loader screen while a
//! package comes in) with the pointer, and now and then a demo banner.

use vstd::prelude::*;
use crate::{Area, Point, PosY, Size};
use crate::control::Control;
use crate::dom;
use crate::media::{load_pkg_result, Identifier, SYS_LOGO, SYS_POINTER};
use crate::media::image::{image_data_spec, image_mask_spec};
use crate::surface::Surface;
use crate::surface::image::image_draw_spec;
use crate::surface::fill_spec;
use crate::surface::font::{canvas_of, text_drawn_on, text_size};

verus! {

/// Frames that the logo stands still before it slides.
pub const INTRO_WAIT: usize = 16;

/// `d / 2` rounded toward zero.
pub open spec fn half_toward_zero(d: int) -> int {
    if d >= 0 { d / 2 } else { -((-d) / 2) }
}

/// The offset that centres `len` in `space`, both read as positions.
pub open spec fn centre(space: u16, len: u16) -> i16 {
    half_toward_zero((space as i16) as int - (len as i16) as int) as i16
}

/// How far the logo has slid down on frame `loop_cnt`.
pub open spec fn intro_row(loop_cnt: usize) -> i16 {
    if loop_cnt == 0 { 0 } else { (loop_cnt - INTRO_WAIT) as i16 }
}

/// Where the intro puts a logo of size `logo` on a surface of `width` x
/// `height` on frame `loop_cnt`: centred, slid down by `intro_row`.
pub open spec fn logo_position(width: u16, height: u16, logo: Size, loop_cnt: usize) -> Point {
    Point { x: centre(width, logo.width), y: centre(height, logo.height).wrapping_add(intro_row(loop_cnt)) }
}

/// The intro runs for the first `height + INTRO_WAIT` frames.
pub open spec fn intro_runs(height: u16, loop_cnt: usize) -> bool {
    loop_cnt < height + INTRO_WAIT
}

/// The logo is drawn on the first frame and on each frame of its slide.
pub open spec fn intro_draws(height: u16, loop_cnt: usize) -> bool {
    intro_runs(height, loop_cnt) && (loop_cnt == 0 || loop_cnt > INTRO_WAIT)
}

/// The size in the header of an image, none for a short one.
pub open spec fn header_size(d: Seq<u8>) -> Size {
    if d.len() >= 3 { Size { width: d[1] as u16, height: d[2] as u16 } } else { Size { width: 0, height: 0 } }
}

/// The frame after `loop_cnt`; past the largest count the runtime goes on
/// as right after the intro.
pub open spec fn next_loop_cnt(loop_cnt: usize, height: u16) -> usize {
    if loop_cnt < usize::MAX { (loop_cnt + 1) as usize } else { (height + INTRO_WAIT) as usize }
}

/// A package that loading can take: the magic can be read, and a package
/// with the magic has its length field.
pub open spec fn pkg_loadable(d: Seq<u8>) -> bool {
    d.len() >= 4 && !(8 <= d.len() < 12 && d.subrange(0, 4) == seq![0x50u8, 0x4bu8, 0x47u8, 0x30u8])
}

fn centre_of(space: u16, len: u16) -> (r: i16)
    ensures
        r == centre(space, len),
{
    let d: i32 = space as i16 as i32 - len as i16 as i32;
    let h: i32 = if d >= 0 { d / 2 } else { -((-d) / 2) };
    h as i16
}

/// Draws frame `loop_cnt` of the intro, the logo centred on a cleared
/// surface; gives whether the intro still runs.
fn intro(surface: &mut Surface, loop_cnt: usize) -> (r: bool)
    requires
        old(surface).wf(),
    ensures
        r == intro_runs(old(surface).height, loop_cnt),
        final(surface).same_but_pixels(old(surface)),
        !intro_draws(old(surface).height, loop_cnt) ==> final(surface).fb() == old(surface).fb(),
        intro_draws(old(surface).height, loop_cnt) ==> final(surface).fb() == image_draw_spec(
            fill_spec(
                old(surface).fb(),
                old(surface).width,
                old(surface).height,
                old(surface).clip,
                Area { point: Point { x: 0, y: 0 }, size: Size { width: old(surface).width, height: old(surface).height } },
                0,
            ),
            old(surface).width,
            old(surface).height,
            old(surface).clip,
            old(surface).palette@,
            image_data_spec(old(surface).media.libs().images, Identifier::Index(SYS_LOGO)@),
            image_mask_spec(old(surface).media.libs().images, Identifier::Index(SYS_LOGO)@),
            logo_position(
                old(surface).width,
                old(surface).height,
                header_size(image_data_spec(old(surface).media.libs().images, Identifier::Index(SYS_LOGO)@)),
                loop_cnt,
            ),
            old(surface).media.drawing,
        ),
{
    let limit: u64 = surface.height as u64 + INTRO_WAIT as u64;
    if (loop_cnt as u64) < limit {
        if loop_cnt == 0 || loop_cnt > INTRO_WAIT {
            let size = surface.get_image_size(Identifier::Index(SYS_LOGO));
            let y: PosY = if loop_cnt == 0 { 0 } else { (loop_cnt - INTRO_WAIT) as PosY };
            surface.clear(0);
            let x = centre_of(surface.width, size.width);
            let y = centre_of(surface.height, size.height).wrapping_add(y);
            surface.draw_image(Identifier::Index(SYS_LOGO), Point { x, y }, None);
        }
        true
    } else {
        false
    }
}

/// The pixels of `s` with the word DEMO drawn in font 0 at the top left
/// corner, on a box of colour 0 one pixel larger than the text each way.
pub open spec fn demo_drawn(s: Surface) -> Seq<u8> {
    let size = text_size(s.media.libs(), Identifier::Index(0)@, s.media.drawing, s.media.typesetting, Point { x: 0, y: 0 }, "DEMO"@);
    let boxed = fill_spec(
        s.fb(),
        s.width,
        s.height,
        s.clip,
        Area {
            point: Point { x: 0, y: 0 },
            size: Size { width: size.width.wrapping_add(1), height: size.height.wrapping_add(1) },
        },
        0,
    );
    text_drawn_on(s.media.libs(), canvas_of(s), s.media.drawing, s.media.typesetting, Identifier::Index(0)@, Point { x: 0, y: 0 }, "DEMO"@, boxed)
}

/// On frames 351 to 399 of every 400, the word DEMO in the corner on a
/// cleared box.
fn demo_popup(surface: &mut Surface, loop_cnt: usize)
    requires
        old(surface).wf(),
    ensures
        final(surface).same_but_pixels(old(surface)),
        loop_cnt % 400 <= 350 ==> final(surface).fb() == old(surface).fb(),
        loop_cnt % 400 > 350 ==> final(surface).fb() == demo_drawn(*old(surface)),
{
    if loop_cnt % 400 > 350 {
        let text = "DEMO";
        let size = surface.get_text_size(Identifier::Index(0), text);
        surface.fill_rect(
            Area {
                point: Point { x: 0, y: 0 },
                size: Size { width: size.width.wrapping_add(1), height: size.height.wrapping_add(1) },
            },
            0,
        );
        surface.draw_text(Identifier::Index(0), text, Point { x: 0, y: 0 });
    }
}

/// The pointer image at `point`.
fn cursor(surface: &mut Surface, point: Point)
    requires
        old(surface).wf(),
    ensures
        final(surface).same_but_pixels(old(surface)),
        final(surface).fb() == image_draw_spec(
            old(surface).fb(),
            old(surface).width,
            old(surface).height,
            old(surface).clip,
            old(surface).palette@,
            image_data_spec(old(surface).media.libs().images, Identifier::Index(SYS_POINTER)@),
            image_mask_spec(old(surface).media.libs().images, Identifier::Index(SYS_POINTER)@),
            point,
            old(surface).media.drawing,
        ),
{
    surface.draw_image(Identifier::Index(SYS_POINTER), point, None);
}

/// A DOM shown on a surface, with the control protocol that drives it.
pub struct DOM {
    pub loop_cnt: usize,
    pub surface: Surface,
    pub dom: dom::DOM,
    pub control: Option<Control>,
}

impl DOM {
    pub open spec fn wf(&self) -> bool {
        &&& self.surface.wf()
        &&& self.dom.wf()
    }

    /// The number of frames run so far.
    pub open spec fn count(&self) -> usize {
        self.loop_cnt
    }

    /// A runtime on a surface of `width` x `height` drawn into `buf`, with an
    /// empty DOM and a control in line mode.
    pub fn new(buf: Vec<u8>, width: crate::SizeW, height: crate::SizeH) -> (r: Self)
        ensures
            r.wf(),
            r.count() == 0,
            r.surface.width == width,
            r.surface.height == height,
            r.surface.fb() == buf@,
            r.control.is_some(),
    {
        DOM {
            loop_cnt: 0,
            surface: Surface::new(buf, width, height),
            dom: dom::DOM::new(),
            control: Some(Control::default()),
        }
    }

    /// Runs one frame; the first one loads `sys_pkg` as source 0. During the
    /// intro the logo is drawn; after it the loader screen while an upload
    /// runs, else the DOM laid out on the cleared surface with the pointer at
    /// `pointer`. The demo banner comes on top.
    pub fn run(&mut self, sys_pkg: &[u8], pointer: Point) -> (r: bool)
        requires
            old(self).wf(),
            old(self).count() == 0 ==> pkg_loadable(sys_pkg@),
        ensures
            r,
            final(self).wf(),
            final(self).count() == next_loop_cnt(old(self).count(), old(self).surface.height),
            final(self).surface.width == old(self).surface.width,
            final(self).surface.height == old(self).surface.height,
            final(self).surface.palette == old(self).surface.palette,
            old(self).count() == 0 ==> final(self).surface.media.libs()
                == load_pkg_result(sys_pkg@, 0, old(self).surface.media.libs()).0,
            old(self).count() != 0 ==> final(self).surface.media.libs() == old(self).surface.media.libs(),
            final(self).control == old(self).control,
            final(self).dom.nodes@ == old(self).dom.nodes@,
    {
        if self.loop_cnt == 0 {
            self.surface.media.load_pkg(sys_pkg, 0);
        }
        let ghost libs = self.surface.media.libs();
        if !intro(&mut self.surface, self.loop_cnt) {
            let busy = match &self.control {
                Some(c) => c.is_loader_busy(),
                None => false,
            };
            if busy {
                let (progress, state) = match &self.control {
                    Some(c) => (
                        match c.loader_progress() {
                            Some(p) => p,
                            None => 255u8,
                        },
                        c.get_loader_error().code(),
                    ),
                    None => (255u8, 0u8),
                };
                self.surface.draw_progress_screen(progress, state);
            } else {
                self.surface.clear(0);
                self.surface.update(&mut self.dom);
                cursor(&mut self.surface, pointer);
            }
            demo_popup(&mut self.surface, self.loop_cnt);
        }
        assert(self.surface.media.libs() == libs);
        self.loop_cnt = match self.loop_cnt.checked_add(1) {
            Some(n) => n,
            None => self.surface.height as usize + INTRO_WAIT,
        };
        true
    }

    /// The number of frames run so far.
    pub fn run_cnt(&self) -> (r: usize)
        ensures
            r == self.count(),
    {
        self.loop_cnt
    }
}

} // verus!
