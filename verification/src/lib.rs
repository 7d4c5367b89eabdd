//! A small retained-mode UI engine for monochrome framebuffers: binary media
//! packages (images, fonts, borders, pages), a fixed-size DOM with a flex
//! layout, and drawing primitives on a one-bit-per-pixel surface.

use vstd::prelude::*;

pub mod decimal;
pub mod stream;
pub mod xmlparser;
pub mod node;
pub mod plot;
pub mod media;
pub mod surface;
pub mod control;
pub mod dom;
pub mod runtime;

verus! {

pub type PosX = i16;
pub type PosY = i16;
pub type SizeW = u16;
pub type SizeH = u16;
pub type Offset = i8;
pub type Color = u8;

pub type LibraryIdx = u8;
pub type NodeIdx = u8;
pub type AreaIdx = u8;
pub type ContentIdx = u8;
pub type MarginIdx = u8;
pub type PaddingIdx = u8;
pub type SizeIdx = u8;
pub type PositionIdx = u8;
pub type StyleIdx = u8;
pub type BorderIdx = u8;
pub type FontIdx = u8;
pub type IdIdx = u8;

pub const SCREEN_WIDTH: SizeW = 128;
pub const SCREEN_HEIGHT: SizeH = 64;

pub const SCREEN_SIZE: usize = 8192;
pub const SCREEN_BUFFER_SIZE: usize = 1024;

pub const SURFACE_WIDTH: SizeW = 128;
pub const SURFACE_HEIGHT: SizeH = 64;
pub const SURFACE_BUFFER_SIZE: usize = 1024;

pub const LIBRARY_MAX: LibraryIdx = 4;

pub const NODE_MAX: NodeIdx = 24;
pub const CONTENT_MAX: ContentIdx = 16;
pub const AREA_MAX: NodeIdx = 24;
pub const MARGIN_INIT: MarginIdx = 0;
pub const MARGIN_MAX: MarginIdx = 12;
pub const PADDING_INIT: PaddingIdx = 0;
pub const PADDING_MAX: PaddingIdx = 12;
pub const STYLE_INIT: StyleIdx = 0;
pub const STYLE_MAX: StyleIdx = 12;
pub const BORDER_RECT: BorderIdx = 10;
pub const BORDER_MAX: BorderIdx = 11;
pub const FONT_MAX: FontIdx = 255;
pub const ID_MAX: IdIdx = 10;

pub const DOM_DEPTH_MAX: usize = 8;

/// Marker type of the engine.
pub struct Nodem {}

/// `v` clamped to the range of `i16`.
pub open spec fn sat_i16(v: int) -> i16 {
    if v > i16::MAX { i16::MAX } else if v < i16::MIN { i16::MIN } else { v as i16 }
}

/// `v` clamped to the range of `u16`.
pub open spec fn sat_u16(v: int) -> u16 {
    if v > u16::MAX { u16::MAX } else if v < 0 { 0 } else { v as u16 }
}

/// Saturating addition on `i16`.
pub fn i16_saturating_add(a: i16, b: i16) -> (r: i16)
    ensures
        r == sat_i16(a + b),
{
    let s: i32 = a as i32 + b as i32;
    if s > 32767 {
        i16::MAX
    } else if s < -32768 {
        i16::MIN
    } else {
        s as i16
    }
}

/// Saturating subtraction on `i16`.
pub fn i16_saturating_sub(a: i16, b: i16) -> (r: i16)
    ensures
        r == sat_i16(a - b),
{
    let s: i32 = a as i32 - b as i32;
    if s > 32767 {
        i16::MAX
    } else if s < -32768 {
        i16::MIN
    } else {
        s as i16
    }
}

#[derive(Copy, Clone)]
pub struct Point {
    pub x: PosX,
    pub y: PosY,
}

impl Default for Point {
    fn default() -> (r: Self)
        ensures
            r.x == 0 && r.y == 0,
    {
        Point { x: 0, y: 0 }
    }
}

impl Point {
    /// Moves the point to the origin.
    pub fn clear(&mut self)
        ensures
            final(self).x == 0,
            final(self).y == 0,
    {
        self.x = 0;
        self.y = 0;
    }

    /// Component-wise saturating sum.
    pub fn add(self, rhs: Point) -> (r: Point)
        ensures
            r.x == sat_i16(self.x + rhs.x),
            r.y == sat_i16(self.y + rhs.y),
    {
        Point { x: i16_saturating_add(self.x, rhs.x), y: i16_saturating_add(self.y, rhs.y) }
    }
}

#[derive(Copy, Clone)]
pub struct Size {
    pub width: SizeW,
    pub height: SizeH,
}

impl Default for Size {
    fn default() -> (r: Self)
        ensures
            r.width == 0 && r.height == 0,
    {
        Size { width: 0, height: 0 }
    }
}

impl Size {
    /// Sets both dimensions to zero.
    pub fn clear(&mut self)
        ensures
            final(self).width == 0,
            final(self).height == 0,
    {
        self.width = 0;
        self.height = 0;
    }

    /// Component-wise saturating sum.
    pub fn add(self, rhs: Size) -> (r: Size)
        ensures
            r.width == sat_u16(self.width + rhs.width),
            r.height == sat_u16(self.height + rhs.height),
    {
        Size { width: self.width.saturating_add(rhs.width), height: self.height.saturating_add(rhs.height) }
    }

    /// Component-wise saturating difference.
    pub fn sub(self, rhs: Size) -> (r: Size)
        ensures
            r.width == sat_u16(self.width - rhs.width),
            r.height == sat_u16(self.height - rhs.height),
    {
        Size { width: self.width.saturating_sub(rhs.width), height: self.height.saturating_sub(rhs.height) }
    }
}

#[derive(Copy, Clone)]
pub struct Area {
    pub point: Point,
    pub size: Size,
}

impl Default for Area {
    fn default() -> (r: Self)
        ensures
            r.point.x == 0 && r.point.y == 0 && r.size.width == 0 && r.size.height == 0,
    {
        Area { point: Point { x: 0, y: 0 }, size: Size { width: 0, height: 0 } }
    }
}

impl Area {
    /// Resets position and size to zero.
    pub fn clear(&mut self)
        ensures
            final(self).point.x == 0,
            final(self).point.y == 0,
            final(self).size.width == 0,
            final(self).size.height == 0,
    {
        self.point.x = 0;
        self.point.y = 0;
        self.size.width = 0;
        self.size.height = 0;
    }
}

} // verus!
