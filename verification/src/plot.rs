//! The layout record of a node: indices of its content, margin, padding and
//! style, and its requested size.

use vstd::prelude::*;
use crate::{
    ContentIdx, MarginIdx, PaddingIdx, Size, SizeH, SizeW, StyleIdx, CONTENT_MAX, MARGIN_INIT,
    PADDING_INIT, STYLE_INIT,
};

pub mod content;

verus! {

pub const WIDTH_CONTENT: SizeW = 65535;
pub const HEIGHT_CONTENT: SizeH = 65535;

#[derive(Copy, Clone)]
pub struct Plot {
    pub content_idx: ContentIdx,
    pub margin_idx: MarginIdx,
    pub padding_idx: PaddingIdx,
    pub style_idx: StyleIdx,
    pub size: Size,
}

impl Plot {
    /// No content, the shared zero margin, padding and style, sized to content.
    pub open spec fn is_fresh(&self) -> bool {
        &&& self.content_idx == CONTENT_MAX
        &&& self.margin_idx == MARGIN_INIT
        &&& self.padding_idx == PADDING_INIT
        &&& self.style_idx == STYLE_INIT
        &&& self.size.width == WIDTH_CONTENT
        &&& self.size.height == HEIGHT_CONTENT
    }

    pub fn reset(&mut self)
        ensures
            final(self).is_fresh(),
    {
        self.margin_idx = MARGIN_INIT;
        self.content_idx = CONTENT_MAX;
        self.padding_idx = PADDING_INIT;
        self.style_idx = STYLE_INIT;
        self.size.width = WIDTH_CONTENT;
        self.size.height = HEIGHT_CONTENT;
    }
}

impl Default for Plot {
    fn default() -> (r: Self)
        ensures
            r.is_fresh(),
    {
        Plot {
            content_idx: CONTENT_MAX,
            margin_idx: MARGIN_INIT,
            padding_idx: PADDING_INIT,
            style_idx: STYLE_INIT,
            size: Size { width: WIDTH_CONTENT, height: HEIGHT_CONTENT },
        }
    }
}

} // verus!
