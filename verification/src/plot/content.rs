use vstd::prelude::*;
use crate::{Point, Size};
use crate::media::{str_of_utf8, stored_name, Identifier};
use crate::media::IdentView;
use crate::surface::Surface;
use crate::surface::font::{text_drawn, text_size};
use vstd::string::StringSliceAdditionalSpecFns;
use vstd::utf8::decode_utf8;

verus! {

/// The characters of a content: its bytes decoded where they are UTF-8,
/// else none.
pub open spec fn content_chars(raw: Seq<u8>) -> Seq<char> {
    decode_utf8(stored_name(raw))
}

/// The text of a node, as its UTF-8 bytes.
pub struct Content {
    pub raw: Vec<u8>,
}

impl Default for Content {
    fn default() -> (r: Self)
        ensures
            r.raw@.len() == 0,
    {
        Content { raw: Vec::new() }
    }
}

impl Content {
    pub fn reset(&mut self)
        ensures
            final(self).raw@.len() == 0,
    {
        self.raw = Vec::new();
    }

    /// The text; empty where the bytes are not UTF-8.
    pub fn as_str(&self) -> (r: &str)
        ensures
            r.spec_bytes() == stored_name(self.raw@),
    {
        str_of_utf8(self.raw.as_slice())
    }

    /// The size of the text in the active font of `surface`.
    pub fn get_size(&self, surface: &mut Surface) -> (r: Size)
        requires
            old(surface).wf(),
        ensures
            final(surface).same_but_pixels(old(surface)),
            final(surface).fb() == old(surface).fb(),
            r == text_size(
                old(surface).media.libs(),
                IdentView::Index(old(surface).media.typesetting.active_idx),
                old(surface).media.drawing,
                old(surface).media.typesetting,
                Point { x: 0, y: 0 },
                content_chars(self.raw@),
            ),
    {
        let idx = surface.media.typesetting.active_idx;
        let text = self.as_str();
        proof {
            vstd::utf8::encode_utf8_decode_utf8(text@);
        }
        surface.get_text_size(Identifier::Index(idx), text)
    }

    /// Draws the text in the active font of `surface` from `position`.
    pub fn draw(&self, surface: &mut Surface, position: Point)
        requires
            old(surface).wf(),
        ensures
            final(surface).same_but_pixels(old(surface)),
            final(surface).fb() == text_drawn(
                *old(surface),
                IdentView::Index(old(surface).media.typesetting.active_idx),
                position,
                content_chars(self.raw@),
            ),
    {
        let idx = surface.media.typesetting.active_idx;
        let text = self.as_str();
        proof {
            vstd::utf8::encode_utf8_decode_utf8(text@);
        }
        surface.draw_text(Identifier::Index(idx), text, position);
    }
}

} // verus!
