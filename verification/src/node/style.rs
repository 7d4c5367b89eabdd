use vstd::prelude::*;
use crate::{BorderIdx, Color, FontIdx, BORDER_MAX, FONT_MAX};

verus! {

#[derive(Copy, Clone)]
pub struct Style {
    pub color: Color,
    pub background: Color,
    pub border_idx: BorderIdx,
    pub font_idx: FontIdx,
}

impl Style {
    /// Foreground 1, no background, no border, the inherited font.
    pub open spec fn is_default(&self) -> bool {
        &&& self.color == 1
        &&& self.background == 255
        &&& self.border_idx == BORDER_MAX
        &&& self.font_idx == FONT_MAX
    }

    pub fn reset(&mut self)
        ensures
            final(self).is_default(),
    {
        self.color = 1;
        self.background = Color::MAX;
        self.border_idx = BORDER_MAX;
        self.font_idx = FONT_MAX;
    }

    pub fn set_background(&mut self, color: Color)
        ensures
            *final(self) == (Style { background: color, ..*old(self) }),
    {
        self.background = color;
    }

    pub fn set_color(&mut self, color: Color)
        ensures
            *final(self) == (Style { color: color, ..*old(self) }),
    {
        self.color = color;
    }

    /// Border indices above `BORDER_MAX` are refused and mean no border.
    pub fn set_border(&mut self, border: BorderIdx)
        ensures
            *final(self) == (Style {
                border_idx: if border > BORDER_MAX { BORDER_MAX } else { border },
                ..*old(self)
            }),
    {
        if border > BORDER_MAX {
            self.border_idx = BORDER_MAX;
        } else {
            self.border_idx = border;
        }
    }

    pub fn set_font(&mut self, font: FontIdx)
        ensures
            *final(self) == (Style { font_idx: font, ..*old(self) }),
    {
        self.font_idx = font;
    }
}

impl Default for Style {
    fn default() -> (r: Self)
        ensures
            r.is_default(),
    {
        Style { color: 1, background: Color::MAX, border_idx: BORDER_MAX, font_idx: FONT_MAX }
    }
}

} // verus!
