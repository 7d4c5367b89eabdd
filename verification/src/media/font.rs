use vstd::prelude::*;
use crate::FontIdx;

verus! {

#[derive(PartialEq, Eq, Structural, Copy, Clone)]
pub enum Alignment {
    Proportional,
    Start,
    Center,
    End,
}

#[derive(Copy, Clone)]
pub struct Settings {
    pub default_idx: FontIdx,
    pub active_idx: FontIdx,
    pub mono_spaced: Alignment,
    pub fixed_height: bool,
    pub glyph_spacing: u8,
    pub line_spacing: u8,
    pub space_width: u8,
    pub placeholders: bool,
    pub inverted: bool,
}

/// The default typesetting: font 0, proportional, variable height, one
/// pixel between glyphs and between lines, spaces three pixels wide,
/// placeholders for missing glyphs, not inverted.
pub open spec fn default_settings() -> Settings {
    Settings {
        default_idx: 0,
        active_idx: 0,
        mono_spaced: Alignment::Proportional,
        fixed_height: false,
        glyph_spacing: 1,
        line_spacing: 1,
        space_width: 3,
        placeholders: true,
        inverted: false,
    }
}

impl Settings {
    pub open spec fn is_default(&self) -> bool {
        &&& self.default_idx == 0
        &&& self.active_idx == 0
        &&& self.mono_spaced == Alignment::Proportional
        &&& !self.fixed_height
        &&& self.glyph_spacing == 1
        &&& self.line_spacing == 1
        &&& self.space_width == 3
        &&& self.placeholders
        &&& !self.inverted
    }
}

impl Default for Settings {
    fn default() -> (r: Self)
        ensures
            r.is_default(),
            r == default_settings(),
    {
        Settings {
            default_idx: 0,
            active_idx: 0,
            mono_spaced: Alignment::Proportional,
            fixed_height: false,
            glyph_spacing: 1,
            line_spacing: 1,
            space_width: 3,
            placeholders: true,
            inverted: false,
        }
    }
}

} // verus!

use crate::stream::{le_u16, Stream};
use super::{
    copy_range, ident_matches, matches_ident, s_avail, stored_name, stored_name_of, IdentView,
    Identifier, Media, LIBRARY_MAX, LIB_LEN_MAX,
};

verus! {

pub type FontBaseH = u8;
pub type FontFullH = u8;
pub type FontMonoW = u8;
pub type GlyphIdx = u8;
pub type GlyphW = u8;
pub type GlyphH = u8;
pub type GlyphL = u8;

pub const FONT_HEADER_SIZE: usize = 4;
pub const GLYPH_HEADER_SIZE: usize = 4;

/// A font: metrics and packs of glyphs over ranges of character codes.
pub struct Font {
    pub source: u8,
    pub id: Vec<u8>,
    pub data: Vec<u8>,
    pub pack_count: u8,
    pub base_height: u8,
    pub full_height: u8,
    pub mono_width: u8,
}

impl Font {
    /// The font used where none is found: no glyphs, 3x4 metrics.
    pub open spec fn is_dummy(&self) -> bool {
        &&& self.source == 255
        &&& self.id@.len() == 0
        &&& self.data@ == seq![255u8]
        &&& self.pack_count == 1
        &&& self.base_height == 4
        &&& self.full_height == 4
        &&& self.mono_width == 3
    }
}

impl Default for Font {
    fn default() -> (r: Self)
        ensures
            r.is_dummy(),
    {
        let data: Vec<u8> = vec![255u8];
        assert(data@ =~= seq![255u8]);
        Font { source: 255, id: Vec::new(), data, pack_count: 1, base_height: 4, full_height: 4, mono_width: 3 }
    }
}

/// Where a font entry was found: index, name, start and length of its data.
pub struct FontHit {
    pub idx: u8,
    pub id_start: int,
    pub id_len: int,
    pub start: int,
    pub len: int,
}

/// The font entries of a library from `p` on: index, name length, name,
/// length, then pack count, mono width, base and full height and the packs.
pub open spec fn font_walk(d: Seq<u8>, p: int, ident: IdentView) -> Option<FontHit>
    decreases d.len() - p,
{
    if p < 0 || s_avail(d, p) < 1 || d[p] == 255 {
        None
    } else {
        let idx = d[p];
        let id_len = if s_avail(d, p + 1) >= 1 { d[p + 1] as int } else { 0 };
        let q = if s_avail(d, p + 1) >= 1 { p + 2 } else { p + 1 };
        if s_avail(d, q) >= id_len {
            let r = q + id_len;
            let name = stored_name(d.subrange(q, r));
            if s_avail(d, r) >= 7 + name.len() {
                let fl = le_u16(d[r], d[r + 1]);
                let fp = r + 2;
                if s_avail(d, fp) > fl {
                    if ident_matches(ident, idx, d.subrange(q, r)) {
                        Some(FontHit { idx, id_start: q, id_len, start: fp, len: fl })
                    } else {
                        font_walk(d, fp + fl, ident)
                    }
                } else {
                    None
                }
            } else {
                None
            }
        } else {
            None
        }
    }
}

pub open spec fn font_lookup(libs: Seq<Seq<u8>>, i: int, ident: IdentView) -> Option<(int, FontHit)>
    decreases i + 1,
{
    if i < 0 {
        None
    } else if libs[i].len() == 0 {
        font_lookup(libs, i - 1, ident)
    } else {
        match font_walk(libs[i], 0, ident) {
            Some(h) => Some((i, h)),
            None => font_lookup(libs, i - 1, ident),
        }
    }
}

/// The font that `get_font` returns for the libraries `libs`.
pub open spec fn font_result(libs: Seq<Seq<u8>>, ident: IdentView, r: Font) -> bool {
    match font_lookup(libs, LIBRARY_MAX - 1, ident) {
        Some((li, h)) => if h.len < 4 {
            r.is_dummy()
        } else {
            let d = libs[li];
            &&& r.source == li
            &&& r.id@ == stored_name(d.subrange(h.id_start, h.id_start + h.id_len))
            &&& r.data@ == d.subrange(h.start + 4, h.start + h.len)
            &&& r.pack_count == d[h.start]
            &&& r.mono_width == d[h.start + 1]
            &&& r.base_height == d[h.start + 2]
            &&& r.full_height == d[h.start + 3]
        },
        None => r.is_dummy(),
    }
}

/// What the layout of a text reads of a font: its glyph data and metrics.
pub struct FontMetrics {
    pub data: Seq<u8>,
    pub pack_count: u8,
    pub base_height: u8,
    pub full_height: u8,
    pub mono_width: u8,
}

/// The metrics of a font value.
pub open spec fn metrics_of(f: Font) -> FontMetrics {
    FontMetrics {
        data: f.data@,
        pack_count: f.pack_count,
        base_height: f.base_height,
        full_height: f.full_height,
        mono_width: f.mono_width,
    }
}

/// The metrics of the dummy font.
pub open spec fn dummy_metrics() -> FontMetrics {
    FontMetrics { data: seq![255u8], pack_count: 1, base_height: 4, full_height: 4, mono_width: 3 }
}

/// The metrics of the font that `get_font` finds for `ident` in `libs`.
pub open spec fn font_metrics(libs: Seq<Seq<u8>>, ident: IdentView) -> FontMetrics {
    match font_lookup(libs, LIBRARY_MAX - 1, ident) {
        Some((li, h)) => if h.len < 4 {
            dummy_metrics()
        } else {
            let d = libs[li];
            FontMetrics {
                data: d.subrange(h.start + 4, h.start + h.len),
                pack_count: d[h.start],
                mono_width: d[h.start + 1],
                base_height: d[h.start + 2],
                full_height: d[h.start + 3],
            }
        },
        None => dummy_metrics(),
    }
}

/// The bytes of the glyph of `chr` (its code taken modulo 256) in a font
/// with metrics `m`.
pub open spec fn glyph_of(m: FontMetrics, chr: char) -> Seq<u8> {
    match glyph_walk(m.data, 0, m.pack_count as nat, chr as int % 256) {
        Some((s, e)) => m.data.subrange(s, e),
        None => dummy_glyph(),
    }
}

fn find_font(d: &[u8], ident: &Identifier) -> (r: Option<(u8, usize, usize, usize, usize)>)
    requires
        d@.len() <= LIB_LEN_MAX,
    ensures
        r matches Some(t) ==> font_walk(d@, 0, ident@) == Some(
            FontHit { idx: t.0, id_start: t.1 as int, id_len: t.2 as int, start: t.3 as int, len: t.4 as int },
        ),
        r is None ==> font_walk(d@, 0, ident@) is None,
        r matches Some(t) ==> t.3 + t.4 < d@.len() && t.1 + t.2 <= d@.len(),
{
    let mut reader = Stream::new(d);
    loop
        invariant
            d@.len() <= LIB_LEN_MAX,
            reader.data_view() == d@,
            0 <= reader.pos_view() <= d@.len(),
            font_walk(d@, reader.pos_view(), ident@) == font_walk(d@, 0, ident@),
        decreases d@.len() - reader.pos_view(),
    {
        if reader.available() >= 1 {
            let idx = reader.read_u8();
            if idx == 255 {
                return None;
            }
            let id_len = reader.read_u8() as usize;
            if reader.available() >= id_len {
                let q = reader.get_pos();
                let rr = q + id_len;
                let name = stored_name_of(&d[q..rr]);
                reader.set_pos(rr);
                if reader.available() >= 7 + name.len() {
                    let font_length = reader.read_u16() as usize;
                    let font_pos = reader.get_pos();
                    if reader.available() > font_length {
                        if matches_ident(ident, idx, &d[q..rr]) {
                            return Some((idx, q, id_len, font_pos, font_length));
                        }
                    } else {
                        return None;
                    }
                    reader.set_pos(font_pos + font_length);
                } else {
                    return None;
                }
            } else {
                return None;
            }
        } else {
            return None;
        }
    }
}

/// One byte read at `p`: the value and the next position.
pub open spec fn rd8(d: Seq<u8>, p: int) -> (int, int) {
    if 0 <= p < d.len() { (d[p] as int, p + 1) } else { (0, p) }
}

/// A little-endian `u16` read at `p`: the value and the next position.
pub open spec fn rd16(d: Seq<u8>, p: int) -> (int, int) {
    if 0 <= p && s_avail(d, p) > 2 { (le_u16(d[p], d[p + 1]), p + 2) } else { (0, p) }
}

/// The glyph of character code `c` in the `n` packs from `p` on, as a range
/// of the font data; `None` where there is none or the pack is malformed.
pub open spec fn glyph_walk(d: Seq<u8>, p: int, n: nat, c: int) -> Option<(int, int)>
    decreases n,
{
    if n == 0 {
        None
    } else {
        let first = rd8(d, p).0;
        let last = rd8(d, rd8(d, p).1).0;
        let p2 = rd8(d, rd8(d, p).1).1;
        if first > last {
            None
        } else {
            let pack_len = rd16(d, p2).0;
            let pack_pos = rd16(d, p2).1;
            let pack_end = rd16(d, pack_pos + (last - first) * 2).0;
            if first <= c <= last {
                let gi = c - first;
                let data_pos = pack_pos + (last - first + 1) * 2;
                let gp = if gi > 0 { rd16(d, pack_pos + (gi - 1) * 2).0 } else { 0 };
                let gpn = rd16(d, pack_pos + gi * 2).0;
                if gp >= gpn || gp + 4 >= pack_end {
                    None
                } else if d.len() >= data_pos + gpn {
                    Some((data_pos + gp, data_pos + gpn))
                } else {
                    None
                }
            } else {
                glyph_walk(d, pack_pos + pack_len, (n - 1) as nat, c)
            }
        }
    }
}

/// The glyph drawn where a font has none: zero width and height.
pub open spec fn dummy_glyph() -> Seq<u8> {
    seq![0u8, 0u8]
}

pub fn dummy_glyph_data() -> (r: Vec<u8>)
    ensures
        r@ == dummy_glyph(),
{
    let r: Vec<u8> = vec![0u8, 0u8];
    assert(r@ =~= dummy_glyph());
    r
}

impl Media {
    /// The font `ident` names, looked up from the last source down; the
    /// dummy font where there is none or the entry is too short.
    pub fn get_font(&self, ident: Identifier) -> (r: Font)
        requires
            self.wf(),
        ensures
            font_result(self.libs().fonts, ident@, r),
            metrics_of(r) == font_metrics(self.libs().fonts, ident@),
            r.data@.len() <= LIB_LEN_MAX,
    {
        let mut i: usize = LIBRARY_MAX as usize;
        while i > 0
            invariant
                self.wf(),
                i <= LIBRARY_MAX,
                font_lookup(self.libs().fonts, i - 1, ident@) == font_lookup(
                    self.libs().fonts,
                    LIBRARY_MAX - 1,
                    ident@,
                ),
            decreases i,
        {
            i -= 1;
            let d = self.fonts[i].data.as_slice();
            assert(self.libs().fonts[i as int] == d@);
            if d.len() != 0 {
                match find_font(d, &ident) {
                    Some((idx, q, id_len, pos, len)) => {
                        if len < 4 {
                            return Font::default();
                        }
                        return Font {
                            source: i as u8,
                            id: stored_name_of(&d[q..q + id_len]),
                            data: copy_range(d, pos + 4, pos + len),
                            pack_count: d[pos],
                            mono_width: d[pos + 1],
                            base_height: d[pos + 2],
                            full_height: d[pos + 3],
                        };
                    },
                    None => {},
                }
            }
        }
        Font::default()
    }

    /// The glyph of `chr` (its code taken modulo 256) in `font`: a header of
    /// width, height and two offsets, then the pixel stream.
    pub fn get_glyph(&self, font: &Font, chr: char) -> (r: Vec<u8>)
        requires
            font.data@.len() <= LIB_LEN_MAX,
        ensures
            match glyph_walk(font.data@, 0, font.pack_count as nat, chr as int % 256) {
                Some((s, e)) => r@ == font.data@.subrange(s, e),
                None => r@ == dummy_glyph(),
            },
            r@ == glyph_of(metrics_of(*font), chr),
    {
        let d = font.data.as_slice();
        let c: usize = ((chr as u32) % 256) as usize;
        let mut reader = Stream::new(d);
        let mut k: u8 = 0;
        while k < font.pack_count
            invariant
                d@ == font.data@,
                d@.len() <= LIB_LEN_MAX,
                reader.data_view() == d@,
                0 <= reader.pos_view() <= d@.len() + 70000 * k,
                k <= font.pack_count,
                c == chr as int % 256,
                glyph_walk(d@, reader.pos_view(), (font.pack_count - k) as nat, c as int) == glyph_walk(
                    d@,
                    0,
                    font.pack_count as nat,
                    c as int,
                ),
            decreases font.pack_count - k,
        {
            let first_no = reader.read_u8() as usize;
            let last_no = reader.read_u8() as usize;
            if first_no > last_no {
                return dummy_glyph_data();
            }
            let pack_len = reader.read_u16() as usize;
            let pack_pos = reader.get_pos();
            reader.set_pos(pack_pos + (last_no - first_no) * 2);
            let pack_end = reader.read_u16() as usize;
            if c >= first_no && c <= last_no {
                let glyph_idx = c - first_no;
                let data_pos = pack_pos + (last_no - first_no + 1) * 2;
                let mut glyph_pos: usize = 0;
                if glyph_idx > 0 {
                    reader.set_pos(pack_pos + (glyph_idx - 1) * 2);
                    glyph_pos = reader.read_u16() as usize;
                }
                reader.set_pos(pack_pos + glyph_idx * 2);
                let glyph_pos_next = reader.read_u16() as usize;
                if glyph_pos >= glyph_pos_next || glyph_pos + 4 >= pack_end {
                    return dummy_glyph_data();
                }
                if d.len() >= data_pos + glyph_pos_next {
                    return copy_range(d, data_pos + glyph_pos, data_pos + glyph_pos_next);
                }
                return dummy_glyph_data();
            }
            reader.set_pos(pack_pos + pack_len);
            k += 1;
        }
        dummy_glyph_data()
    }
}

} // verus!
