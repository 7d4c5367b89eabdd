use vstd::prelude::*;
use crate::{i16_saturating_add, i16_saturating_sub, Area, Point, PosX, PosY, Size, SizeH, SizeW};
use crate::decimal::{find_char, first_of, parse_u8, spec_parse_u8, str_is};
use crate::media::{IdentView, Identifier, MediaLibs, LIB_LEN_MAX};
use crate::media::font::{font_metrics, glyph_of, metrics_of, Alignment, Font, FontMetrics};
use crate::media::image::image_data_spec;
use crate::{sat_i16};
use vstd::utf8::encode_utf8;
use crate::media::image::IMAGE_TYPE_INDEXED1;
use crate::media::{font, image};
use crate::xmlparser::{str_trim, trim};
use super::{rect_spec, Clip, Surface, DRAWING, FONT, IMAGE, TYPESETTING};
use super::image::{image_draw_spec, reader_start, render_run};
use crate::media::image::image_mask_spec;

verus! {

/// The image drawing settings after option `option`: 0 and 1 switch the mask
/// off and on, 2 and 3 switch inversion off and on; others change nothing.
pub open spec fn drawing_after(d: image::Settings, option: u8) -> image::Settings {
    if option == 0 {
        image::Settings { use_mask: false, ..d }
    } else if option == 1 {
        image::Settings { use_mask: true, ..d }
    } else if option == 2 {
        image::Settings { inverted: false, ..d }
    } else if option == 3 {
        image::Settings { inverted: true, ..d }
    } else {
        d
    }
}

/// The typesetting settings after option `option` with `value`: 0 to 3 pick
/// the alignment, 4 and 5 inversion, 6 and 7 fixed height, 8 to 10 set the
/// space width, the line spacing and the glyph spacing to `value`.
pub open spec fn typesetting_after(t: font::Settings, option: u8, value: u8) -> font::Settings {
    if option == 0 {
        font::Settings { mono_spaced: Alignment::Proportional, ..t }
    } else if option == 1 {
        font::Settings { mono_spaced: Alignment::Start, ..t }
    } else if option == 2 {
        font::Settings { mono_spaced: Alignment::Center, ..t }
    } else if option == 3 {
        font::Settings { mono_spaced: Alignment::End, ..t }
    } else if option == 4 {
        font::Settings { inverted: false, ..t }
    } else if option == 5 {
        font::Settings { inverted: true, ..t }
    } else if option == 6 {
        font::Settings { fixed_height: false, ..t }
    } else if option == 7 {
        font::Settings { fixed_height: true, ..t }
    } else if option == 8 {
        font::Settings { space_width: value, ..t }
    } else if option == 9 {
        font::Settings { line_spacing: value, ..t }
    } else if option == 10 {
        font::Settings { glyph_spacing: value, ..t }
    } else {
        t
    }
}

/// Applies an image drawing option.
pub fn apply_drawing(drawing: &mut image::Settings, option: u8)
    ensures
        *final(drawing) == drawing_after(*old(drawing), option),
{
    match option {
        0x00 => { drawing.use_mask = false; },
        0x01 => { drawing.use_mask = true; },
        0x02 => { drawing.inverted = false; },
        0x03 => { drawing.inverted = true; },
        _ => {},
    }
}

/// Applies a typesetting option.
pub fn apply_typesetting(typesetting: &mut font::Settings, option: u8, value: u8)
    ensures
        *final(typesetting) == typesetting_after(*old(typesetting), option, value),
{
    match option {
        0x00 => typesetting.mono_spaced = Alignment::Proportional,
        0x01 => typesetting.mono_spaced = Alignment::Start,
        0x02 => typesetting.mono_spaced = Alignment::Center,
        0x03 => typesetting.mono_spaced = Alignment::End,
        0x04 => typesetting.inverted = false,
        0x05 => typesetting.inverted = true,
        0x06 => typesetting.fixed_height = false,
        0x07 => typesetting.fixed_height = true,
        0x08 => typesetting.space_width = value,
        0x09 => typesetting.line_spacing = value,
        0x0A => typesetting.glyph_spacing = value,
        _ => {},
    }
}

/// The name of an instruction: what stands before its first `:`.
pub open spec fn instr_name(instr: Seq<char>) -> Seq<char> {
    instr.subrange(0, first_of(instr, ':', 0))
}

/// The value of an instruction: what stands between its first and its second
/// `:`, where it has a `:`.
pub open spec fn instr_value(instr: Seq<char>) -> Option<Seq<char>> {
    let i = first_of(instr, ':', 0);
    if i >= instr.len() {
        None
    } else {
        Some(instr.subrange(i + 1, first_of(instr, ':', i + 1)))
    }
}

/// The number an instruction value gives: the trimmed value as a `u8`, 255
/// where it is no such number, 0 where there is no value.
pub open spec fn value_num(v: Option<Seq<char>>) -> u8 {
    match v {
        Some(s) => match spec_parse_u8(str_trim(s)) {
            Some(b) => b,
            None => 255,
        },
        None => 0,
    }
}

/// The typesetting option an instruction name selects; 255 for none.
pub open spec fn typesetting_code(name: Seq<char>) -> u8 {
    if name == "prop"@ {
        0x00
    } else if name == "mons"@ {
        0x01
    } else if name == "mono"@ {
        0x02
    } else if name == "mone"@ {
        0x03
    } else if name == "tnrm"@ {
        0x04
    } else if name == "tinv"@ {
        0x05
    } else if name == "fixh"@ {
        0x06
    } else if name == "varh"@ {
        0x07
    } else if name == "spac"@ {
        0x08
    } else if name == "line"@ {
        0x09
    } else if name == "kern"@ {
        0x0A
    } else {
        255
    }
}

/// The drawing option an instruction name selects; 255 for none.
pub open spec fn drawing_code(name: Seq<char>) -> u8 {
    if name == "flat"@ {
        0
    } else if name == "mask"@ {
        1
    } else if name == "nrm"@ {
        2
    } else if name == "inv"@ {
        3
    } else {
        255
    }
}

/// `a + b`, or `a` where the sum leaves the range of `i8`.
pub open spec fn add_or_keep(a: i8, b: i8) -> i8 {
    if i8::MIN <= a + b <= i8::MAX {
        (a + b) as i8
    } else {
        a
    }
}

/// The offsets a glyph `g` is drawn at: its own, moved to the middle or the
/// end of the mono width where the font is set mono spaced, and down to the
/// middle of the full height where the height is fixed.
pub open spec fn glyph_offsets(m: FontMetrics, t: font::Settings, g: Seq<u8>) -> (i8, i8) {
    let width = g[0];
    let height = g[1];
    let mono_gap: u8 = if m.mono_width >= width { (m.mono_width - width) as u8 } else { 0 };
    let x_off: i8 = match t.mono_spaced {
        Alignment::Center => add_or_keep(g[2] as i8, (mono_gap / 2) as i8),
        Alignment::End => add_or_keep(g[2] as i8, mono_gap as i8),
        _ => g[2] as i8,
    };
    let height_gap: u8 = if m.full_height >= height { (m.full_height - height) as u8 } else { 0 };
    let y_off: i8 = if t.fixed_height { add_or_keep(g[3] as i8, (height_gap / 2) as i8) } else { g[3] as i8 };
    (x_off, y_off)
}

/// Where a glyph leaves the cursor's column `x` and the height of the line
/// `lh`: an empty glyph with placeholders on takes the mono width; a glyph
/// takes its width plus its offset (the mono width where the font is set
/// mono spaced) and the glyph spacing, and raises the line to its top.
pub open spec fn glyph_layout(m: FontMetrics, t: font::Settings, chr: char, x: i16, lh: i16) -> (i16, i16) {
    let g = glyph_of(m, chr);
    if g.len() < 1 {
        (x, lh)
    } else if g[0] == 0 && t.placeholders {
        (sat_i16(x + (m.mono_width + t.glyph_spacing)), lh)
    } else if g.len() >= 4 {
        let width = g[0];
        let height = g[1];
        let (x_off, y_off) = glyph_offsets(m, t, g);
        let adv: int = match t.mono_spaced {
            Alignment::Proportional => width + x_off,
            _ => m.mono_width as int,
        };
        let top: int = height + y_off;
        (sat_i16(x + (adv + t.glyph_spacing)), if lh < top { top as i16 } else { lh })
    } else {
        (x, lh)
    }
}

/// What text is drawn on: the size, clip and palette of a surface.
pub struct Canvas {
    pub width: u16,
    pub height: u16,
    pub clip: Clip,
    pub palette: Seq<u8>,
}

/// The canvas of a surface.
pub open spec fn canvas_of(s: Surface) -> Canvas {
    Canvas { width: s.width, height: s.height, clip: s.clip, palette: s.palette@ }
}

/// The pixels after drawing the glyph of `chr` with its top left corner at
/// `cursor` (plus its offsets) on `cv`: a placeholder box of the mono width
/// and base height for an empty glyph where placeholders are on, else the
/// glyph's pixel stream.
pub open spec fn glyph_fb(cv: Canvas, m: FontMetrics, t: font::Settings, chr: char, cursor: Point, fb: Seq<u8>) -> Seq<u8> {
    let g = glyph_of(m, chr);
    if g.len() < 1 {
        fb
    } else if g[0] == 0 && t.placeholders {
        rect_spec(
            fb,
            cv.width,
            cv.height,
            cv.clip,
            Area { point: cursor, size: Size { width: m.mono_width as u16, height: m.base_height as u16 } },
            if t.inverted { cv.palette[0] } else { cv.palette[1] },
        )
    } else if g.len() >= 4 {
        let (x_off, y_off) = glyph_offsets(m, t, g);
        let at = Point { x: sat_i16(cursor.x + x_off), y: sat_i16(cursor.y + y_off) };
        let d = g.subrange(4, g.len() as int);
        render_run(d, reader_start(d), fb, cv.width as int, cv.height, cv.clip, cv.palette, (g[0] * g[1]) as nat, at.x as int, at.y as int, 0, at.x as int, g[0] as int, t.inverted, 0)
    } else {
        fb
    }
}

/// The state of the layout of a text between two of its characters.
pub struct TextState {
    pub font: FontMetrics,
    pub drawing: image::Settings,
    pub typesetting: font::Settings,
    pub cursor: Point,
    pub size_w: u16,
    pub line_height: i16,
    pub instr_start: Option<int>,
    pub instr_len: int,
    pub value: Option<Seq<char>>,
    pub kind: u8,
    pub arg1: u8,
    pub arg2: u8,
    pub fb: Seq<u8>,
}

/// After a character: go on with the next one, or stop.
pub enum TextStep {
    Next(TextState),
    Stop(TextState),
}

/// What a closing brace does: the instruction `instr` between the braces is
/// read into the state; `{nl}` and `{br}` then count as a line break (the
/// second component).
pub open spec fn close_instruction_spec(st: TextState, instr: Seq<char>) -> (TextState, bool) {
    let name = str_trim(instr_name(instr));
    let value = instr_value(instr);
    let b = TextState { instr_start: None, value: value, ..st };
    if name == "nl"@ || name == "br"@ {
        (TextState { kind: 0, ..b }, true)
    } else if name == "img"@ {
        (TextState { kind: 1, arg1: value_num(value), ..b }, false)
    } else if name == "font"@ {
        (TextState { kind: 2, arg1: value_num(value), ..b }, false)
    } else if typesetting_code(name) != 255 {
        (TextState { kind: 4, arg1: typesetting_code(name), arg2: value_num(value), ..b }, false)
    } else if drawing_code(name) != 255 {
        (TextState { kind: 3, arg1: drawing_code(name), ..b }, false)
    } else {
        (TextState { kind: 255, ..b }, false)
    }
}

/// The entry an instruction's argument names: by index, or by index or by
/// the instruction's value as a name.
pub open spec fn instr_ident(st: TextState) -> IdentView {
    match st.value {
        Some(v) => IdentView::Both(st.arg1, encode_utf8(v)),
        None => IdentView::Index(st.arg1),
    }
}

/// What the pending instruction does (an image moves the cursor past it, a
/// font, drawing or typesetting instruction switches), and how wide the
/// text has become; images are drawn on the canvas where there is one.
pub open spec fn finish_spec(libs: MediaLibs, cv: Option<Canvas>, st: TextState) -> TextState {
    let c = if st.kind == 1 {
        let d = image_data_spec(libs.images, instr_ident(st));
        let w: int = if d.len() >= 3 { d[1] as int } else { 0 };
        let h: int = if d.len() >= 3 { d[2] as int } else { 0 };
        let fb = match cv {
            Some(v) => image_draw_spec(
                st.fb,
                v.width,
                v.height,
                v.clip,
                v.palette,
                d,
                image_mask_spec(libs.images, instr_ident(st)),
                st.cursor,
                st.drawing,
            ),
            None => st.fb,
        };
        TextState {
            cursor: Point { x: sat_i16(sat_i16(st.cursor.x + w) + st.typesetting.glyph_spacing), ..st.cursor },
            line_height: if st.line_height < h { h as i16 } else { st.line_height },
            fb: fb,
            ..st
        }
    } else if st.kind == 2 {
        TextState { font: font_metrics(libs.fonts, instr_ident(st)), ..st }
    } else if st.kind == 3 {
        TextState { drawing: drawing_after(st.drawing, st.arg1), ..st }
    } else if st.kind == 4 {
        TextState { typesetting: typesetting_after(st.typesetting, st.arg1, st.arg2), ..st }
    } else {
        st
    };
    let right = sat_i16(c.cursor.x - c.typesetting.glyph_spacing);
    let cur = c.size_w as i16;
    TextState { kind: 0, size_w: (if cur < right { right } else { cur }) as u16, ..c }
}

/// What character `i` of `text` does to a pending instruction: a closing
/// brace reads it (a line break where it is `{nl}` or `{br}`), any other
/// character inside braces counts towards it. Gives the state and the
/// character to lay out.
pub open spec fn text_pre(text: Seq<char>, st: TextState, i: int) -> (TextState, char) {
    let c0 = text[i];
    match st.instr_start {
        Some(s) => if c0 == '}' {
            let (a, newline) = close_instruction_spec(st, text.subrange(s, s + st.instr_len));
            (a, if newline { '\n' } else { c0 })
        } else {
            (TextState { instr_len: st.instr_len + 1, ..st }, c0)
        },
        None => (st, c0),
    }
}

/// How the character `chr` at `i` moves the layout before the pending
/// instruction is carried out: the state, and whether the layout then goes
/// on (0), stops (1) or goes on with an instruction just opened (2).
pub open spec fn text_move(cv: Option<Canvas>, start: Point, text: Seq<char>, a: TextState, chr: char, i: int) -> (TextState, u8) {
    if a.kind == 0 && a.instr_start is None {
        let b = if a.typesetting.fixed_height { TextState { line_height: a.font.full_height as i16, ..a } } else { a };
        if chr == '\x00' {
            (b, 1)
        } else if chr == IMAGE || chr == FONT || chr == DRAWING || chr == TYPESETTING {
            if i + 1 >= text.len() {
                (b, 1)
            } else {
                (TextState { kind: chr as u8, arg1: ((text[i + 1] as u32) % 256) as u8, ..b }, 0)
            }
        } else if chr == '\n' {
            (TextState {
                cursor: Point { x: start.x, y: sat_i16(b.cursor.y + (b.line_height + b.typesetting.line_spacing)) },
                line_height: 0,
                ..b
            }, 0)
        } else if chr == ' ' {
            let adv: int = match b.typesetting.mono_spaced {
                Alignment::Proportional => b.typesetting.space_width as int,
                _ => b.font.mono_width as int,
            };
            (TextState {
                cursor: Point { x: sat_i16(b.cursor.x + (adv + b.typesetting.glyph_spacing)), ..b.cursor },
                line_height: b.font.base_height as i16,
                ..b
            }, 0)
        } else {
            let chr2 = if chr == '{' && i + 1 < text.len() { text[i + 1] } else { chr };
            if chr == '{' && chr2 != '{' {
                (TextState { instr_start: Some(i + 1), instr_len: 0, ..b }, 2)
            } else {
                let (x, lh) = glyph_layout(b.font, b.typesetting, chr2, b.cursor.x, b.line_height);
                let fb = match cv {
                    Some(v) => glyph_fb(v, b.font, b.typesetting, chr2, b.cursor, b.fb),
                    None => b.fb,
                };
                (TextState { cursor: Point { x: x, ..b.cursor }, line_height: lh, fb: fb, ..b }, 0)
            }
        }
    } else {
        (a, 0)
    }
}

/// What character `i` of `text` does to the layout started at `start`:
/// control characters 1 to 4 take the next character as an instruction's
/// argument, 0 stops the text, line breaks return to the start column one
/// line further down, spaces advance by the space width (the mono width
/// where mono spaced), `{` opens an instruction (`{{` is a brace), other
/// characters are glyphs; then the pending instruction is carried out.
pub open spec fn text_step(libs: MediaLibs, cv: Option<Canvas>, start: Point, text: Seq<char>, st: TextState, i: int) -> TextStep {
    let (a, chr) = text_pre(text, st, i);
    let (m, outcome) = text_move(cv, start, text, a, chr, i);
    if outcome == 1 {
        TextStep::Stop(m)
    } else if outcome == 2 {
        TextStep::Next(m)
    } else {
        TextStep::Next(finish_spec(libs, cv, m))
    }
}

/// The layout state after the characters of `text` from `i` on, until the
/// end or a character that stops it.
pub open spec fn text_run(libs: MediaLibs, cv: Option<Canvas>, start: Point, text: Seq<char>, st: TextState, i: int) -> TextState
    decreases text.len() - i,
{
    if i < 0 || i >= text.len() {
        st
    } else {
        match text_step(libs, cv, start, text, st, i) {
            TextStep::Stop(s) => s,
            TextStep::Next(s) => text_run(libs, cv, start, text, s, i + 1),
        }
    }
}

/// The state a layout starts in.
pub open spec fn text_start(font: FontMetrics, drawing: image::Settings, typesetting: font::Settings, start: Point, fb: Seq<u8>) -> TextState {
    TextState {
        font: font,
        drawing: drawing,
        typesetting: typesetting,
        cursor: start,
        size_w: 0,
        line_height: 0,
        instr_start: None,
        instr_len: 0,
        value: None,
        kind: 0,
        arg1: 0,
        arg2: 0,
        fb: fb,
    }
}

/// The size that `text` takes in font `ident` of `libs` from `start`, with
/// the given drawing and typesetting settings: the widest extent of the
/// cursor, and its line plus the height of the last line.
pub open spec fn text_size(
    libs: MediaLibs,
    ident: IdentView,
    drawing: image::Settings,
    typesetting: font::Settings,
    start: Point,
    text: Seq<char>,
) -> Size {
    let st = text_run(libs, None, start, text, text_start(font_metrics(libs.fonts, ident), drawing, typesetting, start, Seq::empty()), 0);
    Size { width: st.size_w, height: sat_i16(st.cursor.y + st.line_height) as u16 }
}

/// The pixels `fb` after drawing `text` on `cv` in font `ident` of `libs`
/// from `start` with the given settings, glyph by glyph and image by image as
/// `text_step` lays them out.
pub open spec fn text_drawn_on(
    libs: MediaLibs,
    cv: Canvas,
    drawing: image::Settings,
    typesetting: font::Settings,
    ident: IdentView,
    start: Point,
    text: Seq<char>,
    fb: Seq<u8>,
) -> Seq<u8> {
    text_run(libs, Some(cv), start, text, text_start(font_metrics(libs.fonts, ident), drawing, typesetting, start, fb), 0).fb
}

/// The pixels of the surface `s` after drawing `text` in font `ident` from
/// `start` (see `text_drawn_on`).
pub open spec fn text_drawn(s: Surface, ident: IdentView, start: Point, text: Seq<char>) -> Seq<u8> {
    text_drawn_on(s.media.libs(), canvas_of(s), s.media.drawing, s.media.typesetting, ident, start, text, s.fb())
}

/// Two layout states that differ in their pixels at most.
pub open spec fn same_but_fb(a: TextState, b: TextState) -> bool {
    (TextState { fb: b.fb, ..a }) == b
}

/// One step of a layout does not depend on the pixels or on whether it
/// draws: only the pixels after it differ.
#[verifier::spinoff_prover]
#[verifier::rlimit(100)]
proof fn lemma_step_fb_free(libs: MediaLibs, cv: Option<Canvas>, start: Point, text: Seq<char>, a: TextState, b: TextState, i: int)
    requires
        same_but_fb(a, b),
        0 <= i < text.len(),
    ensures
        match (text_step(libs, cv, start, text, a, i), text_step(libs, None, start, text, b, i)) {
            (TextStep::Next(x), TextStep::Next(y)) => same_but_fb(x, y),
            (TextStep::Stop(x), TextStep::Stop(y)) => same_but_fb(x, y),
            _ => false,
        },
{
}

/// How a text is laid out does not depend on the pixels it is drawn on or
/// whether it is drawn at all: only the pixels differ.
proof fn lemma_text_fb_free(libs: MediaLibs, cv: Option<Canvas>, start: Point, text: Seq<char>, a: TextState, b: TextState, i: int)
    requires
        same_but_fb(a, b),
    ensures
        same_but_fb(text_run(libs, cv, start, text, a, i), text_run(libs, None, start, text, b, i)),
    decreases text.len() - i,
{
    if 0 <= i < text.len() {
        lemma_step_fb_free(libs, cv, start, text, a, b, i);
        match (text_step(libs, cv, start, text, a, i), text_step(libs, None, start, text, b, i)) {
            (TextStep::Next(x), TextStep::Next(y)) => {
                lemma_text_fb_free(libs, cv, start, text, x, y, i + 1);
            },
            _ => {},
        }
    }
}

/// The view of an optional string.
pub open spec fn opt_view(o: Option<&str>) -> Option<Seq<char>> {
    match o {
        Some(v) => Some(v@),
        None => None,
    }
}

/// The first two `:`-separated parts of `instr`: its name, and its value where
/// it has one.
fn split_instruction<'a>(instr: &'a str) -> (r: (&'a str, Option<&'a str>))
    ensures
        r.0@ == instr_name(instr@),
        opt_view(r.1) == instr_value(instr@),
{
    let n = instr.unicode_len();
    let i = find_char(instr, ':', 0);
    let name = instr.substring_char(0, i);
    if i == n {
        return (name, None);
    }
    let j = find_char(instr, ':', i + 1);
    (name, Some(instr.substring_char(i + 1, j)))
}

/// The number an instruction value gives (see `value_num`).
fn value_u8(value: Option<&str>) -> (r: u8)
    ensures
        r == value_num(opt_view(value)),
{
    match value {
        Some(v) => match parse_u8(trim(v)) {
            Some(b) => b,
            None => 255,
        },
        None => 0,
    }
}

/// The typesetting option that an instruction name selects.
fn typesetting_option(name: &str) -> (r: u8)
    ensures
        r == typesetting_code(name@),
{
    if str_is(name, "prop") {
        0x00
    } else if str_is(name, "mons") {
        0x01
    } else if str_is(name, "mono") {
        0x02
    } else if str_is(name, "mone") {
        0x03
    } else if str_is(name, "tnrm") {
        0x04
    } else if str_is(name, "tinv") {
        0x05
    } else if str_is(name, "fixh") {
        0x06
    } else if str_is(name, "varh") {
        0x07
    } else if str_is(name, "spac") {
        0x08
    } else if str_is(name, "line") {
        0x09
    } else if str_is(name, "kern") {
        0x0A
    } else {
        u8::MAX
    }
}

/// The drawing option that an instruction name selects.
fn drawing_option(name: &str) -> (r: u8)
    ensures
        r == drawing_code(name@),
{
    if str_is(name, "flat") {
        0
    } else if str_is(name, "mask") {
        1
    } else if str_is(name, "nrm") {
        2
    } else if str_is(name, "inv") {
        3
    } else {
        u8::MAX
    }
}

/// `a + b`, or `a` where the sum leaves the range of `i8`.
fn i8_add_or_keep(a: i8, b: i8) -> (r: i8)
    ensures
        r == add_or_keep(a, b),
{
    let s: i16 = a as i16 + b as i16;
    if -128 <= s && s <= 127 { s as i8 } else { a }
}

/// The layout state of a text as it is laid out.
struct TextRun<'a> {
    font: Font,
    drawing: image::Settings,
    typesetting: font::Settings,
    cursor: Point,
    size_w: u16,
    line_height: i16,
    instr_start: Option<usize>,
    instr_len: usize,
    value: Option<&'a str>,
    kind: u8,
    arg1: u8,
    arg2: u8,
}

impl<'a> TextRun<'a> {
    spec fn state(&self, fb: Seq<u8>) -> TextState {
        TextState {
            font: metrics_of(self.font),
            drawing: self.drawing,
            typesetting: self.typesetting,
            cursor: self.cursor,
            size_w: self.size_w,
            line_height: self.line_height,
            instr_start: match self.instr_start {
                Some(s) => Some(s as int),
                None => None,
            },
            instr_len: self.instr_len as int,
            value: opt_view(self.value),
            kind: self.kind,
            arg1: self.arg1,
            arg2: self.arg2,
            fb: fb,
        }
    }

    spec fn ok(&self) -> bool {
        &&& self.font.data@.len() <= LIB_LEN_MAX
        &&& 0 <= self.line_height <= 510
    }
}

/// Reads character `i` of `text` into a pending instruction of `run` (see
/// `text_pre`); gives the character to lay out.
fn text_pre_exec<'a>(run: &mut TextRun<'a>, text: &'a str, i: usize, Ghost(fb): Ghost<Seq<u8>>) -> (chr: char)
    requires
        i < text@.len() <= usize::MAX,
        old(run).ok(),
        old(run).instr_start matches Some(s) ==> s + old(run).instr_len <= i,
    ensures
        final(run).ok(),
        final(run).instr_start matches Some(s) ==> s + final(run).instr_len <= i + 1,
        (final(run).state(fb), chr) == text_pre(text@, old(run).state(fb), i as int),
{
    let c0 = text.get_char(i);
    match run.instr_start {
        Some(s) => {
            if c0 == '}' {
                let instr = text.substring_char(s, s + run.instr_len);
                let newline = close_instruction(run, instr, Ghost(fb));
                if newline { '\n' } else { c0 }
            } else {
                run.instr_len = run.instr_len + 1;
                c0
            }
        },
        None => c0,
    }
}

/// Reads the instruction `instr` of a closing brace into `run`; true where it
/// is a line break.
fn close_instruction<'a>(run: &mut TextRun<'a>, instr: &'a str, Ghost(fb): Ghost<Seq<u8>>) -> (newline: bool)
    ensures
        (final(run).state(fb), newline) == close_instruction_spec(old(run).state(fb), instr@),
        final(run).font == old(run).font,
        final(run).line_height == old(run).line_height,
{
    let (name0, value) = split_instruction(instr);
    let name = trim(name0);
    run.instr_start = None;
    run.value = value;
    if str_is(name, "nl") || str_is(name, "br") {
        run.kind = 0;
        return true;
    }
    if str_is(name, "img") {
        run.kind = 1;
        run.arg1 = value_u8(value);
    } else if str_is(name, "font") {
        run.kind = 2;
        run.arg1 = value_u8(value);
    } else {
        let t = typesetting_option(name);
        if t != u8::MAX {
            run.kind = 4;
            run.arg1 = t;
            run.arg2 = value_u8(value);
        } else {
            let d = drawing_option(name);
            if d != u8::MAX {
                run.kind = 3;
                run.arg1 = d;
            } else {
                run.kind = u8::MAX;
            }
        }
    }
    false
}

impl Surface {
    /// The size `text` takes in font `ident`; nothing is drawn.
    pub fn get_text_size(&mut self, ident: Identifier, text: &str) -> (r: Size)
        requires
            old(self).wf(),
        ensures
            final(self).same_but_pixels(old(self)),
            final(self).fb() == old(self).fb(),
            r == text_size(
                old(self).media.libs(),
                ident@,
                old(self).media.drawing,
                old(self).media.typesetting,
                Point { x: 0, y: 0 },
                text@,
            ),
    {
        self._process_text(ident, text, None)
    }

    /// Draws `text` in font `ident` from `position`.
    pub fn draw_text(&mut self, ident: Identifier, text: &str, position: Point)
        requires
            old(self).wf(),
        ensures
            final(self).same_but_pixels(old(self)),
            final(self).fb() == text_drawn(*old(self), ident@, position, text@),
            text@.len() == 0 ==> final(self).fb() == old(self).fb(),
    {
        self._process_text(ident, text, Some(position));
    }

    /// Lays out `text` glyph by glyph and gives the size it takes; draws it
    /// where a position is given. Braces hold instructions (`{nl}`, `{img:n}`,
    /// `{font:n}`, typesetting and drawing switches); the control characters
    /// 1 to 4 take the next character as the argument of an instruction.
    pub fn _process_text(&mut self, ident: Identifier, text: &str, position: Option<Point>) -> (r: Size)
        requires
            old(self).wf(),
        ensures
            final(self).same_but_pixels(old(self)),
            position.is_none() ==> final(self).fb() == old(self).fb(),
            text@.len() == 0 ==> final(self).fb() == old(self).fb(),
            r == text_size(
                old(self).media.libs(),
                ident@,
                old(self).media.drawing,
                old(self).media.typesetting,
                match position {
                    Some(p) => p,
                    None => Point { x: 0, y: 0 },
                },
                text@,
            ),
            position matches Some(p) ==> final(self).fb() == text_drawn(*old(self), ident@, p, text@),
    {
        let ghost libs = self.media.libs();
        let font0 = self.media.get_font(ident);
        let start = match position {
            Some(p) => p,
            None => Point { x: 0, y: 0 },
        };
        let mut run = TextRun {
            font: font0,
            drawing: self.media.drawing,
            typesetting: self.media.typesetting,
            cursor: start,
            size_w: 0,
            line_height: 0,
            instr_start: None,
            instr_len: 0,
            value: None,
            kind: 0,
            arg1: 0,
            arg2: 0,
        };
        let ghost cv = match position {
            Some(_) => Some(canvas_of(*old(self))),
            None => None,
        };
        let ghost st0 = run.state(self.fb());
        assert(st0 == text_start(font_metrics(libs.fonts, ident@), self.media.drawing, self.media.typesetting, start, self.fb()));
        let ghost sized = text_start(font_metrics(libs.fonts, ident@), self.media.drawing, self.media.typesetting, start, Seq::empty());
        proof {
            lemma_text_fb_free(libs, cv, start, text@, st0, sized, 0);
        }
        let n = text.unicode_len();
        if n == 0 {
            return Size { width: 0, height: start.y as u16 };
        }
        let draw = position.is_some();
        let mut i: usize = 0;
        let mut stopped = false;
        while i < n && !stopped
            invariant
                n == text@.len(),
                i <= n,
                self.wf(),
                self.same_but_pixels(old(self)),
                libs == self.media.libs(),
                draw == position.is_some(),
                !draw ==> self.fb() == old(self).fb(),
                run.ok(),
                run.instr_start matches Some(s) ==> s + run.instr_len <= i,
                cv == (match position {
                    Some(_) => Some(canvas_of(*old(self))),
                    None => None,
                }),
                canvas_of(*self) == canvas_of(*old(self)),
                stopped ==> run.state(self.fb()) == text_run(libs, cv, start, text@, st0, 0),
                !stopped ==> text_run(libs, cv, start, text@, run.state(self.fb()), i as int) == text_run(libs, cv, start, text@, st0, 0),
            decreases n - i + (if stopped { 0int } else { 1int }),
        {
            let stop = self.text_char(&mut run, text, n, i, start, draw, Ghost(cv));
            if stop {
                stopped = true;
            } else {
                i += 1;
            }
        }
        Size { width: run.size_w, height: i16_saturating_add(run.cursor.y, run.line_height) as u16 }
    }

    /// Lays out character `i` of `text` into `run` (see `text_step`); true
    /// where the layout stops there.
    fn text_char<'a>(&mut self, run: &mut TextRun<'a>, text: &'a str, n: usize, i: usize, start: Point, draw: bool, Ghost(cv): Ghost<Option<Canvas>>) -> (stop: bool)
        requires
            old(self).wf(),
            old(run).ok(),
            n == text@.len(),
            i < n,
            old(run).instr_start matches Some(s) ==> s + old(run).instr_len <= i,
            cv == if draw { Some(canvas_of(*old(self))) } else { None },
        ensures
            final(self).same_but_pixels(old(self)),
            !draw ==> final(self).fb() == old(self).fb(),
            final(run).ok(),
            final(run).instr_start matches Some(s) ==> s + final(run).instr_len <= i + 1,
            text_step(old(self).media.libs(), cv, start, text@, old(run).state(old(self).fb()), i as int) == (if stop {
                TextStep::Stop(final(run).state(final(self).fb()))
            } else {
                TextStep::Next(final(run).state(final(self).fb()))
            }),
    {
        let ghost fb0 = self.fb();
        let chr = text_pre_exec(run, text, i, Ghost(fb0));
        let outcome = self.text_move_exec(run, text, n, i, start, draw, chr, Ghost(cv));
        if outcome == 1 {
            return true;
        }
        if outcome == 2 {
            return false;
        }
        self.finish_char(run, draw, Ghost(cv));
        false
    }

    /// Moves the layout by the character `chr` at `i` (see `text_move`).
    #[verifier::spinoff_prover]
    #[verifier::rlimit(60)]
    fn text_move_exec<'a>(&mut self, run: &mut TextRun<'a>, text: &'a str, n: usize, i: usize, start: Point, draw: bool, chr: char, Ghost(cv): Ghost<Option<Canvas>>) -> (outcome: u8)
        requires
            old(self).wf(),
            old(run).ok(),
            n == text@.len(),
            i < n,
            old(run).instr_start matches Some(s) ==> s + old(run).instr_len <= i + 1,
            cv == if draw { Some(canvas_of(*old(self))) } else { None },
        ensures
            final(self).same_but_pixels(old(self)),
            !draw ==> final(self).fb() == old(self).fb(),
            final(run).ok(),
            final(run).instr_start matches Some(s) ==> s + final(run).instr_len <= i + 1,
            (final(run).state(final(self).fb()), outcome) == text_move(cv, start, text@, old(run).state(old(self).fb()), chr, i as int),
    {
        if run.kind == 0 && run.instr_start.is_none() {
            if run.typesetting.fixed_height {
                run.line_height = run.font.full_height as i16;
            }
            if chr == '\x00' {
                return 1;
            } else if chr == IMAGE || chr == FONT || chr == DRAWING || chr == TYPESETTING {
                if i + 1 >= n {
                    return 1;
                }
                let next = text.get_char(i + 1);
                run.kind = chr as u8;
                run.arg1 = (next as u32 % 256) as u8;
            } else if chr == '\n' {
                run.cursor.y = i16_saturating_add(run.cursor.y, run.line_height + run.typesetting.line_spacing as i16);
                run.cursor.x = start.x;
                run.line_height = 0;
            } else if chr == ' ' {
                let adv: i16 = match run.typesetting.mono_spaced {
                    Alignment::Proportional => run.typesetting.space_width as i16,
                    _ => run.font.mono_width as i16,
                };
                run.cursor.x = i16_saturating_add(run.cursor.x, adv + run.typesetting.glyph_spacing as i16);
                run.line_height = run.font.base_height as PosY;
            } else {
                let mut chr2 = chr;
                if chr == '{' && i + 1 < n {
                    chr2 = text.get_char(i + 1);
                }
                if chr == '{' && chr2 != '{' {
                    run.instr_start = Some(i + 1);
                    run.instr_len = 0;
                    return 2;
                }
                let mut cursor = run.cursor;
                let mut lh = run.line_height;
                self.draw_glyph(&run.font, &run.typesetting, chr2, &mut cursor, &mut lh, draw);
                run.cursor = cursor;
                run.line_height = lh;
            }
        }
        0
    }

    /// Carries out the pending instruction of `run` and widens the text to
    /// the cursor (see `finish_spec`).
    fn finish_char<'a>(&mut self, run: &mut TextRun<'a>, draw: bool, Ghost(cv): Ghost<Option<Canvas>>)
        requires
            old(self).wf(),
            old(run).ok(),
            cv == if draw { Some(canvas_of(*old(self))) } else { None },
        ensures
            final(self).same_but_pixels(old(self)),
            !draw ==> final(self).fb() == old(self).fb(),
            final(run).ok(),
            final(run).instr_start == old(run).instr_start,
            final(run).instr_len == old(run).instr_len,
            final(run).state(final(self).fb()) == finish_spec(old(self).media.libs(), cv, old(run).state(old(self).fb())),
    {
        if run.kind == 1 {
            let ident = match run.value {
                Some(v) => Identifier::Both(run.arg1, v),
                None => Identifier::Index(run.arg1),
            };
            let image_size = if draw {
                self.draw_image(ident, run.cursor, Some(run.drawing))
            } else {
                self.get_image_size(ident)
            };
            let w16: i16 = image_size.width as i16;
            run.cursor.x = i16_saturating_add(run.cursor.x, w16);
            run.cursor.x = i16_saturating_add(run.cursor.x, run.typesetting.glyph_spacing as i16);
            if run.line_height < image_size.height as i16 {
                run.line_height = image_size.height as i16;
            }
        } else if run.kind == 2 {
            run.font = match run.value {
                Some(v) => self.media.get_font(Identifier::Both(run.arg1, v)),
                None => self.media.get_font(Identifier::Index(run.arg1)),
            };
        } else if run.kind == 3 {
            let mut d = run.drawing;
            apply_drawing(&mut d, run.arg1);
            run.drawing = d;
        } else if run.kind == 4 {
            let mut t = run.typesetting;
            apply_typesetting(&mut t, run.arg1, run.arg2);
            run.typesetting = t;
        }
        run.kind = 0;
        let right = i16_saturating_sub(run.cursor.x, run.typesetting.glyph_spacing as i16);
        let cur_w = run.size_w as i16;
        run.size_w = (if cur_w < right { right } else { cur_w }) as u16;
    }

    /// Lays out one glyph at `cursor`, drawing it where `draw`, and moves the
    /// cursor past it (see `glyph_layout`).
    fn draw_glyph(&mut self, font: &Font, typesetting: &font::Settings, chr: char, cursor: &mut Point, line_height: &mut PosY, draw: bool)
        requires
            old(self).wf(),
            font.data@.len() <= LIB_LEN_MAX,
            0 <= *old(line_height) <= 510,
        ensures
            final(self).same_but_pixels(old(self)),
            !draw ==> final(self).fb() == old(self).fb(),
            0 <= *final(line_height) <= 510,
            final(cursor).y == old(cursor).y,
            (final(cursor).x, *final(line_height)) == glyph_layout(metrics_of(*font), *typesetting, chr, old(cursor).x, *old(line_height)),
            draw ==> final(self).fb() == glyph_fb(canvas_of(*old(self)), metrics_of(*font), *typesetting, chr, *old(cursor), old(self).fb()),
    {
        let glyph = self.media.get_glyph(font, chr);
        let g = glyph.as_slice();
        if g.len() < 1 {
            return;
        }
        let width = g[0];
        if width == 0 && typesetting.placeholders {
            let color = if typesetting.inverted { self.palette[0] } else { self.palette[1] };
            if draw {
                self.draw_rect(Area { point: *cursor, size: Size { width: font.mono_width as SizeW, height: font.base_height as SizeH } }, color);
            }
            cursor.x = i16_saturating_add(cursor.x, font.mono_width as i16 + typesetting.glyph_spacing as i16);
        } else if g.len() >= 4 {
            let height = g[1];
            let mut x_offset = g[2] as i8;
            let mut y_offset = g[3] as i8;
            let mono_gap: u8 = if font.mono_width >= width { font.mono_width - width } else { 0 };
            x_offset = match typesetting.mono_spaced {
                Alignment::Proportional => x_offset,
                Alignment::Start => x_offset,
                Alignment::Center => i8_add_or_keep(x_offset, (mono_gap / 2) as i8),
                Alignment::End => i8_add_or_keep(x_offset, mono_gap as i8),
            };
            if typesetting.fixed_height {
                let height_gap: u8 = if font.full_height >= height { font.full_height - height } else { 0 };
                y_offset = i8_add_or_keep(y_offset, (height_gap / 2) as i8);
            }
            if draw {
                let at = Point {
                    x: i16_saturating_add(cursor.x, x_offset as i16),
                    y: i16_saturating_add(cursor.y, y_offset as i16),
                };
                self.render_stream(IMAGE_TYPE_INDEXED1, width, height, &g[4..g.len()], at, typesetting.inverted, 0);
            }
            let adv: i16 = match typesetting.mono_spaced {
                Alignment::Proportional => width as i16 + x_offset as i16,
                _ => font.mono_width as i16,
            };
            cursor.x = i16_saturating_add(cursor.x, adv + typesetting.glyph_spacing as i16);
            let top: i16 = height as i16 + y_offset as i16;
            if *line_height < top {
                *line_height = top;
            }
        }
    }
}

} // verus!
