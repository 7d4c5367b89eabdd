//! The text commands of the surface (`@…`) and of the DOM (`$…`, `xml=`,
//! `bin=`, `page=`).

use vstd::prelude::*;
use crate::{Area, Point, Size, BORDER_RECT, NODE_MAX, CONTENT_MAX, MARGIN_MAX};
use crate::decimal::{eq_ignore_ascii_case, parse_u16, parse_u8, push_decimal, spec_parse_u16, starts_with, str_is};
use crate::decimal::{decimal_bytes, find_char, first_of};
use crate::dom::page::{page_run, page_start, xml_build_run, xml_fuel, xml_start};
use crate::dom::view::{clear_view, dom_view, reset_view};
use crate::STYLE_MAX;
use crate::surface::font::{canvas_of, text_drawn, text_size};
use crate::surface::ninepatch::ninepatch_fb;
use crate::media::border::patch_of;
use crate::dom::{ContentContainer, Ret, DOM};
use crate::media::{Identifier, Media};
use crate::node::{Alignment, Direction, Node, Visibility, HEIGHT_CONTENT, WIDTH_CONTENT};
use crate::node::{alignment_code, direction_code, visibility_code, with_flag_field};
use crate::node::{FLAGS_ALIGNMENT_MASK, FLAGS_ALIGNMENT_SHIFT, FLAGS_DIRECTION_MASK, FLAGS_DIRECTION_SHIFT};
use crate::node::{FLAGS_VISIBILITY_MASK, FLAGS_VISIBILITY_SHIFT};
use crate::node::style::Style;
use crate::plot::Plot;
use crate::dom::{style_slot, Margin, Padding};
use crate::{BORDER_MAX, PADDING_MAX};
use crate::decimal::{ascii_lower, spec_parse_u8};
use super::decoded_values;
use crate::surface::Surface;
use crate::xmlparser::{str_trim, trim};
use crate::media::IdentView;
use crate::media::page::blob_lookup;
use crate::LIBRARY_MAX;
use crate::media::image::{image_data_spec, image_mask_spec};
use crate::surface::{fill_spec, line_spec, plot_pixel, rect_spec};
use crate::surface::image::image_draw_spec;
use vstd::utf8::encode_utf8;
use vstd::string::StringSliceAdditionalSpecFns;
use super::{decode_values, Control};

verus! {

/// Where item `k` of the comma-separated list that starts at `from` in `s`
/// begins, where there is such an item.
pub open spec fn part_start(s: Seq<char>, from: int, k: nat) -> Option<int>
    decreases k,
{
    if k == 0 {
        Some(from)
    } else {
        match part_start(s, from, (k - 1) as nat) {
            Some(p) => {
                let e = first_of(s, ',', p);
                if e >= s.len() { None } else { Some(e + 1) }
            },
            None => None,
        }
    }
}

/// The item of `s` that starts at `p`: up to the next comma.
pub open spec fn item_at(s: Seq<char>, p: int) -> Seq<char> {
    s.subrange(p, first_of(s, ',', p))
}

/// Item `k` of the list read as a number: 0 where it is missing or no
/// number.
pub open spec fn arg_value(s: Seq<char>, from: int, k: nat) -> u16 {
    match part_start(s, from, k) {
        Some(p) => match spec_parse_u16(item_at(s, p)) {
            Some(v) => v,
            None => 0,
        },
        None => 0,
    }
}

/// Where the last of the items `0..=k` of the list begins.
pub open spec fn last_start(s: Seq<char>, from: int, k: nat) -> int
    decreases k,
{
    if k == 0 {
        from
    } else {
        match part_start(s, from, k) {
            Some(p) => p,
            None => last_start(s, from, (k - 1) as nat),
        }
    }
}

proof fn lemma_part_none(s: Seq<char>, from: int, k: nat, j: nat)
    requires
        part_start(s, from, k) is None,
        k <= j,
    ensures
        part_start(s, from, j) is None,
    decreases j - k,
{
    if j > k {
        lemma_part_none(s, from, k, (j - 1) as nat);
    }
}

proof fn lemma_last_start(s: Seq<char>, from: int, k: nat, p: int, j: nat)
    requires
        part_start(s, from, k) == Some(p),
        k == 7 || part_start(s, from, k + 1) is None,
        k <= j <= 7,
    ensures
        last_start(s, from, j) == p,
    decreases j - k,
{
    if j > k {
        lemma_part_none(s, from, k + 1, j);
        lemma_last_start(s, from, k, p, (j - 1) as nat);
    }
}

/// The first eight items of the comma-separated list that starts at `from`
/// in `rest`, each read as a number (0 where it is missing or no number),
/// and the last of them as text.
fn surface_args<'a>(rest: &'a str, from: usize) -> (r: ([u16; 8], &'a str))
    requires
        from <= rest@.len(),
    ensures
        forall|j: int| 0 <= j < 8 ==> r.0@[j] == arg_value(rest@, from as int, j as nat),
        r.1@ == item_at(rest@, last_start(rest@, from as int, 7)),
{
    let n = rest.unicode_len();
    let mut values: [u16; 8] = [0, 0, 0, 0, 0, 0, 0, 0];
    let mut pos = from;
    let mut k: usize = 0;
    loop
        invariant
            n == rest@.len(),
            from <= pos <= n,
            k < 8,
            part_start(rest@, from as int, k as nat) == Some(pos as int),
            forall|j: int| 0 <= j < k ==> values@[j] == arg_value(rest@, from as int, j as nat),
            forall|j: int| k <= j < 8 ==> values@[j] == 0,
        decreases 8 - k,
    {
        let e = find_char(rest, ',', pos);
        let item = rest.substring_char(pos, e);
        values[k] = match parse_u16(item) {
            Some(v) => v,
            None => 0,
        };
        if e >= n || k == 7 {
            proof {
                if k < 7 {
                    assert(part_start(rest@, from as int, (k + 1) as nat) is None);
                    assert forall|j: int| k < j < 8 implies values@[j] == arg_value(rest@, from as int, j as nat) by {
                        lemma_part_none(rest@, from as int, (k + 1) as nat, j as nat);
                    }
                }
                lemma_last_start(rest@, from as int, k as nat, pos as int, 7);
            }
            return (values, item);
        }
        pos = e + 1;
        k += 1;
        assert(part_start(rest@, from as int, k as nat) == Some(pos as int));
    }
}

/// Whether `line` is a surface command: it starts with `@`.
pub open spec fn is_surface_line(line: Seq<char>) -> bool {
    line.len() > 0 && line[0] == '@'
}

/// The command word of a surface line `@<cmd>,<values>`, trimmed.
pub open spec fn surface_cmd(line: Seq<char>) -> Seq<char> {
    str_trim(line.subrange(1, first_of(line, ',', 1)))
}

/// Value `k` of a surface line (0 where there is none).
pub open spec fn surface_value(line: Seq<char>, k: nat) -> u16 {
    let e = first_of(line, ',', 1);
    if e < line.len() { arg_value(line, e + 1, k) } else { 0 }
}

/// The text of a surface line: the last of its first eight values.
pub open spec fn surface_text(line: Seq<char>) -> Seq<char> {
    let e = first_of(line, ',', 1);
    if e < line.len() { item_at(line, last_start(line, e + 1, 7)) } else { Seq::empty() }
}

/// The point given by the first two values of a surface line.
pub open spec fn surface_point(line: Seq<char>) -> Point {
    Point { x: surface_value(line, 0) as i16, y: surface_value(line, 1) as i16 }
}

/// The area given by the first four values of a surface line.
pub open spec fn surface_area(line: Seq<char>) -> Area {
    Area { point: surface_point(line), size: Size { width: surface_value(line, 2), height: surface_value(line, 3) } }
}

/// The reply `<prefix><code>\r\n` to a command.
pub open spec fn reply(prefix: u8, code: u8) -> Seq<u8> {
    seq![prefix, (48 + code) as u8, 13u8, 10u8]
}

/// `v` as a palette entry: values past 255 give 255.
pub open spec fn palette_entry(v: u16) -> u8 {
    if v > 255 { 255 } else { v as u8 }
}

impl Surface {
    /// Runs a surface command: `@` then a command word and up to eight
    /// comma-separated numbers (the last item doubles as a text). Gives the
    /// reply, or none where the line is no surface command. `c` clears to a
    /// color, `p` sets a pixel, `r` and `f` draw and fill a rectangle, `l`
    /// draws a line, `C` sets the palette, `t` draws a text, `T` gives the
    /// size of a text, `i` draws an image, `b` a border, `init` clears the
    /// surface and the media, `inspect` lists the media; the reply is `@0`,
    /// or `@1` for an unknown command.
    #[verifier::spinoff_prover]
    #[verifier::rlimit(50)]
    pub fn process_line(&mut self, line: &str) -> (r: Option<Vec<u8>>)
        requires
            old(self).wf(),
        ensures
            final(self).wf(),
            r.is_none() == !is_surface_line(line@),
            !is_surface_line(line@) ==> *final(self) == *old(self),
            is_surface_line(line@) && surface_cmd(line@) != "T"@ && surface_cmd(line@) != "inspect"@ ==> (r matches Some(o)
                && o@ == reply(64, if surface_cmd(line@) == "c"@ || surface_cmd(line@) == "p"@ || surface_cmd(line@) == "r"@
                    || surface_cmd(line@) == "f"@ || surface_cmd(line@) == "t"@ || surface_cmd(line@) == "i"@
                    || surface_cmd(line@) == "b"@ || surface_cmd(line@) == "l"@ || surface_cmd(line@) == "C"@
                    || surface_cmd(line@) == "init"@ { 0 } else { 1 })),
            is_surface_line(line@) && surface_cmd(line@) == "c"@ ==> final(self).same_but_pixels(old(self))
                && final(self).fb() == fill_spec(old(self).fb(), old(self).width, old(self).height, old(self).clip,
                    Area { point: Point { x: 0, y: 0 }, size: Size { width: old(self).width, height: old(self).height } },
                    surface_value(line@, 0) as u8),
            is_surface_line(line@) && surface_cmd(line@) == "p"@ ==> final(self).same_but_pixels(old(self))
                && final(self).fb() == plot_pixel(old(self).fb(), old(self).width as int, old(self).clip,
                    surface_point(line@).x as int, surface_point(line@).y as int, surface_value(line@, 2) as u8),
            is_surface_line(line@) && surface_cmd(line@) == "r"@ ==> final(self).same_but_pixels(old(self))
                && final(self).fb() == rect_spec(old(self).fb(), old(self).width, old(self).height, old(self).clip,
                    surface_area(line@), surface_value(line@, 4) as u8),
            is_surface_line(line@) && surface_cmd(line@) == "f"@ ==> final(self).same_but_pixels(old(self))
                && final(self).fb() == fill_spec(old(self).fb(), old(self).width, old(self).height, old(self).clip,
                    surface_area(line@), surface_value(line@, 4) as u8),
            is_surface_line(line@) && surface_cmd(line@) == "l"@ ==> final(self).same_but_pixels(old(self))
                && final(self).fb() == line_spec(old(self).fb(), old(self).width as int, old(self).clip, surface_point(line@),
                    Point { x: surface_value(line@, 2) as i16, y: surface_value(line@, 3) as i16 }, surface_value(line@, 4) as u8),
            is_surface_line(line@) && surface_cmd(line@) == "i"@ ==> final(self).same_but_pixels(old(self))
                && final(self).fb() == image_draw_spec(old(self).fb(), old(self).width, old(self).height, old(self).clip,
                    old(self).palette@,
                    image_data_spec(old(self).media.libs().images, IdentView::Both(surface_value(line@, 2) as u8, encode_utf8(surface_text(line@)))),
                    image_mask_spec(old(self).media.libs().images, IdentView::Both(surface_value(line@, 2) as u8, encode_utf8(surface_text(line@)))),
                    surface_point(line@), old(self).media.drawing),
            is_surface_line(line@) && surface_cmd(line@) == "b"@ ==> final(self).same_but_pixels(old(self))
                && (surface_value(line@, 4) as u8 == BORDER_RECT ==> final(self).fb() == rect_spec(old(self).fb(),
                    old(self).width, old(self).height, old(self).clip, surface_area(line@), old(self).palette@[1]))
                && ((surface_value(line@, 4) as u8) < BORDER_RECT ==> final(self).fb() == ninepatch_fb(canvas_of(*old(self)),
                    patch_of(old(self).media.libs().borders, IdentView::Index(surface_value(line@, 4) as u8)),
                    surface_area(line@), old(self).fb()))
                && ((surface_value(line@, 4) as u8) > BORDER_RECT ==> final(self).fb() == old(self).fb()),
            is_surface_line(line@) && surface_cmd(line@) == "t"@ ==> final(self).same_but_pixels(old(self))
                && final(self).fb() == text_drawn(*old(self), IdentView::Index(surface_value(line@, 2) as u8),
                    surface_point(line@), surface_text(line@)),
            is_surface_line(line@) && surface_cmd(line@) == "C"@ ==> final(self).fb() == old(self).fb()
                && final(self).palette@ == seq![palette_entry(surface_value(line@, 0)), palette_entry(surface_value(line@, 1))]
                && final(self).width == old(self).width && final(self).height == old(self).height
                && final(self).clip == old(self).clip && final(self).media == old(self).media,
            is_surface_line(line@) && surface_cmd(line@) == "T"@ ==> final(self).same_but_pixels(old(self))
                && final(self).fb() == old(self).fb() && r.is_some() && ({
                    let size = text_size(old(self).media.libs(), IdentView::Index(surface_value(line@, 0) as u8),
                        old(self).media.drawing, old(self).media.typesetting, Point { x: 0, y: 0 }, surface_text(line@));
                    r->0@ == decimal_bytes(size.width as nat) + seq![44u8] + decimal_bytes(size.height as nat)
                }),
            is_surface_line(line@) && surface_cmd(line@) == "inspect"@ ==> *final(self) == *old(self) && r.is_some(),
            is_surface_line(line@) && surface_cmd(line@) == "init"@ ==> final(self).fb() == fill_spec(old(self).fb(),
                    old(self).width, old(self).height, old(self).clip,
                    Area { point: Point { x: 0, y: 0 }, size: Size { width: old(self).width, height: old(self).height } }, 0)
                && final(self).width == old(self).width && final(self).height == old(self).height
                && final(self).palette == old(self).palette && final(self).clip == old(self).clip
                && final(self).media.libs().images == seq![old(self).media.libs().images[0], seq![], seq![], seq![]]
                && final(self).media.libs().fonts == seq![old(self).media.libs().fonts[0], seq![], seq![], seq![]]
                && final(self).media.libs().borders == seq![old(self).media.libs().borders[0], seq![], seq![], seq![]]
                && final(self).media.libs().pages == seq![old(self).media.libs().pages[0], seq![], seq![], seq![]],
            is_surface_line(line@) && !(surface_cmd(line@) == "c"@ || surface_cmd(line@) == "p"@ || surface_cmd(line@) == "r"@
                || surface_cmd(line@) == "f"@ || surface_cmd(line@) == "t"@ || surface_cmd(line@) == "i"@
                || surface_cmd(line@) == "b"@ || surface_cmd(line@) == "l"@ || surface_cmd(line@) == "C"@
                || surface_cmd(line@) == "init"@ || surface_cmd(line@) == "T"@ || surface_cmd(line@) == "inspect"@)
                ==> *final(self) == *old(self),
    {
        proof {
            reveal_strlit("@");
            reveal_strlit("c");
            reveal_strlit("p");
            reveal_strlit("r");
            reveal_strlit("f");
            reveal_strlit("t");
            reveal_strlit("T");
            reveal_strlit("i");
            reveal_strlit("b");
            reveal_strlit("l");
            reveal_strlit("C");
            reveal_strlit("init");
            reveal_strlit("inspect");
            assert("@"@ =~= seq!['@']);
            if line@.len() > 0 {
                assert(line@.subrange(0, 1) =~= seq![line@[0]]);
            }
        }
        if !starts_with(line, "@") {
            return None;
        }
        assert(line@.subrange(0, 1)[0] == '@');
        assert(line@.len() > 0 && line@[0] == '@');
        let n = line.unicode_len();
        let cmd_end = find_char(line, ',', 1);
        let cmd = trim(line.substring_char(1, cmd_end));
        assert(cmd@ == surface_cmd(line@));
        let (values, text) = if cmd_end < n {
            surface_args(line, cmd_end + 1)
        } else {
            ([0u16, 0, 0, 0, 0, 0, 0, 0], "")
        };
        proof {
            if cmd_end >= n {
                reveal_strlit("");
            }
            assert(forall|j: int| 0 <= j < 8 ==> values@[j] == surface_value(line@, j as nat));
            assert(text@ == surface_text(line@));
        }
        let p0 = Point { x: values[0] as i16, y: values[1] as i16 };
        let area = Area { point: p0, size: Size { width: values[2], height: values[3] } };
        let v0 = values[0];
        let v1 = values[1];
        let v2 = values[2];
        let v3 = values[3];
        let v4 = values[4];
        assert(v0 == surface_value(line@, 0) && v1 == surface_value(line@, 1) && v2 == surface_value(line@, 2));
        assert(v3 == surface_value(line@, 3) && v4 == surface_value(line@, 4));
        assert(p0 == surface_point(line@));
        assert(area == surface_area(line@));
        let mut ret: u8 = 0;
        if str_is(cmd, "c") {
            assert(cmd@[0] == 'c');
            self.clear(v0 as u8);
        } else if str_is(cmd, "p") {
            assert(cmd@[0] == 'p');
            self.draw_pixel(p0, v2 as u8);
        } else if str_is(cmd, "r") {
            assert(cmd@[0] == 'r');
            self.draw_rect(area, v4 as u8);
        } else if str_is(cmd, "f") {
            assert(cmd@[0] == 'f');
            self.fill_rect(area, v4 as u8);
        } else if str_is(cmd, "t") {
            assert(cmd@[0] == 't');
            self.draw_text(Identifier::Index(v2 as u8), text, p0);
        } else if str_is(cmd, "T") {
            proof {
                assert(surface_cmd(line@)[0] == 'T');
            }
            let size = self.get_text_size(Identifier::Index(v0 as u8), text);
            let mut out: Vec<u8> = Vec::new();
            push_decimal(&mut out, size.width as u32);
            out.push(44);
            push_decimal(&mut out, size.height as u32);
            return Some(out);
        } else if str_is(cmd, "i") {
            assert(cmd@[0] == 'i');
            self.draw_image(Identifier::Both(v2 as u8, text), p0, None);
        } else if str_is(cmd, "b") {
            assert(cmd@[0] == 'b');
            self.draw_border(v4 as u8, area);
        } else if str_is(cmd, "l") {
            assert(cmd@[0] == 'l');
            self.draw_line(p0, Point { x: v2 as i16, y: v3 as i16 }, v4 as u8);
        } else if str_is(cmd, "C") {
            assert(cmd@[0] == 'C');
            self.palette[0] = if v0 > 255 { 255 } else { v0 as u8 };
            self.palette[1] = if v1 > 255 { 255 } else { v1 as u8 };
            assert(self.palette@ =~= seq![palette_entry(surface_value(line@, 0)), palette_entry(surface_value(line@, 1))]);
        } else if str_is(cmd, "init") {
            assert(cmd@[1] == 'n' && cmd@[2] == 'i');
            self.clear(0);
            self.media.clear();
        } else if str_is(cmd, "inspect") {
            proof {
                assert(surface_cmd(line@)[1] == 'n');
                assert(surface_cmd(line@)[2] == 's');
            }
            return Some(self.media.inspect(255));
        } else {
            ret = 1;
        }
        let out = Control::send_result("@", ret);
        proof {
            vstd::string::is_ascii_spec_bytes("@");
            assert(vstd::string::is_ascii("@"));
            assert("@".spec_bytes() =~= seq![64u8]);
            assert(out@ =~= reply(64, ret));
        }
        Some(out)
    }
}

/// The properties that a property command can set.
pub open spec fn known_property(p: Seq<char>) -> bool {
    ||| p == "child"@ || p == "sibling"@ || p == "remove"@ || p == "content"@
    ||| p == "width"@ || p == "height"@ || p == "padding"@ || p == "margin"@
    ||| p == "direction"@ || p == "align"@ || p == "visible"@
    ||| p == "font"@ || p == "color"@ || p == "background"@ || p == "border"@
}

/// The size a `width` or `height` command gives: `content`, or a number.
pub open spec fn size_value(value: Seq<char>, is_width: bool) -> Option<u16> {
    if value == "content"@ {
        Some(if is_width { WIDTH_CONTENT } else { HEIGHT_CONTENT })
    } else {
        spec_parse_u16(value)
    }
}

/// The alignment that an `align` command gives for its first value.
pub open spec fn alignment_for(v: i8) -> Alignment {
    if v == 1 {
        Alignment::Center
    } else if v == 2 {
        Alignment::End
    } else if v == 3 {
        Alignment::Stretch
    } else {
        Alignment::Start
    }
}

/// Whether `value` is `solid`, in any case.
pub open spec fn is_solid(value: Seq<char>) -> bool {
    value.len() == "solid"@.len() && forall|j: int| 0 <= j < value.len() ==> ascii_lower(#[trigger] value[j]) == ascii_lower("solid"@[j])
}

/// The border a `border` command gives: the plain rectangle for `solid`, or
/// a number.
pub open spec fn border_value(value: Seq<char>) -> Option<u8> {
    if is_solid(value) { Some(BORDER_RECT) } else { spec_parse_u8(value) }
}

/// Whether a property command is refused for want of room: a new content
/// or margin entry where the table is full.
pub open spec fn property_refused(d: DOM, node_i: u8, p: Seq<char>) -> bool {
    ||| p == "content"@ && d.nodes@[node_i as int].plot.content_idx == CONTENT_MAX && d.content_idx >= CONTENT_MAX
    ||| p == "margin"@ && d.nodes@[node_i as int].plot.margin_idx == 0 && d.margin_idx >= MARGIN_MAX
}

/// `n` with its first child, or next sibling, set to `v`.
pub open spec fn with_link(n: Node, child: bool, v: u8) -> Node {
    if child { Node { first_child: v, ..n } } else { Node { next_sibling: v, ..n } }
}

/// What the property command `prop` = `value` on node `node_i` does to the
/// DOM `o`, giving `f` and the return code `r`.
pub open spec fn property_set(o: DOM, f: DOM, node_i: u8, prop: Seq<char>, value: Seq<char>, r: Ret) -> bool {
    &&& r == if !known_property(prop) {
        Ret::InvalidProperty
    } else if property_refused(o, node_i, prop) {
        Ret::InvalidFormat
    } else {
        Ret::Success
    }
    &&& (r != Ret::Success ==> f == o)
    &&& (prop == "child"@ || prop == "sibling"@ ==> f.same_tables(&o)
            && f.nodes@ == match spec_parse_u8(value) {
                Some(v) => if v <= NODE_MAX {
                    o.nodes@.update(node_i as int, with_link(o.nodes@[node_i as int], prop == "child"@, v))
                } else {
                    o.nodes@
                },
                None => o.nodes@,
            })
    &&& (prop == "remove"@ ==> f.same_tables(&o) && f.nodes@[node_i as int].is_fresh())
    &&& (prop == "content"@ && r == Ret::Success ==> f.nodes@[node_i as int].first_child == NODE_MAX
            && f.contents@[f.nodes@[node_i as int].plot.content_idx as int].raw@ == encode_utf8(value))
    &&& (prop == "width"@ || prop == "height"@ ==> f.same_tables(&o)
            && f.nodes@ == match size_value(value, prop == "width"@) {
                Some(v) => o.nodes@.update(node_i as int, if prop == "width"@ {
                    Node { plot: Plot { size: Size { width: v, ..o.nodes@[node_i as int].plot.size }, ..o.nodes@[node_i as int].plot }, ..o.nodes@[node_i as int] }
                } else {
                    Node { plot: Plot { size: Size { height: v, ..o.nodes@[node_i as int].plot.size }, ..o.nodes@[node_i as int].plot }, ..o.nodes@[node_i as int] }
                }),
                None => o.nodes@,
            })
    &&& (prop == "padding"@ && (o.nodes@[node_i as int].plot.padding_idx != 0 || o.padding_idx < PADDING_MAX)
            ==> f.paddings@[f.nodes@[node_i as int].plot.padding_idx as int] == (Padding {
                n: decoded_values(value)[0], e: decoded_values(value)[1], s: decoded_values(value)[2], w: decoded_values(value)[3] }))
    &&& (prop == "padding"@ && !(o.nodes@[node_i as int].plot.padding_idx != 0 || o.padding_idx < PADDING_MAX)
            ==> f.nodes@ == o.nodes@ && f.paddings@ == o.paddings@)
    &&& (prop == "margin"@ && r == Ret::Success ==> f.margins@[f.nodes@[node_i as int].plot.margin_idx as int] == (Margin {
                n: decoded_values(value)[0], e: decoded_values(value)[1], s: decoded_values(value)[2], w: decoded_values(value)[3] }))
    &&& (prop == "direction"@ ==> f.same_tables(&o) && f.nodes@ == o.nodes@.update(node_i as int,
            Node { flags: with_flag_field(o.nodes@[node_i as int].flags, FLAGS_DIRECTION_SHIFT, FLAGS_DIRECTION_MASK,
                direction_code(if decoded_values(value)[0] == 0 { Direction::Horizontal } else { Direction::Vertical })),
                ..o.nodes@[node_i as int] }))
    &&& (prop == "align"@ ==> f.same_tables(&o) && f.nodes@ == o.nodes@.update(node_i as int,
            Node { flags: with_flag_field(o.nodes@[node_i as int].flags, FLAGS_ALIGNMENT_SHIFT, FLAGS_ALIGNMENT_MASK,
                alignment_code(alignment_for(decoded_values(value)[0]))),
                ..o.nodes@[node_i as int] }))
    &&& (prop == "visible"@ ==> f.same_tables(&o) && f.nodes@ == o.nodes@.update(node_i as int,
            Node { flags: with_flag_field(o.nodes@[node_i as int].flags, FLAGS_VISIBILITY_SHIFT, FLAGS_VISIBILITY_MASK,
                visibility_code(if decoded_values(value)[0] == 0 { Visibility::Hidden } else { Visibility::Visible })),
                ..o.nodes@[node_i as int] }))
    &&& (prop == "font"@ && spec_parse_u8(value) is Some ==> f.styles@[style_slot(o, node_i)]
            == (Style { font_idx: spec_parse_u8(value)->0, ..o.styles@[style_slot(o, node_i)] }))
    &&& (prop == "color"@ && spec_parse_u8(value) is Some ==> f.styles@[style_slot(o, node_i)]
            == (Style { color: spec_parse_u8(value)->0, ..o.styles@[style_slot(o, node_i)] }))
    &&& (prop == "background"@ && spec_parse_u8(value) is Some ==> f.styles@[style_slot(o, node_i)]
            == (Style { background: spec_parse_u8(value)->0, ..o.styles@[style_slot(o, node_i)] }))
    &&& (prop == "border"@ && border_value(value) is Some ==> f.styles@[style_slot(o, node_i)]
            == (Style { border_idx: if border_value(value)->0 > BORDER_MAX { BORDER_MAX } else { border_value(value)->0 },
                ..o.styles@[style_slot(o, node_i)] }))
    &&& ((prop == "font"@ || prop == "color"@ || prop == "background"@) && spec_parse_u8(value) is None ==> f == o)
    &&& (prop == "border"@ && border_value(value) is None ==> f == o)
}

/// Whether `line` is a `$` command of the DOM.
pub open spec fn is_dom_line(line: Seq<char>) -> bool {
    line.len() > 0 && line[0] == '$'
}

/// Where the first `=` of `line` stands (its length where there is none).
pub open spec fn eq_pos(line: Seq<char>) -> int {
    first_of(line, '=', 0)
}

/// The key of a `key=value` line, trimmed.
pub open spec fn dom_key(line: Seq<char>) -> Seq<char> {
    str_trim(line.subrange(0, eq_pos(line)))
}

/// The value of a `key=value` line, trimmed.
pub open spec fn dom_arg(line: Seq<char>) -> Seq<char> {
    str_trim(line.subrange(eq_pos(line) + 1, line.len() as int))
}

/// The part of a `$<node>.<property>=<value>` line before the `=`.
pub open spec fn dom_head(line: Seq<char>) -> Seq<char> {
    line.subrange(1, if eq_pos(line) >= 1 { eq_pos(line) } else { 1 })
}

/// Where the first `.` of the head stands.
pub open spec fn dom_dot(line: Seq<char>) -> int {
    first_of(dom_head(line), '.', 0)
}

/// The node of a property line; `NODE_MAX` where it is no node number.
pub open spec fn dom_node(line: Seq<char>) -> u8 {
    match spec_parse_u8(dom_head(line).subrange(0, dom_dot(line))) {
        Some(v) => v,
        None => NODE_MAX,
    }
}

/// The property of a property line, trimmed.
pub open spec fn dom_prop(line: Seq<char>) -> Seq<char> {
    str_trim(dom_head(line).subrange(dom_dot(line) + 1, first_of(dom_head(line), '.', dom_dot(line) + 1)))
}

/// The value of a property line, trimmed; a space where there is no `=`.
pub open spec fn dom_value(line: Seq<char>) -> Seq<char> {
    if eq_pos(line) >= line.len() { seq![' '] } else { dom_arg(line) }
}

/// The code a property command gives on the DOM `d`.
pub open spec fn property_ret(d: DOM, node_i: u8, prop: Seq<char>) -> Ret {
    if !known_property(prop) {
        Ret::InvalidProperty
    } else if property_refused(d, node_i, prop) {
        Ret::InvalidFormat
    } else {
        Ret::Success
    }
}

/// The code a property line gives: a line without `.` is badly formed, a
/// node past the table is refused.
pub open spec fn property_line_ret(d: DOM, line: Seq<char>) -> Ret {
    if dom_dot(line) >= dom_head(line).len() {
        Ret::InvalidFormat
    } else if dom_node(line) >= NODE_MAX {
        Ret::InvalidArgument
    } else {
        property_ret(d, dom_node(line), dom_prop(line))
    }
}

/// The code `page=<n>` gives: a bad number is refused, a missing page is an
/// invalid source.
pub open spec fn page_ret(pages: Seq<Seq<u8>>, arg: Seq<char>) -> Ret {
    match spec_parse_u8(arg) {
        Some(v) => if blob_lookup(pages, LIBRARY_MAX - 1, v) is Some { Ret::Success } else { Ret::InvalidSource },
        None => Ret::InvalidArgument,
    }
}

/// Whether every node of `d` is fresh.
pub open spec fn all_fresh(d: DOM) -> bool {
    forall|i: int| 0 <= i < NODE_MAX ==> (#[trigger] d.nodes@[i]).is_fresh()
}

impl DOM {
    /// Runs a property command `$<node>.<property>=<value>` on node `node_i`;
    /// gives the return code: `InvalidProperty` for an unknown property,
    /// `InvalidFormat` where a table is full, else `Success`. A value that
    /// does not parse changes nothing.
    fn set_property(&mut self, node_i: u8, prop: &str, value: &str) -> (r: Ret)
        requires
            old(self).wf(),
            node_i < NODE_MAX,
        ensures
            final(self).wf(),
            property_set(*old(self), *final(self), node_i, prop@, value@, r),
    {
        proof {
            reveal_strlit("child");
            reveal_strlit("sibling");
            reveal_strlit("remove");
            reveal_strlit("content");
            reveal_strlit("width");
            reveal_strlit("height");
            reveal_strlit("padding");
            reveal_strlit("margin");
            reveal_strlit("direction");
            reveal_strlit("align");
            reveal_strlit("visible");
            reveal_strlit("font");
            reveal_strlit("color");
            reveal_strlit("background");
            reveal_strlit("border");
            reveal_strlit("solid");
        }
        let values = decode_values(value);
        if str_is(prop, "child") {
            assert(prop@.len() == 5 && prop@[0] == 'c' && prop@[1] == 'h');
            if let Some(v) = parse_u8(value) {
                self.set_child(node_i, v);
            }
        } else if str_is(prop, "sibling") {
            assert(prop@.len() == 7 && prop@[0] == 's' && prop@[1] == 'i');
            if let Some(v) = parse_u8(value) {
                self.set_sibling(node_i, v);
            }
        } else if str_is(prop, "remove") {
            assert(prop@.len() == 6 && prop@[0] == 'r' && prop@[1] == 'e');
            self.remove(node_i);
        } else if str_is(prop, "content") {
            assert(prop@.len() == 7 && prop@[0] == 'c' && prop@[1] == 'o');
            if self.nodes[node_i as usize].plot.content_idx == CONTENT_MAX && self.content_idx >= CONTENT_MAX {
                return Ret::InvalidFormat;
            }
            self.set_content(node_i, ContentContainer::Str(value));
        } else if str_is(prop, "width") || str_is(prop, "height") {
            assert(prop@.len() == 5 && prop@[0] == 'w' || prop@.len() == 6 && prop@[0] == 'h');
            let is_width = str_is(prop, "width");
            let size = if str_is(value, "content") {
                Some(if is_width { WIDTH_CONTENT } else { HEIGHT_CONTENT })
            } else {
                parse_u16(value)
            };
            if let Some(v) = size {
                let mut n = self.nodes[node_i as usize];
                if is_width {
                    n.set_width(v);
                } else {
                    n.set_height(v);
                }
                self.nodes.set(node_i as usize, n);
            }
        } else if str_is(prop, "padding") {
            assert(prop@.len() == 7 && prop@[0] == 'p' && prop@[1] == 'a');
            self.set_padding(node_i, values);
        } else if str_is(prop, "margin") {
            assert(prop@.len() == 6 && prop@[0] == 'm' && prop@[1] == 'a');
            if self.nodes[node_i as usize].plot.margin_idx == 0 && self.margin_idx >= MARGIN_MAX {
                return Ret::InvalidFormat;
            }
            self.set_margin(node_i, values);
        } else if str_is(prop, "direction") || str_is(prop, "align") || str_is(prop, "visible") {
            assert(prop@.len() == 9 && prop@[0] == 'd' || prop@.len() == 5 && prop@[0] == 'a' || prop@.len() == 7 && prop@[0] == 'v');
            let mut n = self.nodes[node_i as usize];
            if str_is(prop, "direction") {
            assert(prop@.len() == 9 && prop@[0] == 'd' && prop@[1] == 'i');
                n.set_direction(if values[0] == 0 { Direction::Horizontal } else { Direction::Vertical });
            } else if str_is(prop, "align") {
            assert(prop@.len() == 5 && prop@[0] == 'a' && prop@[1] == 'l');
                n.set_alignment(
                    if values[0] == 1 {
                        Alignment::Center
                    } else if values[0] == 2 {
                        Alignment::End
                    } else if values[0] == 3 {
                        Alignment::Stretch
                    } else {
                        Alignment::Start
                    },
                );
            } else {
                n.set_visibility(if values[0] == 0 { Visibility::Hidden } else { Visibility::Visible });
            }
            self.nodes.set(node_i as usize, n);
        } else if str_is(prop, "font") {
            assert(prop@.len() == 4 && prop@[0] == 'f' && prop@[1] == 'o');
            if let Some(v) = parse_u8(value) {
                self.request_style(node_i).set_font(v);
            }
        } else if str_is(prop, "color") {
            assert(prop@.len() == 5 && prop@[0] == 'c' && prop@[1] == 'o');
            if let Some(v) = parse_u8(value) {
                self.request_style(node_i).set_color(v);
            }
        } else if str_is(prop, "background") {
            assert(prop@.len() == 10 && prop@[0] == 'b' && prop@[1] == 'a');
            if let Some(v) = parse_u8(value) {
                self.request_style(node_i).set_background(v);
            }
        } else if str_is(prop, "border") {
            assert(prop@.len() == 6 && prop@[0] == 'b' && prop@[1] == 'o');
            if eq_ignore_ascii_case(value, "solid") {
                self.request_style(node_i).set_border(BORDER_RECT);
            } else if let Some(v) = parse_u8(value) {
                self.request_style(node_i).set_border(v);
            }
        } else {
            return Ret::InvalidProperty;
        }
        Ret::Success
    }

    /// Runs a DOM command: `$clear`, `$xml`, `$inspect` or a property command
    /// `$<node>.<property>=<value>`, replying with `$<code>`; or `xml=…`,
    /// `bin=…`, `page=<n>` to build the DOM, replying with `<code>`. Gives
    /// none where the line is no DOM command (`pkg=` clears the DOM and
    /// leaves the line to others).
    pub fn process_line(&mut self, line: &str, media: &Media) -> (r: Option<Vec<u8>>)
        requires
            old(self).wf(),
            media.wf(),
        ensures
            final(self).wf(),
            !is_dom_line(line@) && (eq_pos(line@) >= line@.len() || !(dom_key(line@) == "pkg"@ || dom_key(line@) == "xml"@
                || dom_key(line@) == "bin"@ || dom_key(line@) == "page"@)) ==> r is None && *final(self) == *old(self),
            !is_dom_line(line@) && eq_pos(line@) < line@.len() && dom_key(line@) == "pkg"@ ==> r is None && all_fresh(*final(self)),
            !is_dom_line(line@) && eq_pos(line@) < line@.len() && dom_key(line@) == "page"@ ==> (r matches Some(o)
                && o@ == seq![(48 + page_ret(media.libs().pages, dom_arg(line@)).spec_code()) as u8, 13u8, 10u8]),
            !is_dom_line(line@) && eq_pos(line@) < line@.len() && dom_key(line@) == "xml"@ ==> ({
                let (v, ret) = xml_build_run(
                    dom_arg(line@),
                    page_start(clear_view(old(self).styles@[STYLE_MAX as int])),
                    xml_start(),
                    xml_fuel(dom_arg(line@).len()),
                );
                &&& r matches Some(o) && o@ == seq![(48 + ret.spec_code()) as u8, 13u8, 10u8]
                &&& dom_view(*final(self)) == v
            }),
            !is_dom_line(line@) && eq_pos(line@) < line@.len() && dom_key(line@) == "bin"@ ==> ({
                let (st, ret) = page_run(encode_utf8(dom_arg(line@)), page_start(reset_view(old(self).styles@[STYLE_MAX as int])));
                &&& r matches Some(o) && o@ == seq![(48 + ret.spec_code()) as u8, 13u8, 10u8]
                &&& dom_view(*final(self)) == st.v
            }),
            is_dom_line(line@) && line@.subrange(1, line@.len() as int) == "clear"@ ==> (r matches Some(o) && o@ == reply(36, 0))
                && all_fresh(*final(self)),
            is_dom_line(line@) && (line@.subrange(1, line@.len() as int) == "xml"@ || line@.subrange(1, line@.len() as int) == "inspect"@)
                ==> *final(self) == *old(self) && (r matches Some(o) && o@.len() >= 4
                    && o@.subrange(o@.len() - 4, o@.len() as int) == reply(36, 0)),
            is_dom_line(line@) && !(line@.subrange(1, line@.len() as int) == "clear"@ || line@.subrange(1, line@.len() as int) == "xml"@
                || line@.subrange(1, line@.len() as int) == "inspect"@) ==> (r matches Some(o)
                    && o@ == reply(36, property_line_ret(*old(self), line@).spec_code())),
            is_dom_line(line@) && !(line@.subrange(1, line@.len() as int) == "clear"@ || line@.subrange(1, line@.len() as int) == "xml"@
                || line@.subrange(1, line@.len() as int) == "inspect"@) && dom_dot(line@) < dom_head(line@).len()
                && dom_node(line@) < NODE_MAX ==> property_set(*old(self), *final(self), dom_node(line@), dom_prop(line@),
                    dom_value(line@), property_ret(*old(self), dom_node(line@), dom_prop(line@))),
            is_dom_line(line@) && !(line@.subrange(1, line@.len() as int) == "clear"@ || line@.subrange(1, line@.len() as int) == "xml"@
                || line@.subrange(1, line@.len() as int) == "inspect"@) && !(dom_dot(line@) < dom_head(line@).len()
                && dom_node(line@) < NODE_MAX) ==> *final(self) == *old(self),
    {
        proof {
            reveal_strlit("$");
            assert("$"@ =~= seq!['$']);
            if line@.len() > 0 {
                assert(line@.subrange(0, 1) =~= seq![line@[0]]);
            }
        }
        let n = line.unicode_len();
        if starts_with(line, "$") {
            let rest = line.substring_char(1, n);
            proof {
                reveal_strlit("clear");
                reveal_strlit("xml");
                reveal_strlit("inspect");
            }
            let mut out: Vec<u8> = Vec::new();
            let ret = if str_is(rest, "clear") {
                assert(rest@.len() == 5);
                self.clear();
                Ret::Success
            } else if str_is(rest, "xml") {
                assert(rest@.len() == 3);
                out = self.to_xml(Some(" "), false);
                Ret::Success
            } else if str_is(rest, "inspect") {
                assert(rest@.len() == 7);
                out = self.inspect();
                Ret::Success
            } else {
                assert(line@.subrange(0, 1)[0] == '$');
                let split_p = find_char(line, '=', 0);
                assert(split_p >= 1);
                let head = line.substring_char(1, if split_p >= 1 { split_p } else { 1 });
                assert(head@ == dom_head(line@));
                let dot = find_char(head, '.', 0);
                let value = if split_p >= n {
                    proof {
                        reveal_strlit(" ");
                        assert(" "@ =~= seq![' ']);
                    }
                    " "
                } else {
                    trim(line.substring_char(split_p + 1, n))
                };
                assert(value@ == dom_value(line@));
                if dot < head.unicode_len() {
                    let node_str = head.substring_char(0, dot);
                    let prop_end = find_char(head, '.', dot + 1);
                    let prop = trim(head.substring_char(dot + 1, prop_end));
                    assert(prop@ == dom_prop(line@));
                    let node_i = match parse_u8(node_str) {
                        Some(v) => v,
                        None => NODE_MAX,
                    };
                    assert(node_i == dom_node(line@));
                    if node_i < NODE_MAX {
                        self.set_property(node_i, prop, value)
                    } else {
                        Ret::InvalidArgument
                    }
                } else {
                    Ret::InvalidFormat
                }
            };
            let res_line = Control::send_result("$", ret.code());
            proof {
                vstd::string::is_ascii_spec_bytes("$");
                assert(vstd::string::is_ascii("$"));
                assert("$".spec_bytes() =~= seq![36u8]);
                assert(res_line@ =~= reply(36, ret.spec_code()));
            }
            let ghost before = out@;
            crate::media::inspect::push_bytes(&mut out, res_line.as_slice());
            assert(out@ == before + reply(36, ret.spec_code()));
            assert(out@.subrange(out@.len() - 4, out@.len() as int) =~= reply(36, ret.spec_code()));
            Some(out)
        } else {
            self.process_build_line(line, media)
        }
    }

    /// The lines that build the DOM: `pkg=` (clears it and leaves the line
    /// to others), `xml=…`, `bin=…` and `page=<n>`, each but the first
    /// answered with `<code>`. Gives none for any other line.
    #[verifier::spinoff_prover]
    fn process_build_line(&mut self, line: &str, media: &Media) -> (r: Option<Vec<u8>>)
        requires
            old(self).wf(),
            media.wf(),
            !is_dom_line(line@),
        ensures
            final(self).wf(),
            eq_pos(line@) >= line@.len() || !(dom_key(line@) == "pkg"@ || dom_key(line@) == "xml"@
                || dom_key(line@) == "bin"@ || dom_key(line@) == "page"@) ==> r is None && *final(self) == *old(self),
            eq_pos(line@) < line@.len() && dom_key(line@) == "pkg"@ ==> r is None && all_fresh(*final(self)),
            eq_pos(line@) < line@.len() && dom_key(line@) == "page"@ ==> (r matches Some(o)
                && o@ == seq![(48 + page_ret(media.libs().pages, dom_arg(line@)).spec_code()) as u8, 13u8, 10u8]),
            eq_pos(line@) < line@.len() && dom_key(line@) == "xml"@ ==> ({
                let (v, ret) = xml_build_run(
                    dom_arg(line@),
                    page_start(clear_view(old(self).styles@[STYLE_MAX as int])),
                    xml_start(),
                    xml_fuel(dom_arg(line@).len()),
                );
                &&& r matches Some(o) && o@ == seq![(48 + ret.spec_code()) as u8, 13u8, 10u8]
                &&& dom_view(*final(self)) == v
            }),
            eq_pos(line@) < line@.len() && dom_key(line@) == "bin"@ ==> ({
                let (st, ret) = page_run(encode_utf8(dom_arg(line@)), page_start(reset_view(old(self).styles@[STYLE_MAX as int])));
                &&& r matches Some(o) && o@ == seq![(48 + ret.spec_code()) as u8, 13u8, 10u8]
                &&& dom_view(*final(self)) == st.v
            }),
    {
        let n = line.unicode_len();
        let eq = find_char(line, '=', 0);
        if eq >= n {
            return None;
        }
        let key = trim(line.substring_char(0, eq));
        let arg = trim(line.substring_char(eq + 1, n));
        proof {
            reveal_strlit("pkg");
            reveal_strlit("xml");
            reveal_strlit("bin");
            reveal_strlit("page");
            reveal_strlit("");
        }
        let ret = if str_is(key, "pkg") {
            assert(key@.len() == 3 && key@[0] == 'p');
            self.clear();
            return None;
        } else if str_is(key, "xml") {
            assert(key@.len() == 3 && key@[0] == 'x');
            self.from_xml(arg)
        } else if str_is(key, "bin") {
            assert(key@.len() == 3 && key@[0] == 'b');
            self.from(arg.as_bytes())
        } else if str_is(key, "page") {
            assert(key@.len() == 4);
            match parse_u8(arg) {
                Some(v) => {
                    let page = media.get_page(v);
                    proof {
                        crate::media::page::lemma_blob_lookup_index(media.libs().pages, LIBRARY_MAX - 1, v);
                    }
                    self.from(page.content.as_slice());
                    if page.source == 255 { Ret::InvalidSource } else { Ret::Success }
                },
                None => Ret::InvalidArgument,
            }
        } else {
            return None;
        };
        assert("".spec_bytes() =~= Seq::<u8>::empty());
        Some(Control::send_result("", ret.code()))
    }
}

} // verus!
