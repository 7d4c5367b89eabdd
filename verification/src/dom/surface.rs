//! Drawing a laid-out DOM on a surface.

use vstd::prelude::*;
use crate::{Area, NodeIdx, Point, Size, DOM_DEPTH_MAX, CONTENT_MAX, FONT_MAX, NODE_MAX};
use crate::media::{font, image};
use crate::node::{zero_areas, NodePosition, Visibility, HEIGHT_FLEX, WIDTH_FLEX};
use crate::surface::{Clip, Surface};
use super::calculate::{full_padding_spec, i8_saturating_add, layout_spec, sat_i8};
use crate::{sat_i16, BORDER_RECT};
use crate::media::{stored_name, IdentView, MediaLibs};
use crate::media::border::patch_of;
use crate::plot::content::content_chars;
use crate::surface::{fill_spec, rect_spec};
use crate::surface::font::{canvas_of, text_drawn_on, Canvas};
use crate::surface::image::pixel_color;
use crate::surface::ninepatch::ninepatch_fb;
use super::DOM;
use crate::node::style::Style;
use vstd::string::StringSliceAdditionalSpecFns;

verus! {

/// `a + b`, or `i16::MAX` where the sum leaves the range of `i16`.
fn add_or_max(a: i16, b: i16) -> (r: i16)
    ensures
        r == if i16::MIN <= a + b <= i16::MAX { (a + b) as i16 } else { i16::MAX },
{
    let s: i32 = a as i32 + b as i32;
    if -32768 <= s && s <= 32767 { s as i16 } else { i16::MAX }
}

fn max_i16(a: i16, b: i16) -> (r: i16)
    ensures
        r == if a >= b { a } else { b },
{
    if a >= b { a } else { b }
}

fn min_i16(a: i16, b: i16) -> (r: i16)
    ensures
        r == if a <= b { a } else { b },
{
    if a <= b { a } else { b }
}

/// Half the room left for content of `size` in `space` after the paddings
/// `before` and `after`; none where there is none left.
fn center_offset(space: u16, size: u16, before: i8, after: i8) -> (r: i16)
    ensures
        r >= 0,
        r == center_off(space, size, before, after),
{
    let room = space.saturating_sub(size) as i16;
    let v = crate::i16_saturating_sub(room, i8_saturating_add(before, after) as i16);
    if v > 0 { v / 2 } else { 0 }
}

/// Half the room left for content of `size` in `space` after the paddings
/// `before` and `after`; none where there is none left.
pub open spec fn center_off(space: u16, size: u16, before: i8, after: i8) -> i16 {
    let room = space.saturating_sub(size) as i16;
    let v = sat_i16(room - (sat_i8(before + after) as i16));
    if v > 0 { (v / 2) as i16 } else { 0 }
}

/// `a + b`, or `i16::MAX` where the sum leaves the range of `i16`.
pub open spec fn add_or_max_spec(a: i16, b: i16) -> i16 {
    if i16::MIN <= a + b <= i16::MAX { (a + b) as i16 } else { i16::MAX }
}

/// The area of node `n` inside its margins, its clip (that area cut to the
/// parent's clip `clip_p`) and the clip for its children (inside its
/// paddings unless `last`).
pub open spec fn node_frame(d: DOM, res: Seq<(Area, Size)>, n: int, clip_p: Clip, last: bool) -> (Area, Clip, Clip) {
    let node = d.nodes@[n];
    let pos = res[n];
    let m = d.margins@[node.plot.margin_idx as int];
    let p = Point { x: pos.0.point.x.wrapping_add(m.w as i16), y: pos.0.point.y.wrapping_add(m.n as i16) };
    let sz = Size {
        width: pos.0.size.width.saturating_sub(((m.e + m.w) as i8) as u16),
        height: pos.0.size.height.saturating_sub(((m.n + m.s) as i8) as u16),
    };
    let clip_n = Clip {
        p0: Point {
            x: if clip_p.p0.x >= p.x { clip_p.p0.x } else { p.x },
            y: if clip_p.p0.y >= p.y { clip_p.p0.y } else { p.y },
        },
        p1: Point {
            x: if clip_p.p1.x <= add_or_max_spec(p.x, sz.width as i16) { clip_p.p1.x } else { add_or_max_spec(p.x, sz.width as i16) },
            y: if clip_p.p1.y <= add_or_max_spec(p.y, sz.height as i16) { clip_p.p1.y } else { add_or_max_spec(p.y, sz.height as i16) },
        },
    };
    let pad = d.paddings@[node.plot.padding_idx as int];
    let clip_c = if last {
        clip_n
    } else {
        Clip {
            p0: Point { x: clip_n.p0.x.wrapping_add(pad.w as i16), y: clip_n.p0.y.wrapping_add(pad.n as i16) },
            p1: Point { x: clip_n.p1.x.wrapping_sub(pad.e as i16), y: clip_n.p1.y.wrapping_sub(pad.s as i16) },
        }
    };
    (Area { point: p, size: sz }, clip_n, clip_c)
}

/// The pixels after drawing the text of node `n` in `area`: centered inside
/// the paddings (with the border), in typesetting `ts`, clipped to `clip_c`;
/// nothing for a node without text.
pub open spec fn node_text_fb(
    d: DOM,
    res: Seq<(Area, Size)>,
    libs: MediaLibs,
    cv: Canvas,
    drawing: image::Settings,
    ts: font::Settings,
    fb: Seq<u8>,
    n: int,
    area: Area,
    clip_c: Clip,
) -> Seq<u8> {
    let node = d.nodes@[n];
    let raw = d.contents@[node.plot.content_idx as int].raw@;
    if node.plot.content_idx != CONTENT_MAX && stored_name(raw).len() > 0 {
        let fpad = full_padding_spec(d, libs.borders, node);
        let p = area.point;
        let sz = area.size;
        let c = res[n].1;
        let at = Point {
            x: sat_i16(sat_i16(p.x + (fpad.w as i16)) + center_off(sz.width, c.width, fpad.w, fpad.e)),
            y: sat_i16(sat_i16(p.y + (fpad.n as i16)) + center_off(sz.height, c.height, fpad.n, fpad.s)),
        };
        text_drawn_on(libs, Canvas { clip: clip_c, ..cv }, drawing, ts, IdentView::Index(ts.active_idx), at, content_chars(raw), fb)
    } else {
        fb
    }
}

/// The typesetting a node's text is drawn in: its style's font where it
/// names one, inverted for color 0.
pub open spec fn node_typesetting_of(st: Style, ts: font::Settings) -> font::Settings {
    font::Settings {
        inverted: st.color == 0,
        active_idx: if st.font_idx < FONT_MAX { st.font_idx } else { ts.active_idx },
        ..ts
    }
}

/// What drawing node `n` does inside the clip of its parent `clip_p`: the
/// pixels after it and the clip for its children (see `node_frame`). The
/// background fills the area, the text is drawn (see `node_text_fb`), the
/// border last.
pub open spec fn node_draw(
    d: DOM,
    res: Seq<(Area, Size)>,
    libs: MediaLibs,
    cv: Canvas,
    drawing: image::Settings,
    ts: font::Settings,
    fb: Seq<u8>,
    n: int,
    clip_p: Clip,
    last: bool,
) -> (Seq<u8>, Clip) {
    let node = d.nodes@[n];
    let st = d.styles@[node.plot.style_idx as int];
    let (area, clip_n, clip_c) = node_frame(d, res, n, clip_p, last);
    let fb1 = if st.background != 255 {
        fill_spec(fb, cv.width, cv.height, clip_n, area, cv.palette[if st.background < 1 { 0int } else { 1int }])
    } else {
        fb
    };
    let fb2 = node_text_fb(d, res, libs, cv, drawing, node_typesetting_of(st, ts), fb1, n, area, clip_c);
    let fb3 = if st.border_idx == BORDER_RECT {
        rect_spec(fb2, cv.width, cv.height, clip_n, area, cv.palette[1])
    } else if st.border_idx < BORDER_RECT {
        ninepatch_fb(Canvas { clip: clip_n, ..cv }, patch_of(libs.borders, IdentView::Index(st.border_idx)), area, fb2)
    } else {
        fb2
    };
    (fb3, clip_c)
}

/// A node's text is drawn inverted exactly where its style's color is 0:
/// with the palette black and white, a set glyph pixel comes out in color 1
/// for the default color 1 (any color but 0), and in color 0 for color 0.
pub proof fn law_node_text_color(st: Style, ts: font::Settings)
    ensures
        node_typesetting_of(st, ts).inverted == (st.color == 0),
        pixel_color(seq![0u8, 1u8], 1, node_typesetting_of(st, ts).inverted) == (if st.color == 0 { 0u8 } else { 1u8 }),
{
}

/// How a node is drawn does not hang on whether the settings it is handed
/// are inverted: its style decides.
pub proof fn law_node_draw_ignores_inverted(
    d: DOM,
    res: Seq<(Area, Size)>,
    libs: MediaLibs,
    cv: Canvas,
    drawing: image::Settings,
    ts: font::Settings,
    fb: Seq<u8>,
    n: int,
    clip_p: Clip,
    last: bool,
)
    ensures
        node_draw(d, res, libs, cv, drawing, ts, fb, n, clip_p, last)
            == node_draw(d, res, libs, cv, drawing, font::Settings { inverted: !ts.inverted, ..ts }, fb, n, clip_p, last),
{
    let st = d.styles@[d.nodes@[n].plot.style_idx as int];
    assert(node_typesetting_of(st, ts) == node_typesetting_of(st, font::Settings { inverted: !ts.inverted, ..ts }));
}

/// The area, clip and children's clip of node `n_i` (see `node_frame`).
fn frame_of(dom: &DOM, positionings: &NodePosition, n_i: NodeIdx, clip_p: Clip, last_level: bool) -> (r: (Area, Clip, Clip))
    requires
        dom.wf(),
        positionings.wf(),
        n_i < NODE_MAX,
    ensures
        r == node_frame(*dom, positionings.areas@, n_i as int, clip_p, last_level),
{
    let node = dom.nodes[n_i as usize];
    let position = positionings.areas[n_i as usize];
    let mut p = position.0.point;
    let mut s = position.0.size;
    let margin = dom.margins[node.plot.margin_idx as usize];
    p.x = p.x.wrapping_add(margin.w as i16);
    p.y = p.y.wrapping_add(margin.n as i16);
    s.width = s.width.saturating_sub(super::calculate::wrap_i8(margin.e, margin.w) as u16);
    s.height = s.height.saturating_sub(super::calculate::wrap_i8(margin.n, margin.s) as u16);
    let clip_n = Clip {
        p0: Point { x: max_i16(clip_p.p0.x, p.x), y: max_i16(clip_p.p0.y, p.y) },
        p1: Point {
            x: min_i16(clip_p.p1.x, add_or_max(p.x, s.width as i16)),
            y: min_i16(clip_p.p1.y, add_or_max(p.y, s.height as i16)),
        },
    };
    let pad = dom.paddings[node.plot.padding_idx as usize];
    let clip_c = if last_level {
        clip_n
    } else {
        Clip {
            p0: Point { x: clip_n.p0.x.wrapping_add(pad.w as i16), y: clip_n.p0.y.wrapping_add(pad.n as i16) },
            p1: Point { x: clip_n.p1.x.wrapping_sub(pad.e as i16), y: clip_n.p1.y.wrapping_sub(pad.s as i16) },
        }
    };
    (Area { point: p, size: s }, clip_n, clip_c)
}

/// The pixels after drawing the walk from node `n` at `depth` (going down,
/// or coming up where `up`), for at most `fuel` steps: visible nodes are
/// drawn on the way down, parents before children, each in the clip its
/// parent left in `clips`; a hidden node hides its subtree. Nodes are
/// visited through first children and next siblings (the root's siblings
/// aside), ancestors kept on a stack of `DOM_DEPTH_MAX`.
pub open spec fn render_walk(
    d: DOM,
    res: Seq<(Area, Size)>,
    libs: MediaLibs,
    cv: Canvas,
    drawing: image::Settings,
    n: int,
    depth: int,
    up: bool,
    stack: Seq<NodeIdx>,
    clips: Seq<Clip>,
    fb: Seq<u8>,
    fuel: nat,
) -> Seq<u8>
    decreases fuel,
{
    if fuel == 0 {
        fb
    } else {
        let node = d.nodes@[n];
        let f = (fuel - 1) as nat;
        if !up {
            if node.spec_visibility() == Visibility::Hidden {
                render_walk(d, res, libs, cv, drawing, n, depth, true, stack, clips, fb, f)
            } else {
                let last = depth + 1 >= DOM_DEPTH_MAX;
                let (fb2, cc) = node_draw(d, res, libs, cv, drawing, font::default_settings(), fb, n, clips[depth], last);
                let clips2 = if !last { clips.update(depth + 1, cc) } else { clips };
                if node.first_child == NODE_MAX {
                    render_walk(d, res, libs, cv, drawing, n, depth, true, stack, clips2, fb2, f)
                } else if depth + 1 >= DOM_DEPTH_MAX || node.first_child > NODE_MAX {
                    fb2
                } else {
                    render_walk(d, res, libs, cv, drawing, node.first_child as int, depth + 1, false, stack.update(depth, n as NodeIdx), clips2, fb2, f)
                }
            }
        } else if depth == 0 {
            fb
        } else if n > 0 && node.next_sibling != NODE_MAX {
            if node.next_sibling > NODE_MAX {
                fb
            } else {
                render_walk(d, res, libs, cv, drawing, node.next_sibling as int, depth, false, stack, clips, fb, f)
            }
        } else {
            render_walk(d, res, libs, cv, drawing, stack[depth - 1] as int, depth - 1, true, stack, clips, fb, f)
        }
    }
}

impl Surface {
    /// Lays `dom` out for the whole surface, draws it and keeps the computed
    /// positions in the DOM. Drawing starts from the default image and text
    /// settings.
    pub fn update(&mut self, dom: &mut DOM)
        requires
            old(self).wf(),
            old(dom).wf(),
        ensures
            final(self).wf(),
            final(self).width == old(self).width,
            final(self).height == old(self).height,
            final(self).palette == old(self).palette,
            final(self).media.libs() == old(self).media.libs(),
            final(dom).wf(),
            final(dom).nodes@ == old(dom).nodes@,
            final(dom).same_tables_but_positions(old(dom)),
            final(dom).positions.areas@ == layout_spec(
                *old(dom),
                old(self).media.libs(),
                image::default_drawing(),
                Size { width: old(self).width, height: old(self).height },
                zero_areas(),
            ),
            final(self).fb() == render_walk(
                *old(dom),
                final(dom).positions.areas@,
                old(self).media.libs(),
                canvas_of(*old(self)),
                image::default_drawing(),
                0,
                0,
                false,
                Seq::new(8, |i: int| NODE_MAX),
                Seq::new(8, |i: int| full_clip(old(self).width, old(self).height)),
                old(self).fb(),
                1024,
            ),
    {
        let mut result = NodePosition::new();
        self.media.drawing = image::Settings::default();
        self.media.typesetting = font::Settings::default();
        let root = Size { width: self.width, height: self.height };
        dom.calculate(self, root, &mut result);
        self.render(dom, &result);
        dom.positions = result;
    }

    /// Sizes the root of `dom` to the whole surface.
    pub fn fullscreen(&self, dom: &mut DOM)
        requires
            old(dom).wf(),
        ensures
            final(dom).wf(),
            final(dom).same_tables(old(dom)),
            final(dom).nodes@ == old(dom).nodes@.update(
                0,
                crate::node::Node {
                    plot: crate::plot::Plot {
                        size: Size { width: WIDTH_FLEX, height: HEIGHT_FLEX },
                        ..old(dom).nodes@[0].plot
                    },
                    ..old(dom).nodes@[0]
                },
            ),
    {
        let mut root = dom.nodes[0];
        root.plot.size = Size { width: WIDTH_FLEX, height: HEIGHT_FLEX };
        dom.nodes.set(0, root);
    }

    /// Draws one visible node: its background, its content inside its
    /// paddings, and its border; gives the clip for its children.
    #[verifier::spinoff_prover]
    #[verifier::rlimit(60)]
    fn render_node(&mut self, dom: &DOM, positionings: &NodePosition, n_i: NodeIdx, clip_p: Clip, last_level: bool) -> (r: Clip)
        requires
            old(self).wf(),
            dom.wf(),
            positionings.wf(),
            n_i < NODE_MAX,
        ensures
            final(self).wf(),
            final(self).width == old(self).width,
            final(self).height == old(self).height,
            final(self).palette == old(self).palette,
            final(self).media.libs() == old(self).media.libs(),
            final(self).media.drawing == old(self).media.drawing,
            (final(self).fb(), r) == node_draw(
                *dom,
                positionings.areas@,
                old(self).media.libs(),
                canvas_of(*old(self)),
                old(self).media.drawing,
                old(self).media.typesetting,
                old(self).fb(),
                n_i as int,
                clip_p,
                last_level,
            ),
    {
        let node = dom.nodes[n_i as usize];
        let style = dom.styles[node.plot.style_idx as usize];
        let (area, clip_n, clip_c) = frame_of(dom, positionings, n_i, clip_p, last_level);
        self.clip = clip_n;
        if style.background != 255 {
            let color = self.get_color(style.background as usize);
            self.fill_rect(area, color);
        }
        self.media.typesetting.inverted = style.color == 0;
        if style.font_idx < FONT_MAX {
            self.media.typesetting.active_idx = style.font_idx;
        }
        assert(self.media.typesetting == node_typesetting_of(style, old(self).media.typesetting));
        self.draw_node_text(dom, positionings, n_i, area, clip_n, clip_c);
        self.draw_border(style.border_idx, area);
        clip_c
    }

    /// Draws the text of node `n_i` in `area` (see `node_text_fb`), clipped
    /// to `clip_c`; the clip is `clip_n` before and after.
    #[verifier::spinoff_prover]
    #[verifier::rlimit(40)]
    fn draw_node_text(&mut self, dom: &DOM, positionings: &NodePosition, n_i: NodeIdx, area: Area, clip_n: Clip, clip_c: Clip)
        requires
            old(self).wf(),
            dom.wf(),
            positionings.wf(),
            n_i < NODE_MAX,
            old(self).clip == clip_n,
        ensures
            final(self).wf(),
            final(self).same_but_pixels(old(self)),
            final(self).fb() == node_text_fb(
                *dom,
                positionings.areas@,
                old(self).media.libs(),
                canvas_of(*old(self)),
                old(self).media.drawing,
                old(self).media.typesetting,
                old(self).fb(),
                n_i as int,
                area,
                clip_c,
            ),
    {
        let node = dom.nodes[n_i as usize];
        let c = positionings.areas[n_i as usize].1;
        if node.plot.content_idx != CONTENT_MAX {
            let content = &dom.contents[node.plot.content_idx as usize];
            let text = content.as_str();
            proof {
                assert(text.spec_bytes().len() <= content.raw@.len());
                assert(content.raw.len() == content.raw@.len());
            }
            if text.len() > 0 {
                let fpad = dom.full_padding(node, self);
                let p = area.point;
                let s = area.size;
                let position = Point {
                    x: crate::i16_saturating_add(
                        crate::i16_saturating_add(p.x, fpad.w as i16),
                        center_offset(s.width, c.width, fpad.w, fpad.e),
                    ),
                    y: crate::i16_saturating_add(
                        crate::i16_saturating_add(p.y, fpad.n as i16),
                        center_offset(s.height, c.height, fpad.n, fpad.s),
                    ),
                };
                self.clip = clip_c;
                assert(canvas_of(*self) == (Canvas { clip: clip_c, ..canvas_of(*old(self)) }));
                content.draw(self, position);
                self.clip = clip_n;
            }
        }
    }

    /// Draws the visible nodes of `dom` at `positionings` (see
    /// `render_walk`), parents before children, each clipped to its parent's
    /// inner area; hidden nodes hide their subtree. The clip is reset to the
    /// whole surface afterwards.
    #[verifier::spinoff_prover]
    #[verifier::rlimit(40)]
    pub fn render(&mut self, dom: &DOM, positionings: &NodePosition)
        requires
            old(self).wf(),
            dom.wf(),
            positionings.wf(),
        ensures
            final(self).wf(),
            final(self).width == old(self).width,
            final(self).height == old(self).height,
            final(self).palette == old(self).palette,
            final(self).media.libs() == old(self).media.libs(),
            final(self).media.drawing == old(self).media.drawing,
            final(self).clip.p0 == (Point { x: 0, y: 0 }),
            final(self).clip.p1 == (Point { x: old(self).width as i16, y: old(self).height as i16 }),
            final(self).fb() == render_walk(
                *dom,
                positionings.areas@,
                old(self).media.libs(),
                canvas_of(*old(self)),
                old(self).media.drawing,
                0,
                0,
                false,
                Seq::new(8, |i: int| NODE_MAX),
                Seq::new(8, |i: int| full_clip(old(self).width, old(self).height)),
                old(self).fb(),
                1024,
            ),
    {
        let ghost s0 = *old(self);
        let ghost libs = s0.media.libs();
        let ghost cv = canvas_of(s0);
        let full = Clip { p0: Point { x: 0, y: 0 }, p1: Point { x: self.width as i16, y: self.height as i16 } };
        let mut p_stack: [NodeIdx; 8] = [NODE_MAX; 8];
        let mut p_clips: [Clip; 8] = [full; 8];
        assert(p_stack@ =~= Seq::new(8, |i: int| NODE_MAX));
        assert(p_clips@ =~= Seq::new(8, |i: int| full_clip(s0.width, s0.height)));
        let ghost goal = render_walk(*dom, positionings.areas@, libs, cv, s0.media.drawing, 0, 0, false, p_stack@, p_clips@, s0.fb(), 1024);
        let mut n_i: NodeIdx = 0;
        let mut p_i: usize = 0;
        let mut descent: u8 = 0;
        let mut steps: usize = 0;
        let mut done = false;
        while steps < 1024 && !done
            invariant
                self.wf(),
                dom.wf(),
                positionings.wf(),
                self.width == s0.width && self.height == s0.height,
                self.palette == s0.palette,
                self.media.libs() == libs,
                self.media.drawing == s0.media.drawing,
                cv == canvas_of(s0),
                libs == s0.media.libs(),
                n_i < NODE_MAX,
                p_i < DOM_DEPTH_MAX,
                descent <= 1,
                steps <= 1024,
                p_stack@.len() == 8,
                p_clips@.len() == 8,
                forall|j: int| 0 <= j < p_i ==> #[trigger] p_stack[j] < NODE_MAX,
                goal == render_walk(*dom, positionings.areas@, libs, cv, s0.media.drawing, 0, 0, false, Seq::new(8, |i: int| NODE_MAX), Seq::new(8, |i: int| full_clip(s0.width, s0.height)), s0.fb(), 1024),
                done ==> self.fb() == goal,
                !done ==> render_walk(*dom, positionings.areas@, libs, cv, s0.media.drawing, n_i as int, p_i as int, descent == 1, p_stack@, p_clips@, self.fb(), (1024 - steps) as nat) == goal,
            decreases 1024 - steps,
        {
            steps += 1;
            let node = dom.nodes[n_i as usize];
            self.media.typesetting = font::Settings::default();
            if descent == 0 {
                let hidden = match node.visibility() {
                    Visibility::Hidden => true,
                    Visibility::Visible => false,
                };
                if hidden {
                    descent = 1;
                } else {
                    let last_level = p_i + 1 >= DOM_DEPTH_MAX;
                    let ghost before = *self;
                    let clip_c = self.render_node(dom, positionings, n_i, p_clips[p_i], last_level);
                    assert(Canvas { clip: cv.clip, ..canvas_of(before) } == cv);
                    proof {
                        lemma_node_draw_clip_free(*dom, positionings.areas@, libs, canvas_of(before), cv.clip, s0.media.drawing, before.media.typesetting, before.fb(), n_i as int, p_clips@[p_i as int], last_level);
                    }
                    if !last_level {
                        p_clips[p_i + 1] = clip_c;
                    }
                    if node.first_child == NODE_MAX {
                        descent = 1;
                    } else if p_i + 1 >= DOM_DEPTH_MAX || node.first_child > NODE_MAX {
                        done = true;
                    } else {
                        p_stack[p_i] = n_i;
                        p_i += 1;
                        n_i = node.first_child;
                    }
                }
            } else if p_i == 0 {
                done = true;
            } else {
                let style = dom.styles[node.plot.style_idx as usize];
                if style.font_idx < FONT_MAX {
                    self.media.typesetting.active_idx = style.font_idx;
                }
                if n_i > 0 && node.next_sibling != NODE_MAX {
                    if node.next_sibling > NODE_MAX {
                        done = true;
                    } else {
                        descent = 0;
                        n_i = node.next_sibling;
                    }
                } else {
                    p_i -= 1;
                    n_i = p_stack[p_i];
                }
            }
        }
        let (w, h) = (self.width, self.height);
        self.clip.reset(w, h);
    }
}

/// The whole surface of `width` x `height` as a clip.
pub open spec fn full_clip(width: u16, height: u16) -> Clip {
    Clip { p0: Point { x: 0, y: 0 }, p1: Point { x: width as i16, y: height as i16 } }
}

/// Drawing a node does not depend on the clip the canvas had before.
proof fn lemma_node_draw_clip_free(
    d: DOM,
    res: Seq<(Area, Size)>,
    libs: MediaLibs,
    cv: Canvas,
    c: Clip,
    drawing: image::Settings,
    ts: font::Settings,
    fb: Seq<u8>,
    n: int,
    clip_p: Clip,
    last: bool,
)
    ensures
        node_draw(d, res, libs, Canvas { clip: c, ..cv }, drawing, ts, fb, n, clip_p, last)
            == node_draw(d, res, libs, cv, drawing, ts, fb, n, clip_p, last),
{
    let cv2 = Canvas { clip: c, ..cv };
    let (area, clip_n, clip_c) = node_frame(d, res, n, clip_p, last);
    assert(Canvas { clip: clip_c, ..cv2 } == Canvas { clip: clip_c, ..cv });
    assert(Canvas { clip: clip_n, ..cv2 } == Canvas { clip: clip_n, ..cv });
}

} // verus!
