//! The layout pass: sizes from the leaves up, then positions and flex shares
//! from the root down.

use vstd::prelude::*;
use crate::{
    sat_i16, Area, NodeIdx, Point, Size, BORDER_MAX, CONTENT_MAX, DOM_DEPTH_MAX, FONT_MAX,
    LIBRARY_MAX, NODE_MAX,
};
use crate::media::{stored_name, IdentView, Identifier, MediaLibs};
use crate::media::image;
use crate::plot::content::content_chars;
use crate::surface::font::text_size;
use vstd::string::StringSliceAdditionalSpecFns;
use crate::media::border::{border_lookup, border_result, piece_offset};
use crate::media::font;
use crate::node::{
    Alignment, Direction, Node, NodePosition, FLEX_MAX, HEIGHT_FLEX, HEIGHT_MAX, WIDTH_FLEX,
    WIDTH_MAX,
};
use crate::surface::Surface;
use super::{Margin, Padding, DOM};

verus! {

/// `a + b` clamped to the range of `i8`.
pub open spec fn sat_i8(v: int) -> i8 {
    if v > i8::MAX { i8::MAX } else if v < i8::MIN { i8::MIN } else { v as i8 }
}

/// Saturating addition on `i8`.
pub fn i8_saturating_add(a: i8, b: i8) -> (r: i8)
    ensures
        r == sat_i8(a + b),
{
    let s: i16 = a as i16 + b as i16;
    if s > 127 {
        i8::MAX
    } else if s < -128 {
        i8::MIN
    } else {
        s as i8
    }
}

/// The band sizes (north, east, south, west) of the border `ident` that
/// `get_border` gives for the libraries `libs`.
pub open spec fn border_bands(libs: Seq<Seq<u8>>, ident: IdentView) -> (u8, u8, u8, u8) {
    match border_lookup(libs, LIBRARY_MAX - 1, ident) {
        Some((li, h)) => {
            let d = libs[li];
            let bp = h.start;
            if d[bp] == 0 || d[bp + 1] == 0 || d[bp + 2] == 0 || d[bp + 3] == 0 || bp + 14
                + piece_offset(d, bp, 8) > d.len() {
                (1, 1, 1, 1)
            } else {
                (d[bp], d[bp + 1], d[bp + 2], d[bp + 3])
            }
        },
        None => (1, 1, 1, 1),
    }
}

/// A band grown by a border of `b` pixels and one pixel of space.
pub open spec fn grown(p: i8, b: u8) -> i8 {
    sat_i8(sat_i8(p + (b as i8)) + 1)
}

/// The padding of a node including its border: where the node frames its
/// content with a border of the media, each band grows by the border's band
/// and one pixel.
pub open spec fn full_padding_spec(d: DOM, libs: Seq<Seq<u8>>, node: Node) -> Padding {
    let p = d.paddings@[node.plot.padding_idx as int];
    let border_idx = d.styles@[node.plot.style_idx as int].border_idx;
    if node.spec_framing() && (border_idx < BORDER_MAX || border_idx == 254) {
        let b = border_bands(libs, IdentView::Index(border_idx));
        Padding { n: grown(p.n, b.0), e: grown(p.e, b.1), s: grown(p.s, b.2), w: grown(p.w, b.3) }
    } else {
        p
    }
}

/// The wrapped sum of four offsets, as the layout adds them in `u16`.
fn wrap_sum4(a: i8, b: i8, c: i8, d: i8) -> (r: u16)
    ensures
        r == (a + b + c + d) as u16,
{
    (a as i32 + b as i32 + c as i32 + d as i32) as u16
}

/// The wrapped sum of two offsets as a `u16`.
fn wrap_sum2(a: i8, b: i8) -> (r: u16)
    ensures
        r == (a + b) as u16,
{
    (a as i32 + b as i32) as u16
}

/// The flex weight of a size code in `(max, flex]`: 4 for `flex` down to 1.
fn flex_weight(code: u16, max: u16) -> (r: u16)
    requires
        max < code <= max + 4,
    ensures
        1 <= r <= 4,
        r == (FLEX_MAX + 1) - (code - max),
{
    (FLEX_MAX as u16 + 1) - (code - max)
}

/// The typesetting a node is measured in: the default one, in the font of
/// the node's style where it names one.
pub open spec fn node_typesetting(d: DOM, node: Node) -> font::Settings {
    let f = d.styles@[node.plot.style_idx as int].font_idx;
    if f < FONT_MAX {
        font::Settings { active_idx: f, ..font::default_settings() }
    } else {
        font::default_settings()
    }
}

/// The size of a node's content: its text laid out in typesetting `ts`, or
/// nothing where it has no text.
pub open spec fn content_size_spec(d: DOM, libs: MediaLibs, drawing: image::Settings, ts: font::Settings, node: Node) -> Size {
    let ci = node.plot.content_idx;
    if ci != CONTENT_MAX && stored_name(d.contents@[ci as int].raw@).len() > 0 {
        text_size(
            libs,
            IdentView::Index(ts.active_idx),
            drawing,
            ts,
            Point { x: 0, y: 0 },
            content_chars(d.contents@[ci as int].raw@),
        )
    } else {
        Size { width: 0, height: 0 }
    }
}

/// The first measure of node `n`: its content size, and as its outer size
/// its fixed size, or where it has none its content size plus paddings;
/// both plus its margins.
pub open spec fn measure_spec(
    d: DOM,
    libs: MediaLibs,
    drawing: image::Settings,
    ts: font::Settings,
    res: Seq<(Area, Size)>,
    n: int,
) -> Seq<(Area, Size)> {
    let node = d.nodes@[n];
    let pad = full_padding_spec(d, libs.borders, node);
    let mar = d.margins@[node.plot.margin_idx as int];
    let cs = content_size_spec(d, libs, drawing, ts, node);
    let w: u16 = if node.plot.size.width >= WIDTH_MAX {
        cs.width.saturating_add(sat_i8(mar.e + mar.w) as u16).saturating_add(sat_i8(pad.e + pad.w) as u16)
    } else {
        node.plot.size.width.saturating_add(sat_i8(mar.e + mar.w) as u16)
    };
    let h: u16 = if node.plot.size.height >= HEIGHT_MAX {
        cs.height.saturating_add(sat_i8(mar.n + mar.s) as u16).saturating_add(sat_i8(pad.n + pad.s) as u16)
    } else {
        node.plot.size.height.saturating_add(sat_i8(mar.n + mar.s) as u16)
    };
    res.update(n, (Area { point: res[n].0.point, size: Size { width: w, height: h } }, cs))
}

/// A parent `p` sized by its content grows by its child `n`: along its
/// direction the child's size adds up, across it the parent takes the
/// child's size plus its own margins and paddings where that is larger.
pub open spec fn grow_spec(d: DOM, libs: MediaLibs, res: Seq<(Area, Size)>, p: int, n: int) -> Seq<(Area, Size)> {
    let parent = d.nodes@[p];
    let mar = d.margins@[parent.plot.margin_idx as int];
    let pad = full_padding_spec(d, libs.borders, parent);
    let cw = res[n].0.size.width;
    let ch = res[n].0.size.height;
    let sz = res[p].0.size;
    let grow_w = parent.plot.size.width >= WIDTH_MAX;
    let grow_h = parent.plot.size.height >= HEIGHT_MAX;
    if grow_w || grow_h {
        let frame_w = (mar.e + mar.w + pad.e + pad.w) as u16;
        let frame_h = (mar.n + mar.s + pad.n + pad.s) as u16;
        let size = if parent.spec_direction() == Direction::Vertical {
            Size {
                width: if grow_w && sz.width < frame_w.saturating_add(cw) { frame_w.saturating_add(cw) } else { sz.width },
                height: if grow_h { sz.height.saturating_add(ch) } else { sz.height },
            }
        } else {
            Size {
                width: if grow_w { sz.width.saturating_add(cw) } else { sz.width },
                height: if grow_h && sz.height < frame_h.saturating_add(ch) { frame_h.saturating_add(ch) } else { sz.height },
            }
        };
        res.update(p, (Area { point: res[p].0.point, size: size }, res[p].1))
    } else {
        res
    }
}

/// Node `n` aligned across the direction of its parent `p`: stretched to
/// the parent's inner size, or moved by the free space (half of it to
/// center).
pub open spec fn align_spec(d: DOM, libs: MediaLibs, res: Seq<(Area, Size)>, p: int, n: int) -> Seq<(Area, Size)> {
    let node = d.nodes@[n];
    let parent = d.nodes@[p];
    let mar = d.margins@[parent.plot.margin_idx as int];
    let pad = full_padding_spec(d, libs.borders, parent);
    let rp = res[p].0;
    let rn = res[n];
    let align = node.spec_alignment();
    let moves = align == Alignment::Center || align == Alignment::End;
    let a = if parent.spec_direction() == Direction::Horizontal {
        let frame = (mar.n + mar.s + pad.n + pad.s) as u16;
        let space = rp.size.height.saturating_sub(rn.0.size.height).saturating_sub(frame);
        if align == Alignment::Stretch {
            Area { size: Size { height: rp.size.height.saturating_sub(frame), ..rn.0.size }, ..rn.0 }
        } else if moves {
            let by: u16 = if align == Alignment::Center { space / 2 } else { space };
            Area { point: Point { y: rn.0.point.y.wrapping_add(by as i16), ..rn.0.point }, ..rn.0 }
        } else {
            rn.0
        }
    } else {
        let frame = (mar.e + mar.w + pad.e + pad.w) as u16;
        let space = rp.size.width.saturating_sub(rn.0.size.width).saturating_sub(frame);
        if align == Alignment::Stretch {
            Area { size: Size { width: rp.size.width.saturating_sub(frame), ..rn.0.size }, ..rn.0 }
        } else if moves {
            let by: u16 = if align == Alignment::Center { space / 2 } else { space };
            Area { point: Point { x: rn.0.point.x.wrapping_add(by as i16), ..rn.0.point }, ..rn.0 }
        } else {
            rn.0
        }
    };
    res.update(n, (a, rn.1))
}

/// Whether a size code asks for a share of the free space.
pub open spec fn is_flex(code: u16, max: u16, flex: u16) -> bool {
    max < code && code <= flex
}

/// What the children of a node add up to along its direction: the fixed
/// sizes, the flex weights and the margins of the flex children.
pub struct FlexTally {
    pub fixed: u16,
    pub cnt: u16,
    pub margin: i16,
}

/// The first walk over the children from `c`: tallies sizes and weights and
/// stretches the flex children across the direction to the parent's inner
/// size `outer` minus paddings.
pub open spec fn flex_scan(
    d: DOM,
    outer: Size,
    pad: Padding,
    horizontal: bool,
    t: FlexTally,
    res: Seq<(Area, Size)>,
    c: int,
    fuel: nat,
) -> (FlexTally, Seq<(Area, Size)>)
    decreases fuel,
{
    if fuel == 0 {
        (t, res)
    } else {
        let child = d.nodes@[c];
        let mar = d.margins@[child.plot.margin_idx as int];
        let rc = res[c];
        let fw = is_flex(child.plot.size.width, WIDTH_MAX, WIDTH_FLEX);
        let fh = is_flex(child.plot.size.height, HEIGHT_MAX, HEIGHT_FLEX);
        let (t2, a) = if horizontal {
            let t1 = if fw {
                FlexTally { cnt: (t.cnt + (FLEX_MAX + 1) - (child.plot.size.width - WIDTH_MAX)) as u16, ..t }
            } else {
                FlexTally { fixed: t.fixed.wrapping_add(rc.0.size.width), ..t }
            };
            if fh {
                (
                    FlexTally { margin: t1.margin.wrapping_add(((mar.e + mar.w) as i8) as i16), ..t1 },
                    Area { size: Size { height: outer.height.saturating_sub((pad.n + pad.s) as u16), ..rc.0.size }, ..rc.0 },
                )
            } else {
                (t1, rc.0)
            }
        } else {
            let a1 = if fw {
                Area { size: Size { width: outer.width.saturating_sub((pad.e + pad.w) as u16), ..rc.0.size }, ..rc.0 }
            } else {
                rc.0
            };
            if fh {
                (
                    FlexTally {
                        cnt: (t.cnt + (FLEX_MAX + 1) - (child.plot.size.height - HEIGHT_MAX)) as u16,
                        margin: t.margin.wrapping_add(((mar.n + mar.s) as i8) as i16),
                        ..t
                    },
                    a1,
                )
            } else {
                (FlexTally { fixed: t.fixed.wrapping_add(rc.0.size.height), ..t }, a1)
            }
        };
        let res2 = res.update(c, (a, rc.1));
        if child.next_sibling >= NODE_MAX {
            (t2, res2)
        } else {
            flex_scan(d, outer, pad, horizontal, t2, res2, child.next_sibling as int, (fuel - 1) as nat)
        }
    }
}

/// `a * b` clamped to the range of `u16`.
pub open spec fn sat_mul(a: u16, b: u16) -> u16 {
    if a * b > u16::MAX { u16::MAX } else { (a * b) as u16 }
}

/// The second walk over the children from `c`: each flex child gets `step`
/// per unit of its weight, the remainder `remain` (one less for each flex
/// child in turn), and its margins.
pub open spec fn flex_share(
    d: DOM,
    horizontal: bool,
    step: u16,
    remain: u16,
    res: Seq<(Area, Size)>,
    c: int,
    fuel: nat,
) -> Seq<(Area, Size)>
    decreases fuel,
{
    if fuel == 0 {
        res
    } else {
        let child = d.nodes@[c];
        let mar = d.margins@[child.plot.margin_idx as int];
        let rc = res[c];
        let w = child.plot.size.width;
        let h = child.plot.size.height;
        let (a, remain2) = if horizontal && is_flex(w, WIDTH_MAX, WIDTH_FLEX) {
            let share = sat_mul(step, ((FLEX_MAX + 1) - (w - WIDTH_MAX)) as u16).saturating_add(remain).saturating_add(
                sat_i8(mar.e + mar.w) as u16,
            );
            (Area { size: Size { width: share, ..rc.0.size }, ..rc.0 }, remain.saturating_sub(1))
        } else if !horizontal && is_flex(h, HEIGHT_MAX, HEIGHT_FLEX) {
            let share = sat_mul(step, ((FLEX_MAX + 1) - (h - HEIGHT_MAX)) as u16).saturating_add(remain).saturating_add(
                sat_i8(mar.n + mar.s) as u16,
            );
            (Area { size: Size { height: share, ..rc.0.size }, ..rc.0 }, remain.saturating_sub(1))
        } else {
            (rc.0, remain)
        };
        let res2 = res.update(c, (a, rc.1));
        if child.next_sibling >= NODE_MAX {
            res2
        } else {
            flex_share(d, horizontal, step, remain2, res2, child.next_sibling as int, (fuel - 1) as nat)
        }
    }
}

/// The third walk over the children from `c`: each is placed at `pos` plus
/// the parent's margins, and `pos` moves on by its size along the direction.
pub open spec fn line_up(
    d: DOM,
    horizontal: bool,
    mar: Margin,
    pos: Point,
    res: Seq<(Area, Size)>,
    c: int,
    fuel: nat,
) -> Seq<(Area, Size)>
    decreases fuel,
{
    if fuel == 0 {
        res
    } else {
        let child = d.nodes@[c];
        let rc = res[c];
        let a = Area { point: Point { x: sat_i16(pos.x + (mar.e as i16)), y: sat_i16(pos.y + (mar.n as i16)) }, ..rc.0 };
        let pos2 = if horizontal {
            Point { x: sat_i16(pos.x + (rc.0.size.width as i16)), ..pos }
        } else {
            Point { y: sat_i16(pos.y + (rc.0.size.height as i16)), ..pos }
        };
        let res2 = res.update(c, (a, rc.1));
        if child.next_sibling >= NODE_MAX {
            res2
        } else {
            line_up(d, horizontal, mar, pos2, res2, child.next_sibling as int, (fuel - 1) as nat)
        }
    }
}

/// The space the flex children of node `n` share: its size along its
/// direction without paddings and margins, less the fixed sizes and the
/// margins of the flex children.
pub open spec fn flex_space(d: DOM, libs: MediaLibs, outer: Size, n: int, t: FlexTally) -> u16 {
    let node = d.nodes@[n];
    let mar = d.margins@[node.plot.margin_idx as int];
    let pad = full_padding_spec(d, libs.borders, node);
    let inner: u16 = if node.spec_direction() == Direction::Horizontal {
        outer.width.saturating_sub((pad.w + pad.e + mar.w + mar.e) as u16)
    } else {
        outer.height.saturating_sub((pad.n + pad.s + mar.n + mar.s) as u16)
    };
    inner.saturating_sub(t.fixed).saturating_sub(t.margin as u16)
}

/// The children of node `n` sized and placed inside it (the three walks).
pub open spec fn place_children_spec(d: DOM, libs: MediaLibs, res: Seq<(Area, Size)>, n: int) -> Seq<(Area, Size)> {
    let node = d.nodes@[n];
    if node.first_child >= NODE_MAX {
        res
    } else {
        let outer = res[n].0;
        let horizontal = node.spec_direction() == Direction::Horizontal;
        let mar = d.margins@[node.plot.margin_idx as int];
        let pad = full_padding_spec(d, libs.borders, node);
        let first = node.first_child as int;
        let (t, r1) = flex_scan(d, outer.size, pad, horizontal, FlexTally { fixed: 0, cnt: 0, margin: 0 }, res, first, NODE_MAX as nat);
        let r2 = if t.cnt > 0 {
            let space = flex_space(d, libs, outer.size, n, t);
            let step = space / t.cnt;
            flex_share(d, horizontal, step, (space - step * t.cnt) as u16, r1, first, NODE_MAX as nat)
        } else {
            r1
        };
        let start = Point { x: outer.point.x.wrapping_add(pad.w as i16), y: outer.point.y.wrapping_add(pad.n as i16) };
        line_up(d, horizontal, mar, start, r2, first, NODE_MAX as nat)
    }
}

/// The space flex children share shrinks by exactly the fixed sizes of
/// their siblings, as long as those fit in it.
pub proof fn law_flex_space_less_fixed(d: DOM, libs: MediaLibs, outer: Size, n: int, t: FlexTally)
    requires
        t.fixed <= flex_space(d, libs, outer, n, tally(0, t.cnt, t.margin)),
    ensures
        flex_space(d, libs, outer, n, t) == flex_space(d, libs, outer, n, tally(0, t.cnt, t.margin)) - t.fixed,
{
}

/// The width inside node `n` of the layout `res`: its width without its
/// paddings (with the border) and margins.
pub open spec fn inner_width(d: DOM, libs: MediaLibs, res: Seq<(Area, Size)>, n: int) -> u16 {
    let node = d.nodes@[n];
    let mar = d.margins@[node.plot.margin_idx as int];
    let pad = full_padding_spec(d, libs.borders, node);
    res[n].0.size.width.saturating_sub((pad.w + pad.e + mar.w + mar.e) as u16)
}

/// A row of two children, one of fixed width and one sized `flex` (neither
/// with side margins): the flex child takes what the fixed one leaves of the
/// row, so that the two fill it exactly, and the fixed one keeps its width.
pub proof fn law_flex_child_fills_row(d: DOM, libs: MediaLibs, res: Seq<(Area, Size)>, n: int, a: int, b: int)
    requires
        0 <= n < NODE_MAX,
        0 <= a < NODE_MAX,
        0 <= b < NODE_MAX,
        a != b,
        res.len() == NODE_MAX,
        d.nodes@[n].spec_direction() == Direction::Horizontal,
        d.nodes@[n].first_child == a,
        d.nodes@[a].next_sibling == b,
        d.nodes@[b].next_sibling >= NODE_MAX,
        !is_flex(d.nodes@[a].plot.size.width, WIDTH_MAX, WIDTH_FLEX),
        is_flex(d.nodes@[b].plot.size.width, WIDTH_MAX, WIDTH_FLEX),
        d.margins@[d.nodes@[a].plot.margin_idx as int].e == 0,
        d.margins@[d.nodes@[a].plot.margin_idx as int].w == 0,
        d.margins@[d.nodes@[b].plot.margin_idx as int].e == 0,
        d.margins@[d.nodes@[b].plot.margin_idx as int].w == 0,
        res[a].0.size.width <= inner_width(d, libs, res, n),
    ensures
        place_children_spec(d, libs, res, n)[a].0.size.width == res[a].0.size.width,
        place_children_spec(d, libs, res, n)[a].0.size.width + place_children_spec(d, libs, res, n)[b].0.size.width
            == inner_width(d, libs, res, n),
{
    let node = d.nodes@[n];
    let outer = res[n].0;
    let pad = full_padding_spec(d, libs.borders, node);
    let fuel = NODE_MAX as nat;
    let t0 = FlexTally { fixed: 0, cnt: 0, margin: 0 };
    let (t, r1) = flex_scan(d, outer.size, pad, true, t0, res, a, fuel);
    let wa = res[a].0.size.width;
    let wt = ((FLEX_MAX + 1) - (d.nodes@[b].plot.size.width - WIDTH_MAX)) as u16;
    assert(1 <= wt <= 4);
    let ca = d.nodes@[a];
    let mara = d.margins@[ca.plot.margin_idx as int];
    let ta = FlexTally { fixed: wa, ..t0 };
    let aa = if is_flex(ca.plot.size.height, HEIGHT_MAX, HEIGHT_FLEX) {
        Area { size: Size { height: outer.size.height.saturating_sub((pad.n + pad.s) as u16), ..res[a].0.size }, ..res[a].0 }
    } else {
        res[a].0
    };
    assert(((mara.e + mara.w) as i8) as i16 == 0);
    assert(0u16.wrapping_add(wa) == wa);
    assert(0i16.wrapping_add(0i16) == 0i16);
    let ra = res.update(a, (aa, res[a].1));
    assert(flex_scan(d, outer.size, pad, true, t0, res, a, fuel) == flex_scan(d, outer.size, pad, true, ta, ra, b, (fuel - 1) as nat));
    let cb = d.nodes@[b];
    let rcb = ra[b];
    let ab = if is_flex(cb.plot.size.height, HEIGHT_MAX, HEIGHT_FLEX) {
        Area { size: Size { height: outer.size.height.saturating_sub((pad.n + pad.s) as u16), ..rcb.0.size }, ..rcb.0 }
    } else {
        rcb.0
    };
    let tb = FlexTally { cnt: wt, ..ta };
    assert(flex_scan(d, outer.size, pad, true, ta, ra, b, (fuel - 1) as nat) == (tb, ra.update(b, (ab, rcb.1))));
    assert(t.fixed == wa && t.cnt == wt && t.margin == 0);
    assert(r1[a].0.size.width == wa);
    let space = flex_space(d, libs, outer.size, n, t);
    assert(space == inner_width(d, libs, res, n) - wa);
    let step = space / t.cnt;
    vstd::arithmetic::div_mod::lemma_fundamental_div_mod(space as int, wt as int);
    assert(step * wt <= space) by (nonlinear_arith)
        requires
            space as int == wt * (space as int / wt as int) + space as int % wt as int,
            0 <= space as int % wt as int,
            step == space as int / wt as int,
    ;
    let remain = (space - step * t.cnt) as u16;
    let r2 = flex_share(d, true, step, remain, r1, a, fuel);
    let r1a = r1.update(a, (r1[a].0, r1[a].1));
    assert(r2 == flex_share(d, true, step, remain, r1a, b, (fuel - 1) as nat));
    assert(sat_mul(step, wt) == step * wt);
    let marb = d.margins@[d.nodes@[b].plot.margin_idx as int];
    assert(sat_i8(marb.e + marb.w) == 0);
    let share = sat_mul(step, wt).saturating_add(remain).saturating_add(sat_i8(marb.e + marb.w) as u16);
    assert(share == space);
    let rb = r1a[b];
    assert(r2 == r1a.update(b, (Area { size: Size { width: share, ..rb.0.size }, ..rb.0 }, rb.1)));
    assert(r2[a].0.size.width == wa);
    assert(r2[b].0.size.width == space);
    let start = Point { x: outer.point.x.wrapping_add(pad.w as i16), y: outer.point.y.wrapping_add(pad.n as i16) };
    let mar = d.margins@[node.plot.margin_idx as int];
    let r3 = line_up(d, true, mar, start, r2, a, fuel);
    let a2 = Area { point: Point { x: sat_i16(start.x + (mar.e as i16)), y: sat_i16(start.y + (mar.n as i16)) }, ..r2[a].0 };
    let pos2 = Point { x: sat_i16(start.x + (r2[a].0.size.width as i16)), ..start };
    let r2a = r2.update(a, (a2, r2[a].1));
    assert(r3 == line_up(d, true, mar, pos2, r2a, b, (fuel - 1) as nat));
    let b2 = Area { point: Point { x: sat_i16(pos2.x + (mar.e as i16)), y: sat_i16(pos2.y + (mar.n as i16)) }, ..r2a[b].0 };
    assert(r3 == r2a.update(b, (b2, r2a[b].1)));
    assert(r3[a].0.size.width == wa);
    assert(r3[b].0.size.width == space);
}

/// A tally of fixed sizes, flex weights and flex margins.
pub open spec fn tally(fixed: u16, cnt: u16, margin: i16) -> FlexTally {
    FlexTally { fixed: fixed, cnt: cnt, margin: margin }
}

/// Where a depth-first walk over the tree stands: the node, the stack of
/// its ancestors, whether it goes down or comes back up, and the layout so
/// far.
pub struct WalkState {
    pub n: int,
    pub depth: int,
    pub up: bool,
    pub stack: Seq<NodeIdx>,
    pub res: Seq<(Area, Size)>,
}

/// The walk at node `n`, `depth` ancestors down, coming up where `descent`
/// is 1.
pub open spec fn walk_at(n: NodeIdx, depth: usize, descent: u8, stack: Seq<NodeIdx>, res: Seq<(Area, Size)>) -> WalkState {
    WalkState { n: n as int, depth: depth as int, up: descent == 1, stack: stack, res: res }
}

/// After one step of a walk: go on, or halt.
pub enum WalkStep {
    Go(WalkState),
    Halt(WalkState),
}

/// One step of the sizing walk: going down, a node is measured; coming up,
/// its parent grows by it. Nodes are visited through first children and
/// next siblings (the root's siblings aside), ancestors kept on a stack of
/// `DOM_DEPTH_MAX`.
pub open spec fn size_step(d: DOM, libs: MediaLibs, drawing: image::Settings, w: WalkState) -> WalkStep {
    let node = d.nodes@[w.n];
    if !w.up {
        let res = measure_spec(d, libs, drawing, node_typesetting(d, node), w.res, w.n);
        if node.first_child == NODE_MAX {
            WalkStep::Go(WalkState { up: true, res: res, ..w })
        } else if w.depth >= DOM_DEPTH_MAX || node.first_child > NODE_MAX {
            WalkStep::Halt(WalkState { res: res, ..w })
        } else {
            WalkStep::Go(WalkState {
                n: node.first_child as int,
                depth: w.depth + 1,
                stack: w.stack.update(w.depth, w.n as NodeIdx),
                res: res,
                ..w
            })
        }
    } else if w.depth == 0 {
        WalkStep::Halt(w)
    } else {
        let res = grow_spec(d, libs, w.res, w.stack[w.depth - 1] as int, w.n);
        if w.n > 0 && node.next_sibling != NODE_MAX {
            if node.next_sibling > NODE_MAX {
                WalkStep::Halt(WalkState { res: res, ..w })
            } else {
                WalkStep::Go(WalkState { n: node.next_sibling as int, up: false, res: res, ..w })
            }
        } else {
            WalkStep::Go(WalkState { n: w.stack[w.depth - 1] as int, depth: w.depth - 1, res: res, ..w })
        }
    }
}

/// One step of the placing walk: going down, a node is aligned in its
/// parent and its children are sized and placed.
pub open spec fn place_step(d: DOM, libs: MediaLibs, w: WalkState) -> WalkStep {
    let node = d.nodes@[w.n];
    if !w.up {
        let r1 = if w.depth > 0 { align_spec(d, libs, w.res, w.stack[w.depth - 1] as int, w.n) } else { w.res };
        let res = place_children_spec(d, libs, r1, w.n);
        if node.first_child == NODE_MAX {
            WalkStep::Go(WalkState { up: true, res: res, ..w })
        } else if w.depth >= DOM_DEPTH_MAX || node.first_child > NODE_MAX {
            WalkStep::Halt(WalkState { res: res, ..w })
        } else {
            WalkStep::Go(WalkState {
                n: node.first_child as int,
                depth: w.depth + 1,
                stack: w.stack.update(w.depth, w.n as NodeIdx),
                res: res,
                ..w
            })
        }
    } else if w.depth == 0 {
        WalkStep::Halt(w)
    } else if node.next_sibling != NODE_MAX {
        if node.next_sibling > NODE_MAX {
            WalkStep::Halt(w)
        } else {
            WalkStep::Go(WalkState { n: node.next_sibling as int, up: false, ..w })
        }
    } else {
        WalkStep::Go(WalkState { n: w.stack[w.depth - 1] as int, depth: w.depth - 1, ..w })
    }
}

/// The sizing walk from `w`, for at most `fuel` steps.
pub open spec fn size_run(d: DOM, libs: MediaLibs, drawing: image::Settings, w: WalkState, fuel: nat) -> WalkState
    decreases fuel,
{
    if fuel == 0 {
        w
    } else {
        match size_step(d, libs, drawing, w) {
            WalkStep::Halt(s) => s,
            WalkStep::Go(s) => size_run(d, libs, drawing, s, (fuel - 1) as nat),
        }
    }
}

/// The placing walk from `w`, for at most `fuel` steps.
pub open spec fn place_run(d: DOM, libs: MediaLibs, w: WalkState, fuel: nat) -> WalkState
    decreases fuel,
{
    if fuel == 0 {
        w
    } else {
        match place_step(d, libs, w) {
            WalkStep::Halt(s) => s,
            WalkStep::Go(s) => place_run(d, libs, s, (fuel - 1) as nat),
        }
    }
}

/// The number of steps each walk takes at most.
pub open spec fn walk_fuel() -> nat {
    1024
}

/// The layout of `d` for a root of `root_size`, starting from the areas
/// `res`: the sizing walk, then the root takes the root size where it is
/// sized `flex`, then the placing walk.
pub open spec fn layout_spec(
    d: DOM,
    libs: MediaLibs,
    drawing: image::Settings,
    root_size: Size,
    res: Seq<(Area, Size)>,
) -> Seq<(Area, Size)> {
    let w0 = WalkState { n: 0, depth: 0, up: false, stack: Seq::new(8, |i: int| NODE_MAX), res: res };
    let w1 = size_run(d, libs, drawing, w0, walk_fuel());
    let root = w1.res[0];
    let plot = d.nodes@[0].plot.size;
    let size = Size {
        width: if plot.width == WIDTH_FLEX { root_size.width } else { root.0.size.width },
        height: if plot.height == HEIGHT_FLEX { root_size.height } else { root.0.size.height },
    };
    let r = w1.res.update(0, (Area { size: size, ..root.0 }, root.1));
    place_run(d, libs, WalkState { n: 0, depth: 0, up: false, stack: w1.stack, res: r }, walk_fuel()).res
}

impl DOM {
    /// The padding of `node` including its border (see `full_padding_spec`).
    pub fn full_padding(&self, node: Node, surface: &Surface) -> (r: Padding)
        requires
            self.wf(),
            surface.wf(),
            DOM::node_wf(node),
        ensures
            r == full_padding_spec(*self, surface.media.libs().borders, node),
    {
        let p = self.paddings[node.plot.padding_idx as usize];
        if node.framing() {
            let border_idx = self.styles[node.plot.style_idx as usize].border_idx;
            if border_idx < BORDER_MAX || border_idx == 254 {
                let b = surface.media.get_border(Identifier::Index(border_idx));
                return Padding {
                    n: i8_saturating_add(i8_saturating_add(p.n, b.n_h as i8), 1),
                    e: i8_saturating_add(i8_saturating_add(p.e, b.e_w as i8), 1),
                    s: i8_saturating_add(i8_saturating_add(p.s, b.s_h as i8), 1),
                    w: i8_saturating_add(i8_saturating_add(p.w, b.w_w as i8), 1),
                };
            }
        }
        p
    }

    /// Measures node `n_i` in the surface's typesetting (see `measure_spec`).
    fn measure_node(&self, surface: &mut Surface, result: &mut NodePosition, n_i: NodeIdx)
        requires
            self.wf(),
            old(surface).wf(),
            old(result).wf(),
            n_i < NODE_MAX,
        ensures
            final(surface).same_but_pixels(old(surface)),
            final(surface).fb() == old(surface).fb(),
            final(result).wf(),
            final(result).areas@ == measure_spec(
                *self,
                old(surface).media.libs(),
                old(surface).media.drawing,
                old(surface).media.typesetting,
                old(result).areas@,
                n_i as int,
            ),
    {
        let node = self.nodes[n_i as usize];
        let pad_n = self.full_padding(node, surface);
        let mar_n = self.margins[node.plot.margin_idx as usize];
        let mut content_size = Size { width: 0, height: 0 };
        if node.plot.content_idx != CONTENT_MAX {
            let content = &self.contents[node.plot.content_idx as usize];
            let text = content.as_str();
            proof {
                assert(text.spec_bytes().len() <= content.raw@.len());
                assert(content.raw.len() == content.raw@.len());
            }
            if text.len() > 0 {
                content_size = content.get_size(surface);
            }
        }
        let mut area = result.areas[n_i as usize];
        area.1 = content_size;
        if node.plot.size.width >= WIDTH_MAX {
            area.0.size.width = content_size.width.saturating_add(i8_saturating_add(mar_n.e, mar_n.w) as u16).saturating_add(
                i8_saturating_add(pad_n.e, pad_n.w) as u16,
            );
        } else {
            area.0.size.width = node.plot.size.width.saturating_add(i8_saturating_add(mar_n.e, mar_n.w) as u16);
        }
        if node.plot.size.height >= HEIGHT_MAX {
            area.0.size.height = content_size.height.saturating_add(i8_saturating_add(mar_n.n, mar_n.s) as u16).saturating_add(
                i8_saturating_add(pad_n.n, pad_n.s) as u16,
            );
        } else {
            area.0.size.height = node.plot.size.height.saturating_add(i8_saturating_add(mar_n.n, mar_n.s) as u16);
        }
        result.areas.set(n_i as usize, area);
    }

    /// Grows the parent `parent_idx` by its child `n_i` (see `grow_spec`).
    fn grow_parent(&self, surface: &Surface, result: &mut NodePosition, parent_idx: NodeIdx, n_i: NodeIdx)
        requires
            self.wf(),
            surface.wf(),
            old(result).wf(),
            n_i < NODE_MAX,
            parent_idx < NODE_MAX,
        ensures
            final(result).wf(),
            final(result).areas@ == grow_spec(*self, surface.media.libs(), old(result).areas@, parent_idx as int, n_i as int),
    {
        let parent = self.nodes[parent_idx as usize];
        let mar_p = self.margins[parent.plot.margin_idx as usize];
        let pad_p = self.full_padding(parent, surface);
        let vertical = match parent.direction() {
            Direction::Vertical => true,
            Direction::Horizontal => false,
        };
        let res_n = result.areas[n_i as usize];
        let mut res_p = result.areas[parent_idx as usize];
        if parent.plot.size.width >= WIDTH_MAX || parent.plot.size.height >= HEIGHT_MAX {
            let frame_w = wrap_sum4(mar_p.e, mar_p.w, pad_p.e, pad_p.w);
            let frame_h = wrap_sum4(mar_p.n, mar_p.s, pad_p.n, pad_p.s);
            if vertical {
                if parent.plot.size.width >= WIDTH_MAX {
                    let w = frame_w.saturating_add(res_n.0.size.width);
                    if res_p.0.size.width < w {
                        res_p.0.size.width = w;
                    }
                }
                if parent.plot.size.height >= HEIGHT_MAX {
                    res_p.0.size.height = res_p.0.size.height.saturating_add(res_n.0.size.height);
                }
            } else {
                if parent.plot.size.width >= WIDTH_MAX {
                    res_p.0.size.width = res_p.0.size.width.saturating_add(res_n.0.size.width);
                }
                if parent.plot.size.height >= HEIGHT_MAX {
                    let h = frame_h.saturating_add(res_n.0.size.height);
                    if res_p.0.size.height < h {
                        res_p.0.size.height = h;
                    }
                }
            }
            result.areas.set(parent_idx as usize, res_p);
        }
    }

    /// Aligns node `n_i` inside its parent `parent_idx` (see `align_spec`).
    fn align_in_parent(&self, surface: &Surface, result: &mut NodePosition, parent_idx: NodeIdx, n_i: NodeIdx)
        requires
            self.wf(),
            surface.wf(),
            old(result).wf(),
            n_i < NODE_MAX,
            parent_idx < NODE_MAX,
        ensures
            final(result).wf(),
            final(result).areas@ == align_spec(*self, surface.media.libs(), old(result).areas@, parent_idx as int, n_i as int),
    {
        let node = self.nodes[n_i as usize];
        let parent = self.nodes[parent_idx as usize];
        let mar_p = self.margins[parent.plot.margin_idx as usize];
        let pad_p = self.full_padding(parent, surface);
        let res_p = result.areas[parent_idx as usize];
        let mut res_n = result.areas[n_i as usize];
        let align = node.alignment();
        let horizontal = match parent.direction() {
            Direction::Horizontal => true,
            Direction::Vertical => false,
        };
        let stretch = match align { Alignment::Stretch => true, _ => false };
        let center = match align { Alignment::Center => true, _ => false };
        let end = match align { Alignment::End => true, _ => false };
        if horizontal {
            let frame = wrap_sum4(mar_p.n, mar_p.s, pad_p.n, pad_p.s);
            if stretch {
                res_n.0.size.height = res_p.0.size.height.saturating_sub(frame);
            } else if center || end {
                let mut space = res_p.0.size.height.saturating_sub(res_n.0.size.height);
                space = space.saturating_sub(frame);
                if center {
                    space = space / 2;
                }
                res_n.0.point.y = res_n.0.point.y.wrapping_add(space as i16);
            }
        } else {
            let frame = wrap_sum4(mar_p.e, mar_p.w, pad_p.e, pad_p.w);
            if stretch {
                res_n.0.size.width = res_p.0.size.width.saturating_sub(frame);
            } else if center || end {
                let mut space = res_p.0.size.width.saturating_sub(res_n.0.size.width);
                space = space.saturating_sub(frame);
                if center {
                    space = space / 2;
                }
                res_n.0.point.x = res_n.0.point.x.wrapping_add(space as i16);
            }
        }
        result.areas.set(n_i as usize, res_n);
    }

    /// Sizes and places the children of `n_i` (see `place_children_spec`).
    #[verifier::spinoff_prover]
    #[verifier::rlimit(40)]
    fn place_children(&self, surface: &Surface, result: &mut NodePosition, n_i: NodeIdx)
        requires
            self.wf(),
            surface.wf(),
            old(result).wf(),
            n_i < NODE_MAX,
        ensures
            final(result).wf(),
            final(result).areas@ == place_children_spec(*self, surface.media.libs(), old(result).areas@, n_i as int),
    {
        let ghost libs = surface.media.libs();
        let node = self.nodes[n_i as usize];
        if node.first_child >= NODE_MAX {
            return;
        }
        let res_n = result.areas[n_i as usize];
        let horizontal = match node.direction() {
            Direction::Horizontal => true,
            Direction::Vertical => false,
        };
        let mar_n = self.margins[node.plot.margin_idx as usize];
        let pad_n = self.full_padding(node, surface);
        let ghost first = node.first_child as int;
        let ghost r0 = result.areas@;
        let ghost scan = flex_scan(*self, res_n.0.size, pad_n, horizontal, FlexTally { fixed: 0, cnt: 0, margin: 0 }, r0, first, NODE_MAX as nat);

        let mut c_i = node.first_child;
        let mut fixed_size: u16 = 0;
        let mut flex_cnt: u16 = 0;
        let mut flex_margin: i16 = 0;
        let mut steps: usize = 0;
        let mut done = false;
        while steps < NODE_MAX as usize && !done
            invariant
                self.wf(),
                surface.wf(),
                result.wf(),
                c_i < NODE_MAX,
                flex_cnt <= 4 * steps,
                steps <= NODE_MAX,
                done ==> (tally(fixed_size, flex_cnt, flex_margin), result.areas@) == scan,
                !done ==> flex_scan(*self, res_n.0.size, pad_n, horizontal, tally(fixed_size, flex_cnt, flex_margin), result.areas@, c_i as int, (NODE_MAX - steps) as nat) == scan,
            decreases NODE_MAX - steps,
        {
            steps += 1;
            let child = self.nodes[c_i as usize];
            let mar_c = self.margins[child.plot.margin_idx as usize];
            let mut res_c = result.areas[c_i as usize];
            let flex_w_c = child.plot.size.width > WIDTH_MAX && child.plot.size.width <= WIDTH_FLEX;
            let flex_h_c = child.plot.size.height > HEIGHT_MAX && child.plot.size.height <= HEIGHT_FLEX;
            if horizontal {
                if flex_w_c {
                    flex_cnt += flex_weight(child.plot.size.width, WIDTH_MAX);
                } else {
                    fixed_size = fixed_size.wrapping_add(res_c.0.size.width);
                }
                if flex_h_c {
                    res_c.0.size.height = res_n.0.size.height.saturating_sub(wrap_sum2(pad_n.n, pad_n.s));
                    flex_margin = flex_margin.wrapping_add(wrap_i8(mar_c.e, mar_c.w) as i16);
                }
            } else {
                if flex_w_c {
                    res_c.0.size.width = res_n.0.size.width.saturating_sub(wrap_sum2(pad_n.e, pad_n.w));
                }
                if flex_h_c {
                    flex_cnt += flex_weight(child.plot.size.height, HEIGHT_MAX);
                    flex_margin = flex_margin.wrapping_add(wrap_i8(mar_c.n, mar_c.s) as i16);
                } else {
                    fixed_size = fixed_size.wrapping_add(res_c.0.size.height);
                }
            }
            result.areas.set(c_i as usize, res_c);
            if child.next_sibling >= NODE_MAX {
                done = true;
            } else {
                c_i = child.next_sibling;
            }
        }
        proof {
            if !done {
                assert(flex_scan(*self, res_n.0.size, pad_n, horizontal, tally(fixed_size, flex_cnt, flex_margin), result.areas@, c_i as int, 0) == (tally(fixed_size, flex_cnt, flex_margin), result.areas@));
            }
        }

        let ghost r1 = result.areas@;
        if flex_cnt > 0 {
            c_i = node.first_child;
            let mut flex_size: u16 = if horizontal {
                res_n.0.size.width.saturating_sub(wrap_sum4(pad_n.w, pad_n.e, mar_n.w, mar_n.e))
            } else {
                res_n.0.size.height.saturating_sub(wrap_sum4(pad_n.n, pad_n.s, mar_n.n, mar_n.s))
            };
            flex_size = flex_size.saturating_sub(fixed_size).saturating_sub(flex_margin as u16);
            assert(flex_size == flex_space(*self, libs, res_n.0.size, n_i as int, scan.0));
            let flex_step: u16 = flex_size / flex_cnt;
            assert(flex_step * flex_cnt <= flex_size) by (nonlinear_arith)
                requires
                    flex_step == flex_size / flex_cnt,
                    flex_cnt > 0,
            ;
            let mut flex_remain: u16 = flex_size - flex_step * flex_cnt;
            let ghost share = flex_share(*self, horizontal, flex_step, flex_remain, r1, first, NODE_MAX as nat);
            let mut steps: usize = 0;
            let mut done = false;
            while steps < NODE_MAX as usize && !done
                invariant
                    self.wf(),
                    result.wf(),
                    c_i < NODE_MAX,
                    steps <= NODE_MAX,
                    done ==> result.areas@ == share,
                    !done ==> flex_share(*self, horizontal, flex_step, flex_remain, result.areas@, c_i as int, (NODE_MAX - steps) as nat) == share,
                decreases NODE_MAX - steps,
            {
                steps += 1;
                let child = self.nodes[c_i as usize];
                let mar_c = self.margins[child.plot.margin_idx as usize];
                let mut res_c = result.areas[c_i as usize];
                if horizontal {
                    if child.plot.size.width > WIDTH_MAX && child.plot.size.width <= WIDTH_FLEX {
                        let flex_c = flex_weight(child.plot.size.width, WIDTH_MAX);
                        res_c.0.size.width = sat_mul_u16(flex_step, flex_c).saturating_add(flex_remain).saturating_add(
                            i8_saturating_add(mar_c.e, mar_c.w) as u16,
                        );
                        flex_remain = flex_remain.saturating_sub(1);
                    }
                } else {
                    if child.plot.size.height > HEIGHT_MAX && child.plot.size.height <= HEIGHT_FLEX {
                        let flex_c = flex_weight(child.plot.size.height, HEIGHT_MAX);
                        res_c.0.size.height = sat_mul_u16(flex_step, flex_c).saturating_add(flex_remain).saturating_add(
                            i8_saturating_add(mar_c.n, mar_c.s) as u16,
                        );
                        flex_remain = flex_remain.saturating_sub(1);
                    }
                }
                result.areas.set(c_i as usize, res_c);
                if child.next_sibling >= NODE_MAX {
                    done = true;
                } else {
                    c_i = child.next_sibling;
                }
            }
        }

        let ghost r2 = result.areas@;
        c_i = node.first_child;
        let mut pos = Point {
            x: res_n.0.point.x.wrapping_add(pad_n.w as i16),
            y: res_n.0.point.y.wrapping_add(pad_n.n as i16),
        };
        let ghost lined = line_up(*self, horizontal, mar_n, pos, r2, first, NODE_MAX as nat);
        let mut steps: usize = 0;
        let mut done = false;
        while steps < NODE_MAX as usize && !done
            invariant
                self.wf(),
                result.wf(),
                c_i < NODE_MAX,
                steps <= NODE_MAX,
                done ==> result.areas@ == lined,
                !done ==> line_up(*self, horizontal, mar_n, pos, result.areas@, c_i as int, (NODE_MAX - steps) as nat) == lined,
            decreases NODE_MAX - steps,
        {
            steps += 1;
            let child = self.nodes[c_i as usize];
            let mut res_c = result.areas[c_i as usize];
            res_c.0.point.x = crate::i16_saturating_add(pos.x, mar_n.e as i16);
            res_c.0.point.y = crate::i16_saturating_add(pos.y, mar_n.n as i16);
            if horizontal {
                pos.x = crate::i16_saturating_add(pos.x, res_c.0.size.width as i16);
            } else {
                pos.y = crate::i16_saturating_add(pos.y, res_c.0.size.height as i16);
            }
            result.areas.set(c_i as usize, res_c);
            if child.next_sibling >= NODE_MAX {
                done = true;
            } else {
                c_i = child.next_sibling;
            }
        }
    }

    /// Lays the DOM out into `result` for a root of `root_size` (see
    /// `layout_spec`): a first walk gives every node the size of its content
    /// (or its fixed size) from the leaves up; a root sized `flex` takes the
    /// root size; a second walk aligns children, shares out the space among
    /// flex children and positions them from the root down. The typesetting
    /// of the surface's media follows the fonts of the styles on the way.
    #[verifier::spinoff_prover]
    #[verifier::rlimit(30)]
    pub fn calculate(&self, surface: &mut Surface, root_size: Size, result: &mut NodePosition)
        requires
            self.wf(),
            old(surface).wf(),
            old(result).wf(),
        ensures
            final(result).wf(),
            final(result).areas@ == layout_spec(
                *self,
                old(surface).media.libs(),
                old(surface).media.drawing,
                root_size,
                old(result).areas@,
            ),
            final(surface).fb() == old(surface).fb(),
            final(surface).wf(),
            final(surface).width == old(surface).width,
            final(surface).height == old(surface).height,
            final(surface).palette == old(surface).palette,
            final(surface).clip == old(surface).clip,
            final(surface).media.libs() == old(surface).media.libs(),
            final(surface).media.drawing == old(surface).media.drawing,
    {
        let ghost s0 = *old(surface);
        let ghost libs = s0.media.libs();
        let ghost drawing = s0.media.drawing;
        let mut p_stack: [NodeIdx; 8] = [NODE_MAX; 8];
        let ghost w0 = WalkState { n: 0, depth: 0, up: false, stack: Seq::new(8, |i: int| NODE_MAX), res: result.areas@ };
        assert(p_stack@ =~= w0.stack);
        let ghost w1 = size_run(*self, libs, drawing, w0, walk_fuel());
        let mut n_i: NodeIdx = 0;
        let mut p_i: usize = 0;
        let mut descent: u8 = 0;
        let mut steps: usize = 0;
        let mut done = false;
        while steps < 1024 && !done
            invariant
                self.wf(),
                surface.wf(),
                result.wf(),
                surface.fb() == s0.fb(),
                surface.width == s0.width && surface.height == s0.height,
                surface.palette == s0.palette && surface.clip == s0.clip,
                surface.media.libs() == libs,
                surface.media.drawing == drawing,
                n_i < NODE_MAX,
                p_i <= DOM_DEPTH_MAX,
                descent <= 1,
                steps <= 1024,
                p_stack@.len() == 8,
                forall|j: int| 0 <= j < p_i ==> #[trigger] p_stack[j] < NODE_MAX,
                done ==> walk_at(n_i, p_i, descent, p_stack@, result.areas@) == w1,
                !done ==> size_run(*self, libs, drawing, walk_at(n_i, p_i, descent, p_stack@, result.areas@), (1024 - steps) as nat) == w1,
            decreases 1024 - steps,
        {
            steps += 1;
            let node = self.nodes[n_i as usize];
            surface.media.typesetting = font::Settings::default();
            let style = self.styles[node.plot.style_idx as usize];
            if style.font_idx < FONT_MAX {
                surface.media.typesetting.active_idx = style.font_idx;
            }
            assert(surface.media.typesetting == node_typesetting(*self, node));
            if descent == 0 {
                self.measure_node(surface, result, n_i);
                if node.first_child == NODE_MAX {
                    descent = 1;
                } else if p_i >= DOM_DEPTH_MAX || node.first_child > NODE_MAX {
                    done = true;
                } else {
                    p_stack[p_i] = n_i;
                    p_i += 1;
                    n_i = node.first_child;
                }
            } else if p_i == 0 {
                done = true;
            } else {
                self.grow_parent(surface, result, p_stack[p_i - 1], n_i);
                if n_i > 0 && node.next_sibling != NODE_MAX {
                    if node.next_sibling > NODE_MAX {
                        done = true;
                    } else {
                        descent = 0;
                        n_i = node.next_sibling;
                    }
                } else {
                    p_i -= 1;
                    n_i = p_stack[p_i];
                }
            }
        }

        let mut root = result.areas[0];
        if self.nodes[0].plot.size.width == WIDTH_FLEX {
            root.0.size.width = root_size.width;
        }
        if self.nodes[0].plot.size.height == HEIGHT_FLEX {
            root.0.size.height = root_size.height;
        }
        result.areas.set(0, root);
        let ghost w2 = place_run(*self, libs, WalkState { n: 0, depth: 0, up: false, stack: p_stack@, res: result.areas@ }, walk_fuel());
        n_i = 0;
        p_i = 0;
        descent = 0;
        let mut steps: usize = 0;
        let mut done = false;
        while steps < 1024 && !done
            invariant
                self.wf(),
                surface.wf(),
                result.wf(),
                surface.fb() == s0.fb(),
                surface.width == s0.width && surface.height == s0.height,
                surface.palette == s0.palette && surface.clip == s0.clip,
                surface.media.libs() == libs,
                surface.media.drawing == drawing,
                n_i < NODE_MAX,
                p_i <= DOM_DEPTH_MAX,
                descent <= 1,
                steps <= 1024,
                p_stack@.len() == 8,
                forall|j: int| 0 <= j < p_i ==> #[trigger] p_stack[j] < NODE_MAX,
                done ==> result.areas@ == w2.res,
                !done ==> place_run(*self, libs, walk_at(n_i, p_i, descent, p_stack@, result.areas@), (1024 - steps) as nat).res == w2.res,
            decreases 1024 - steps,
        {
            steps += 1;
            let node = self.nodes[n_i as usize];
            if descent == 0 {
                if p_i > 0 {
                    self.align_in_parent(surface, result, p_stack[p_i - 1], n_i);
                }
                self.place_children(surface, result, n_i);
                if node.first_child == NODE_MAX {
                    descent = 1;
                } else if p_i >= DOM_DEPTH_MAX || node.first_child > NODE_MAX {
                    done = true;
                } else {
                    p_stack[p_i] = n_i;
                    p_i += 1;
                    n_i = node.first_child;
                }
            } else if p_i == 0 {
                done = true;
            } else if node.next_sibling != NODE_MAX {
                if node.next_sibling > NODE_MAX {
                    done = true;
                } else {
                    descent = 0;
                    n_i = node.next_sibling;
                }
            } else {
                p_i -= 1;
                n_i = p_stack[p_i];
            }
        }
    }
}

/// `a * b` clamped to the range of `u16`.
fn sat_mul_u16(a: u16, b: u16) -> (r: u16)
    ensures
        r == if a * b > u16::MAX { u16::MAX as int } else { a * b },
{
    assert(a * b <= 65535 * 65535) by (nonlinear_arith)
        requires
            a <= 65535,
            b <= 65535,
    ;
    let m: u32 = a as u32 * b as u32;
    if m > 65535 { 65535 } else { m as u16 }
}

/// The sum of two offsets wrapped to `i8`.
pub(crate) fn wrap_i8(a: i8, b: i8) -> (r: i8)
    ensures
        r == (a + b) as i8,
{
    (a as i16 + b as i16) as i8
}

} // verus!
