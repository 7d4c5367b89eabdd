//! Building a DOM from a binary page or from XML markup, and writing it back
//! as XML.

use vstd::prelude::*;
use crate::{
    BorderIdx, NodeIdx, BORDER_MAX, BORDER_RECT, CONTENT_MAX, DOM_DEPTH_MAX, FONT_MAX,
    MARGIN_MAX, NODE_MAX,
};
use crate::control::decode_values;
use crate::decimal::{decimal_bytes, eq_ignore_ascii_case, parse_u16, parse_u8, push_decimal, push_signed, push_str, signed_decimal_bytes, starts_with, str_is};
use crate::dom::calculate::sat_i8;
use crate::sat_i16;
use crate::media::stored_name;
use crate::media::str_of_utf8;
use crate::node::{
    Alignment, Direction, Node, Visibility, HEIGHT_CONTENT, HEIGHT_FLEX, HEIGHT_MAX,
    WIDTH_CONTENT, WIDTH_FLEX, WIDTH_MAX,
};
use crate::node::{alignment_code, with_flag_field};
use crate::node::{FLAGS_ALIGNMENT_MASK, FLAGS_ALIGNMENT_SHIFT, FLAGS_DIRECTION_MASK, FLAGS_DIRECTION_SHIFT};
use crate::node::{FLAGS_FRAMING_MASK, FLAGS_FRAMING_SHIFT, FLAGS_VISIBILITY_MASK, FLAGS_VISIBILITY_SHIFT};
use crate::node::style::Style;
use crate::plot::Plot;
use crate::stream::{byte_as_i8, le_u16, Stream};
use crate::{Size, STYLE_MAX};
use super::{style_slot, Margin, Padding};
use super::view::{
    clear_view, dom_view, lemma_reset_view, reset_view, style_of, style_slot_view, with_content, with_margin,
    with_node, with_padding, with_style, DomView,
};
use crate::xmlparser::{xml_next, XmlEvent, XmlEventView, XmlParser, XmlState};
use crate::decimal::{ascii_lower, spec_parse_u16, spec_parse_u8};
use crate::control::decoded_values;
use vstd::utf8::encode_utf8;
use super::{ContentContainer, Ret, DOM};
use vstd::string::StringSliceAdditionalSpecFns;

verus! {

/// The stack of open nodes while a page is read.
pub struct Builder {
    pub stack: [NodeIdx; 8],
    pub depth: usize,
    pub n_i: NodeIdx,
}

impl Builder {
    pub open spec fn wf(&self) -> bool {
        &&& self.depth <= DOM_DEPTH_MAX
        &&& self.n_i < NODE_MAX
        &&& forall|j: int| 0 <= j < self.depth ==> #[trigger] self.stack[j] < NODE_MAX
    }

    fn new() -> (r: Self)
        ensures
            r.wf(),
            r.depth == 0,
            r.n_i == 0,
            r.stack@ == Seq::new(8, |i: int| NODE_MAX),
    {
        let b = Builder { stack: [NODE_MAX; 8], depth: 0, n_i: 0 };
        assert(b.stack@ =~= Seq::new(8, |i: int| NODE_MAX));
        b
    }

    /// The node that attributes apply to: the innermost open one, else the
    /// root.
    fn current(&self) -> (r: NodeIdx)
        requires
            self.wf(),
        ensures
            r < NODE_MAX,
            r == if self.depth > 0 { self.stack[self.depth - 1] } else { 0 },
    {
        if self.depth > 0 { self.stack[self.depth - 1] } else { 0 }
    }
}

/// Where reading a binary page stands: the DOM so far, the stack of open
/// nodes, the node that attributes go to, the read position and the error
/// to report.
pub struct PageState {
    pub v: DomView,
    pub stack: Seq<NodeIdx>,
    pub depth: int,
    pub n_i: int,
    pub pos: int,
    pub err: Ret,
}

/// After one instruction: go on, or end with a result.
pub enum PageStep {
    Go(PageState),
    Done(PageState, Ret),
}

/// The nodes with `n` appended to the sibling chain that runs from `s`; none
/// where the chain leaves the table or runs longer than `fuel` links.
pub open spec fn append_sibling(nodes: Seq<Node>, s: int, n: NodeIdx, fuel: nat) -> Option<Seq<Node>>
    decreases fuel,
{
    if s >= NODE_MAX || fuel == 0 {
        None
    } else if nodes[s].next_sibling == NODE_MAX {
        Some(nodes.update(s, Node { next_sibling: n, ..nodes[s] }))
    } else {
        append_sibling(nodes, nodes[s].next_sibling as int, n, (fc_dec(fuel)))
    }
}

/// One less, for fuel.
pub open spec fn fc_dec(fuel: nat) -> nat {
    (fuel - 1) as nat
}

/// Opening a node: below the root the next node is taken and appended to
/// the children of the innermost open node; it is pushed on the stack. None
/// where the nesting or the node table is used up or a sibling chain broken.
pub open spec fn open_spec(st: PageState) -> Option<PageState> {
    if st.depth >= DOM_DEPTH_MAX {
        None
    } else if st.depth > 0 {
        if st.n_i + 1 >= NODE_MAX {
            None
        } else {
            let n2 = (st.n_i + 1) as NodeIdx;
            let parent = st.stack[st.depth - 1] as int;
            let c = st.v.nodes[parent].first_child;
            let nodes = if c == NODE_MAX {
                Some(st.v.nodes.update(parent, Node { first_child: n2, ..st.v.nodes[parent] }))
            } else {
                append_sibling(st.v.nodes, c as int, n2, NODE_MAX as nat)
            };
            match nodes {
                Some(ns) => Some(PageState {
                    v: DomView { nodes: ns, ..st.v },
                    stack: st.stack.update(st.depth, n2),
                    depth: st.depth + 1,
                    n_i: n2 as int,
                    ..st
                }),
                None => None,
            }
        }
    } else {
        Some(PageState { stack: st.stack.update(st.depth, st.n_i as NodeIdx), depth: st.depth + 1, ..st })
    }
}

/// The position of the first zero byte of `bin` at or after `p`; the end
/// where there is none.
pub open spec fn zero_from(bin: Seq<u8>, p: int) -> int
    decreases bin.len() - p,
{
    if p >= bin.len() {
        bin.len() as int
    } else if bin[p] == 0 {
        p
    } else {
        zero_from(bin, p + 1)
    }
}

/// The signed byte at `p`, 0 past the end.
pub open spec fn i8_at(bin: Seq<u8>, p: int) -> i8 {
    if 0 <= p < bin.len() { byte_as_i8(bin[p]) } else { 0 }
}

/// The position after reading one byte at `p`.
pub open spec fn after_byte(bin: Seq<u8>, p: int) -> int {
    if p < bin.len() { p + 1 } else { p }
}

/// A little-endian `u16` at `p` where more than two bytes are left, else 0;
/// and the position after it.
pub open spec fn u16_at(bin: Seq<u8>, p: int) -> (u16, int) {
    if p < bin.len() && bin.len() - p > 2 {
        (le_u16(bin[p], bin[p + 1]) as u16, p + 2)
    } else {
        (0, p)
    }
}

/// Four signed bytes from `p` (north, east, south, west) and the position
/// after them.
pub open spec fn offsets_at(bin: Seq<u8>, p: int) -> ([i8; 4], int) {
    let p1 = after_byte(bin, p);
    let p2 = after_byte(bin, p1);
    let p3 = after_byte(bin, p2);
    ([i8_at(bin, p), i8_at(bin, p1), i8_at(bin, p2), i8_at(bin, p3)], after_byte(bin, p3))
}

/// The alignment that the value of an alignment instruction names.
pub open spec fn page_alignment(value: u8) -> Alignment {
    if value == 1 {
        Alignment::Center
    } else if value == 2 {
        Alignment::End
    } else if value == 3 {
        Alignment::Stretch
    } else {
        Alignment::Start
    }
}

/// Node `n` with the flag field at `shift` under `mask` set to `code`.
pub open spec fn flagged(v: DomView, n: int, shift: u8, mask: u8, code: u8) -> DomView {
    with_node(v, n, Node { flags: with_flag_field(v.nodes[n].flags, shift, mask, code), ..v.nodes[n] })
}

/// What the instruction at `st.pos` does. Its low nibble names it, its high
/// nibble is a small value: 0 opens (2) and closes (3) nodes and ends the
/// page (1); 1 is a zero-terminated text; 2 to 6 set direction, alignment,
/// width, height and visibility; 7 and 8 margin and padding; 9 to 13
/// background, color, border, font and frame.
pub open spec fn page_step(bin: Seq<u8>, st: PageState) -> PageStep {
    let next = bin[st.pos];
    let instr = next & 0xf;
    let value = next >> 4;
    let n = st.n_i;
    let node = st.v.nodes[n];
    let s = PageState { pos: st.pos + 1, ..st };
    let p1 = st.pos + 1;
    if instr == 0 {
        if value == 0 {
            PageStep::Go(s)
        } else if value == 1 {
            PageStep::Done(s, st.err)
        } else if value == 2 {
            match open_spec(s) {
                Some(o) => PageStep::Go(o),
                None => PageStep::Done(s, Ret::InvalidFormat),
            }
        } else if value == 3 {
            if st.depth == 0 {
                PageStep::Done(s, Ret::InvalidFormat)
            } else {
                PageStep::Go(PageState { depth: st.depth - 1, ..s })
            }
        } else {
            PageStep::Go(PageState { err: Ret::InvalidDOMInstruction, ..s })
        }
    } else if instr == 1 {
        let end = zero_from(bin, p1);
        let data = stored_name(bin.subrange(p1, end));
        if data.len() > 0 && node.plot.content_idx == CONTENT_MAX && node.first_child == NODE_MAX {
            if st.v.content_idx >= CONTENT_MAX {
                PageStep::Done(s, Ret::InvalidFormat)
            } else {
                PageStep::Go(PageState { v: with_content(st.v, n, data), pos: end, ..st })
            }
        } else {
            PageStep::Go(PageState { pos: end, ..st })
        }
    } else if instr == 2 {
        PageStep::Go(PageState {
            v: flagged(st.v, n, FLAGS_DIRECTION_SHIFT, FLAGS_DIRECTION_MASK, if value == 1 { 1u8 } else { 0u8 }),
            ..s
        })
    } else if instr == 3 {
        PageStep::Go(PageState {
            v: flagged(st.v, n, FLAGS_ALIGNMENT_SHIFT, FLAGS_ALIGNMENT_MASK, alignment_code(page_alignment(value))),
            ..s
        })
    } else if instr == 4 || instr == 5 {
        let (x, p2) = u16_at(bin, p1);
        let size = if instr == 4 { Size { width: x, ..node.plot.size } } else { Size { height: x, ..node.plot.size } };
        PageStep::Go(PageState { v: with_node(st.v, n, Node { plot: Plot { size: size, ..node.plot }, ..node }), pos: p2, ..st })
    } else if instr == 6 {
        PageStep::Go(PageState {
            v: flagged(st.v, n, FLAGS_VISIBILITY_SHIFT, FLAGS_VISIBILITY_MASK, if value == 1 { 1u8 } else { 0u8 }),
            ..s
        })
    } else if instr == 7 || instr == 8 {
        let (o, p2) = offsets_at(bin, p1);
        if instr == 7 {
            if node.plot.margin_idx == 0 && st.v.margin_idx >= MARGIN_MAX {
                PageStep::Done(s, Ret::InvalidFormat)
            } else {
                PageStep::Go(PageState { v: with_margin(st.v, n, Margin { n: o[0], e: o[1], s: o[2], w: o[3] }), pos: p2, ..st })
            }
        } else {
            PageStep::Go(PageState { v: with_padding(st.v, n, Padding { n: o[0], e: o[1], s: o[2], w: o[3] }), pos: p2, ..st })
        }
    } else if instr == 9 {
        PageStep::Go(PageState { v: with_style(st.v, n, Style { background: value, ..style_of(st.v, n) }), ..s })
    } else if instr == 10 {
        PageStep::Go(PageState { v: with_style(st.v, n, Style { color: value, ..style_of(st.v, n) }), ..s })
    } else if instr == 11 || instr == 13 {
        let v1 = flagged(st.v, n, FLAGS_FRAMING_SHIFT, FLAGS_FRAMING_MASK, if instr == 11 { 1u8 } else { 0u8 });
        let b: u8 = if value > BORDER_MAX { BORDER_MAX } else { value };
        PageStep::Go(PageState { v: with_style(v1, n, Style { border_idx: b, ..style_of(v1, n) }), ..s })
    } else if instr == 12 {
        PageStep::Go(PageState { v: with_style(st.v, n, Style { font_idx: value, ..style_of(st.v, n) }), ..s })
    } else {
        PageStep::Go(PageState { err: Ret::InvalidDOMInstruction, ..s })
    }
}

/// Reading the page `bin` from `st` to its end or an instruction that ends
/// it: the state then and the result.
pub open spec fn page_run(bin: Seq<u8>, st: PageState) -> (PageState, Ret)
    decreases bin.len() - st.pos,
{
    if st.pos < 0 || st.pos >= bin.len() {
        (st, st.err)
    } else {
        match page_step(bin, st) {
            PageStep::Done(s, r) => (s, r),
            PageStep::Go(s) => if st.pos < s.pos <= bin.len() {
                page_run(bin, s)
            } else {
                (s, s.err)
            },
        }
    }
}

/// Reading starts at the root, on an empty stack, at the first byte.
pub open spec fn page_start(v: DomView) -> PageState {
    PageState { v: v, stack: Seq::new(8, |i: int| NODE_MAX), depth: 0, n_i: 0, pos: 0, err: Ret::Success }
}

/// The reading state of a DOM, builder, stream and error.
pub open spec fn page_state(d: DOM, b: Builder, reader: Stream, err: Ret) -> PageState {
    PageState { v: dom_view(d), stack: b.stack@, depth: b.depth as int, n_i: b.n_i as int, pos: reader.pos_view(), err: err }
}

impl DOM {
    /// Opens a node (see `open_spec`); false where that fails, with the DOM
    /// unchanged.
    fn open_node(&mut self, b: &mut Builder) -> (ok: bool)
        requires
            old(self).wf(),
            old(b).wf(),
        ensures
            final(self).wf(),
            final(self).ids@ == old(self).ids@,
            final(self).id_idx == old(self).id_idx,
            final(self).positions.areas@ == old(self).positions.areas@,
            final(self).dummy_node == old(self).dummy_node,
            final(b).wf(),
            ({
                let st = PageState { v: dom_view(*old(self)), stack: old(b).stack@, depth: old(b).depth as int, n_i: old(b).n_i as int, pos: 0, err: Ret::Success };
                match open_spec(st) {
                    Some(o) => ok && dom_view(*final(self)) == o.v && final(b).stack@ == o.stack
                        && final(b).depth == o.depth && final(b).n_i == o.n_i,
                    None => !ok && dom_view(*final(self)) == dom_view(*old(self)),
                }
            }),
    {
        let ghost st = PageState { v: dom_view(*self), stack: b.stack@, depth: b.depth as int, n_i: b.n_i as int, pos: 0, err: Ret::Success };
        if b.depth >= DOM_DEPTH_MAX {
            return false;
        }
        if b.depth > 0 {
            if b.n_i + 1 >= NODE_MAX {
                return false;
            }
            let n2 = b.n_i + 1;
            let parent = b.stack[b.depth - 1];
            let c_i = self.nodes[parent as usize].first_child;
            if c_i == NODE_MAX {
                self.set_child(parent, n2);
                assert(dom_view(*self).nodes == st.v.nodes.update(parent as int, Node { first_child: n2, ..st.v.nodes[parent as int] }));
            } else {
                let ghost target = append_sibling(st.v.nodes, c_i as int, n2, NODE_MAX as nat);
                let ghost opened = |ns: Seq<Node>| PageState {
                    v: DomView { nodes: ns, ..st.v },
                    stack: st.stack.update(st.depth, n2),
                    depth: st.depth + 1,
                    n_i: n2 as int,
                    ..st
                };
                assert(open_spec(st) == match target {
                    Some(ns) => Some(opened(ns)),
                    None => None,
                });
                let mut s_i = c_i;
                let mut steps: usize = 0;
                loop
                    invariant
                        self.wf(),
                        b.wf(),
                        *self == *old(self),
                        *b == *old(b),
                        steps <= NODE_MAX,
                        append_sibling(self.nodes@, s_i as int, n2, (NODE_MAX - steps) as nat) == target,
                        open_spec(st) == match target {
                            Some(ns) => Some(opened(ns)),
                            None => None,
                        },
                        st == (PageState {
                            v: dom_view(*old(self)),
                            stack: old(b).stack@,
                            depth: old(b).depth as int,
                            n_i: old(b).n_i as int,
                            pos: 0,
                            err: Ret::Success,
                        }),
                    ensures
                        s_i < NODE_MAX,
                        *self == *old(self),
                        *b == *old(b),
                        self.nodes@[s_i as int].next_sibling == NODE_MAX,
                        target == Some(self.nodes@.update(s_i as int, Node { next_sibling: n2, ..self.nodes@[s_i as int] })),
                    decreases NODE_MAX - steps,
                {
                    if s_i >= NODE_MAX || steps >= NODE_MAX as usize {
                        return false;
                    }
                    let ns_i = self.nodes[s_i as usize].next_sibling;
                    if ns_i == NODE_MAX {
                        break;
                    }
                    s_i = ns_i;
                    steps += 1;
                }
                let mut n = self.nodes[s_i as usize];
                n.next_sibling = n2;
                self.nodes.set(s_i as usize, n);
            }
            b.n_i = n2;
        }
        b.stack[b.depth] = b.n_i;
        b.depth += 1;
        true
    }

    /// Applies `n` to the node `node_idx`, which must keep its table indices.
    fn update_node_flags(&mut self, node_idx: NodeIdx, n: Node)
        requires
            old(self).wf(),
            node_idx < NODE_MAX,
            n.plot == old(self).nodes@[node_idx as int].plot,
            n.id_idx == old(self).nodes@[node_idx as int].id_idx,
        ensures
            final(self).wf(),
            final(self).ids@ == old(self).ids@,
            final(self).id_idx == old(self).id_idx,
            final(self).positions.areas@ == old(self).positions.areas@,
            final(self).dummy_node == old(self).dummy_node,
            final(self).same_tables(old(self)),
            final(self).nodes@ == old(self).nodes@.update(node_idx as int, n),
            dom_view(*final(self)) == with_node(dom_view(*old(self)), node_idx as int, n),
    {
        self.nodes.set(node_idx as usize, n);
    }

    /// Sets a size of node `n_i`.
    fn page_size(&mut self, n_i: NodeIdx, width: bool, x: u16)
        requires
            old(self).wf(),
            n_i < NODE_MAX,
        ensures
            final(self).wf(),
            final(self).ids@ == old(self).ids@,
            final(self).id_idx == old(self).id_idx,
            final(self).positions.areas@ == old(self).positions.areas@,
            final(self).dummy_node == old(self).dummy_node,
            ({
                let node = old(self).nodes@[n_i as int];
                let size = if width { Size { width: x, ..node.plot.size } } else { Size { height: x, ..node.plot.size } };
                dom_view(*final(self)) == with_node(dom_view(*old(self)), n_i as int, Node { plot: Plot { size: size, ..node.plot }, ..node })
            }),
    {
        let mut n = self.nodes[n_i as usize];
        if width {
            n.set_width(x);
        } else {
            n.set_height(x);
        }
        self.nodes.set(n_i as usize, n);
    }

    /// Sets the text of node `n_i`.
    fn page_content(&mut self, n_i: NodeIdx, data: &[u8])
        requires
            old(self).wf(),
            n_i < NODE_MAX,
            old(self).nodes@[n_i as int].plot.content_idx == CONTENT_MAX ==> old(self).content_idx < CONTENT_MAX,
        ensures
            final(self).wf(),
            final(self).ids@ == old(self).ids@,
            final(self).id_idx == old(self).id_idx,
            final(self).positions.areas@ == old(self).positions.areas@,
            final(self).dummy_node == old(self).dummy_node,
            dom_view(*final(self)) == with_content(dom_view(*old(self)), n_i as int, data@),
    {
        let ghost o = *self;
        self.set_content(n_i, ContentContainer::Raw { raw: data });
        proof {
            let c_i = if o.nodes@[n_i as int].plot.content_idx == CONTENT_MAX { o.content_idx } else { o.nodes@[n_i as int].plot.content_idx };
            assert(dom_view(*self).contents =~= dom_view(o).contents.update(c_i as int, data@));
        }
    }

    /// Sets the margin or the padding of node `n_i`.
    fn page_offsets(&mut self, n_i: NodeIdx, margin: bool, o: [i8; 4])
        requires
            old(self).wf(),
            n_i < NODE_MAX,
            margin && old(self).nodes@[n_i as int].plot.margin_idx == 0 ==> old(self).margin_idx < MARGIN_MAX,
        ensures
            final(self).wf(),
            final(self).ids@ == old(self).ids@,
            final(self).id_idx == old(self).id_idx,
            final(self).positions.areas@ == old(self).positions.areas@,
            final(self).dummy_node == old(self).dummy_node,
            margin ==> dom_view(*final(self)) == with_margin(dom_view(*old(self)), n_i as int, Margin { n: o[0], e: o[1], s: o[2], w: o[3] }),
            !margin ==> dom_view(*final(self)) == with_padding(dom_view(*old(self)), n_i as int, Padding { n: o[0], e: o[1], s: o[2], w: o[3] }),
    {
        if margin {
            self.set_margin(n_i, o);
        } else {
            self.set_padding(n_i, o);
        }
    }

    /// Changes the style of node `n_i`: background (9), color (10), border
    /// (11) or font (12) to `value`.
    fn page_style(&mut self, n_i: NodeIdx, what: u8, value: u8)
        requires
            old(self).wf(),
            n_i < NODE_MAX,
        ensures
            final(self).wf(),
            final(self).ids@ == old(self).ids@,
            final(self).id_idx == old(self).id_idx,
            final(self).positions.areas@ == old(self).positions.areas@,
            final(self).dummy_node == old(self).dummy_node,
            ({
                let v = dom_view(*old(self));
                let s = style_of(v, n_i as int);
                let t = if what == 9 {
                    Style { background: value, ..s }
                } else if what == 10 {
                    Style { color: value, ..s }
                } else if what == 11 {
                    Style { border_idx: if value > BORDER_MAX { BORDER_MAX } else { value }, ..s }
                } else {
                    Style { font_idx: value, ..s }
                };
                dom_view(*final(self)) == with_style(v, n_i as int, t)
            }),
    {
        let ghost o = *self;
        assert(style_slot(o, n_i) == style_slot_view(dom_view(o), n_i as int));
        let st = self.request_style(n_i);
        if what == 9 {
            st.set_background(value);
        } else if what == 10 {
            st.set_color(value);
        } else if what == 11 {
            st.set_border(value);
        } else {
            st.set_font(value);
        }
    }

    /// Reads and carries out the instruction at the reader's position (see
    /// `page_step`): none where reading goes on, else the result.
    #[verifier::spinoff_prover]
    #[verifier::rlimit(60)]
    fn page_instruction(&mut self, b: &mut Builder, reader: &mut Stream, bin: &[u8], err: &mut Ret) -> (stop: Option<Ret>)
        requires
            old(self).wf(),
            old(b).wf(),
            old(reader).data_view() == bin@,
            0 <= old(reader).pos_view() < bin@.len(),
        ensures
            final(self).wf(),
            final(self).ids@ == old(self).ids@,
            final(self).id_idx == old(self).id_idx,
            final(self).positions.areas@ == old(self).positions.areas@,
            final(self).dummy_node == old(self).dummy_node,
            final(b).wf(),
            final(reader).data_view() == bin@,
            stop.is_none() ==> old(reader).pos_view() < final(reader).pos_view() <= bin@.len(),
            match page_step(bin@, page_state(*old(self), *old(b), *old(reader), *old(err))) {
                PageStep::Go(s) => stop.is_none() && s == page_state(*final(self), *final(b), *final(reader), *final(err)),
                PageStep::Done(s, r) => stop == Some(r) && s.v == dom_view(*final(self)),
            },
    {
        let next = reader.read_u8();
        let instruction = next & 0xf;
        let value = next >> 4;
        let n_i = b.n_i;
        let p1 = reader.get_pos();
        if instruction == 0 {
            if value == 0 {
            } else if value == 1 {
                return Some(*err);
            } else if value == 2 {
                if !self.open_node(b) {
                    return Some(Ret::InvalidFormat);
                }
            } else if value == 3 {
                if b.depth == 0 {
                    return Some(Ret::InvalidFormat);
                }
                b.depth -= 1;
            } else {
                *err = Ret::InvalidDOMInstruction;
            }
        } else if instruction == 1 {
            let start = p1;
            let mut end = start;
            while end < bin.len() && bin[end] != 0
                invariant
                    start <= end <= bin@.len(),
                    zero_from(bin@, end as int) == zero_from(bin@, start as int),
                decreases bin@.len() - end,
            {
                end += 1;
            }
            let data = str_of_utf8(&bin[start..end]);
            proof {
                assert(bin@.subrange(start as int, end as int) == bin@.subrange(start as int, end as int));
            }
            let node = self.nodes[n_i as usize];
            if data.len() > 0 && node.plot.content_idx == CONTENT_MAX && node.first_child == NODE_MAX {
                if self.content_idx >= CONTENT_MAX {
                    return Some(Ret::InvalidFormat);
                }
                self.page_content(n_i, data.as_bytes());
            }
            reader.set_pos(end);
        } else if instruction == 2 || instruction == 3 || instruction == 6 || instruction == 11 || instruction == 13 {
            let mut n = self.nodes[n_i as usize];
            if instruction == 2 {
                n.set_direction(if value == 1 { Direction::Vertical } else { Direction::Horizontal });
            } else if instruction == 3 {
                n.set_alignment(
                    if value == 1 {
                        Alignment::Center
                    } else if value == 2 {
                        Alignment::End
                    } else if value == 3 {
                        Alignment::Stretch
                    } else {
                        Alignment::Start
                    },
                );
            } else if instruction == 6 {
                n.set_visibility(if value == 1 { Visibility::Visible } else { Visibility::Hidden });
            } else {
                n.set_framing(instruction == 11);
            }
            self.update_node_flags(n_i, n);
            if instruction == 11 || instruction == 13 {
                self.page_style(n_i, 11, value);
            }
        } else if instruction == 4 || instruction == 5 {
            let x = reader.read_u16();
            self.page_size(n_i, instruction == 4, x);
        } else if instruction == 7 || instruction == 8 {
            let v0 = reader.read_i8();
            let v1 = reader.read_i8();
            let v2 = reader.read_i8();
            let v3 = reader.read_i8();
            if instruction == 7 && self.nodes[n_i as usize].plot.margin_idx == 0 && self.margin_idx >= MARGIN_MAX {
                return Some(Ret::InvalidFormat);
            }
            self.page_offsets(n_i, instruction == 7, [v0, v1, v2, v3]);
        } else if instruction == 9 || instruction == 10 || instruction == 12 {
            self.page_style(n_i, instruction, value);
        } else {
            *err = Ret::InvalidDOMInstruction;
        }
        None
    }

    /// Builds the DOM from a binary page: a stream of instruction bytes (low
    /// nibble the instruction, high nibble a small value) that open and close
    /// nodes and set their properties (see `page_step`). Bad instructions are
    /// skipped and reported; the build stops where the tables or the nesting
    /// run out.
    pub fn from(&mut self, bin: &[u8]) -> (r: Ret)
        requires
            old(self).wf(),
        ensures
            final(self).wf(),
            r == Ret::Success || r == Ret::InvalidDOMInstruction || r == Ret::InvalidFormat,
            ({
                let (s, ret) = page_run(bin@, page_start(reset_view(old(self).styles@[STYLE_MAX as int])));
                r == ret && dom_view(*final(self)) == s.v
            }),
            bin@.len() == 0 ==> r == Ret::Success && final(self).is_reset(),
            final(self).ids@ == old(self).ids@,
            final(self).id_idx == old(self).id_idx,
            final(self).positions.areas@ == old(self).positions.areas@,
            final(self).dummy_node == old(self).dummy_node,
    {
        let mut err = Ret::Success;
        let mut reader = Stream::new(bin);
        let mut b = Builder::new();
        self.reset();
        proof {
            lemma_reset_view(*self);
        }
        let ghost target = page_run(bin@, page_start(reset_view(old(self).styles@[STYLE_MAX as int])));
        assert(b.stack@ =~= Seq::new(8, |i: int| NODE_MAX));
        assert(page_state(*self, b, reader, err) == page_start(reset_view(old(self).styles@[STYLE_MAX as int])));
        while reader.available() > 0
            invariant
                self.ids@ == old(self).ids@,
                self.id_idx == old(self).id_idx,
                self.positions.areas@ == old(self).positions.areas@,
                self.dummy_node == old(self).dummy_node,
                self.wf(),
                b.wf(),
                reader.data_view() == bin@,
                0 <= reader.pos_view() <= bin@.len(),
                err == Ret::Success || err == Ret::InvalidDOMInstruction,
                bin@.len() == 0 ==> self.is_reset() && err == Ret::Success,
                page_run(bin@, page_state(*self, b, reader, err)) == target,
                target == page_run(bin@, page_start(reset_view(old(self).styles@[STYLE_MAX as int]))),
            decreases bin@.len() - reader.pos_view(),
        {
            let ghost before = page_state(*self, b, reader, err);
            let stop = self.page_instruction(&mut b, &mut reader, bin, &mut err);
            match stop {
                Some(r) => {
                    proof {
                        match page_step(bin@, before) {
                            PageStep::Done(s, r2) => {
                                assert(page_run(bin@, before) == (s, r2));
                            },
                            PageStep::Go(s) => {},
                        }
                    }
                    return r;
                },
                None => {},
            }
            assert(before.pos < reader.pos_view() <= bin@.len());
        }
        err
    }
}


/// The size code of `flex<n>`: flex weights run from 1 to 4, a missing or bad
/// number means 1.
fn flex_size(value: &str, flex: u16) -> (r: u16)
    requires
        value@.len() >= 4,
        flex == WIDTH_FLEX || flex == HEIGHT_FLEX,
    ensures
        flex - 3 <= r <= flex,
        r == flex_code(value@.subrange(4, value@.len() as int), flex),
{
    let num: u16 = match parse_u16(value.substring_char(4, value.unicode_len())) {
        Some(v) => v,
        None => 1,
    };
    let clamped: u16 = if num < 1 { 1 } else if num > 4 { 4 } else { num };
    flex + 1 - clamped
}

/// The size code `flex + 1 - n` of a flex weight written as `n`: from 1 to
/// 4, where the number is missing or bad 1.
pub open spec fn flex_code(num: Seq<char>, flex: u16) -> u16 {
    let n: u16 = match spec_parse_u16(num) {
        Some(v) => v,
        None => 1,
    };
    let c: u16 = if n < 1 { 1 } else if n > 4 { 4 } else { n };
    (flex + 1 - c) as u16
}

/// The size code a width or height value names: `flex<n>`, `content`, or a
/// number; none for anything else.
pub open spec fn size_value(value: Seq<char>, flex: u16, content: u16) -> Option<u16> {
    if 4 <= value.len() && value.subrange(0, 4) == "flex"@ {
        Some(flex_code(value.subrange(4, value.len() as int), flex))
    } else if value == "content"@ {
        Some(content)
    } else {
        spec_parse_u16(value)
    }
}

/// The alignment an `align` value names, and whether it names one.
pub open spec fn align_value(value: Seq<char>) -> (Alignment, Ret) {
    if value == "start"@ {
        (Alignment::Start, Ret::Success)
    } else if value == "center"@ {
        (Alignment::Center, Ret::Success)
    } else if value == "end"@ {
        (Alignment::End, Ret::Success)
    } else if value == "stretch"@ {
        (Alignment::Stretch, Ret::Success)
    } else {
        (Alignment::Start, Ret::InvalidAttributeValue)
    }
}

/// `value` as a `u8`, `d` where it is none.
pub open spec fn u8_or(value: Seq<char>, d: u8) -> u8 {
    match spec_parse_u8(value) {
        Some(v) => v,
        None => d,
    }
}

/// Whether `value` is `solid` in any case.
pub open spec fn is_solid(value: Seq<char>) -> bool {
    value.len() == "solid"@.len() && forall|j: int| 0 <= j < value.len() ==> ascii_lower(#[trigger] value[j]) == ascii_lower("solid"@[j])
}

/// What the attribute `key` = `value` does to node `n` at nesting `depth`,
/// and its result: `vertical`, `width`, `height`, `align` (below the root),
/// `hidden`, `margin`, `padding`, `background`, `color`, `border`, `frame`
/// and `font` set the node's properties; other keys are ignored.
pub open spec fn attribute_spec(v: DomView, n: int, depth: int, key: Seq<char>, value: Seq<char>) -> (DomView, Ret) {
    let node = v.nodes[n];
    if key == "vertical"@ {
        (flagged(v, n, FLAGS_DIRECTION_SHIFT, FLAGS_DIRECTION_MASK, 1), Ret::Success)
    } else if key == "width"@ || key == "height"@ {
        let w = key == "width"@;
        match size_value(value, if w { WIDTH_FLEX } else { HEIGHT_FLEX }, if w { WIDTH_CONTENT } else { HEIGHT_CONTENT }) {
            Some(x) => {
                let size = if w { Size { width: x, ..node.plot.size } } else { Size { height: x, ..node.plot.size } };
                (with_node(v, n, Node { plot: Plot { size: size, ..node.plot }, ..node }), Ret::Success)
            },
            None => (v, Ret::InvalidAttributeValue),
        }
    } else if key == "align"@ {
        if depth > 0 {
            let (a, r) = align_value(value);
            (flagged(v, n, FLAGS_ALIGNMENT_SHIFT, FLAGS_ALIGNMENT_MASK, alignment_code(a)), r)
        } else {
            (v, Ret::Success)
        }
    } else if key == "hidden"@ {
        (flagged(v, n, FLAGS_VISIBILITY_SHIFT, FLAGS_VISIBILITY_MASK, 0), Ret::Success)
    } else if key == "margin"@ {
        if node.plot.margin_idx == 0 && v.margin_idx >= MARGIN_MAX {
            (v, Ret::InvalidFormat)
        } else {
            let o = decoded_values(value);
            (with_margin(v, n, Margin { n: o[0], e: o[1], s: o[2], w: o[3] }), Ret::Success)
        }
    } else if key == "padding"@ {
        let o = decoded_values(value);
        (with_padding(v, n, Padding { n: o[0], e: o[1], s: o[2], w: o[3] }), Ret::Success)
    } else if key == "background"@ {
        (with_style(v, n, Style { background: u8_or(value, 0), ..style_of(v, n) }), Ret::Success)
    } else if key == "color"@ {
        (with_style(v, n, Style { color: u8_or(value, 1), ..style_of(v, n) }), Ret::Success)
    } else if key == "border"@ || key == "frame"@ {
        let b: u8 = if is_solid(value) { BORDER_RECT } else { u8_or(value, 1) };
        let v1 = with_style(v, n, Style { border_idx: if b > BORDER_MAX { BORDER_MAX } else { b }, ..style_of(v, n) });
        (flagged(v1, n, FLAGS_FRAMING_SHIFT, FLAGS_FRAMING_MASK, if key == "border"@ { 1u8 } else { 0u8 }), Ret::Success)
    } else if key == "font"@ {
        (with_style(v, n, Style { font_idx: u8_or(value, 0), ..style_of(v, n) }), Ret::Success)
    } else {
        (v, Ret::Success)
    }
}

/// The attribute `hidden` hides the node it stands on, whatever its value,
/// and touches no other node.
pub proof fn law_hidden_attribute_hides(v: DomView, n: int, depth: int, value: Seq<char>)
    requires
        0 <= n < v.nodes.len(),
    ensures
        attribute_spec(v, n, depth, "hidden"@, value).1 == Ret::Success,
        attribute_spec(v, n, depth, "hidden"@, value).0.nodes.len() == v.nodes.len(),
        attribute_spec(v, n, depth, "hidden"@, value).0.nodes[n].spec_visibility() == Visibility::Hidden,
        forall|m: int| 0 <= m < v.nodes.len() && m != n ==> #[trigger] attribute_spec(v, n, depth, "hidden"@, value).0.nodes[m] == v.nodes[m],
{
    reveal_strlit("hidden");
    reveal_strlit("vertical");
    reveal_strlit("width");
    reveal_strlit("height");
    reveal_strlit("align");
    assert("hidden"@.len() == 6 && "vertical"@.len() == 8 && "align"@.len() == 5);
    assert("hidden"@ != "vertical"@);
    assert("hidden"@ != "width"@);
    assert("hidden"@[1] == 'i' && "height"@[1] == 'e');
    assert("hidden"@ != "height"@);
    assert("hidden"@ != "align"@);
    crate::node::lemma_flag_fields(v.nodes[n].flags, 0);
    crate::surface::laws::lemma_bit_ops();
}

/// The node that attributes apply to: the innermost open one, else the root.
pub open spec fn open_target(ps: PageState) -> int {
    if ps.depth > 0 { ps.stack[ps.depth - 1] as int } else { 0 }
}

/// What the next event of the markup does: elements open and close nodes,
/// attributes set properties of the innermost open node, character data
/// becomes the text of the last opened node where it has neither text nor
/// children; the end of the document ends the build. The third component
/// is the result where the build ends.
pub open spec fn xml_build_step(xml: Seq<char>, ps: PageState, xs: XmlState) -> (PageState, XmlState, Option<Ret>) {
    let (xs2, ev) = xml_next(xs, xml);
    match ev {
        Err(_) => (ps, xs2, Some(Ret::InvalidXML)),
        Ok(e) => match e {
            XmlEventView::StartElement(_) => match open_spec(ps) {
                Some(o) => (o, xs2, None),
                None => (ps, xs2, Some(Ret::InvalidFormat)),
            },
            XmlEventView::Attribute(k, val) => {
                let (v2, a) = attribute_spec(ps.v, open_target(ps), ps.depth, k, val);
                if a == Ret::InvalidFormat {
                    (ps, xs2, Some(Ret::InvalidFormat))
                } else {
                    (PageState { v: v2, err: if a == Ret::InvalidAttributeValue { a } else { ps.err }, ..ps }, xs2, None)
                }
            },
            XmlEventView::EndElement(_) => if ps.depth == 0 {
                (ps, xs2, Some(Ret::InvalidFormat))
            } else {
                (PageState { depth: ps.depth - 1, ..ps }, xs2, None)
            },
            XmlEventView::CData(d) => {
                let node = ps.v.nodes[ps.n_i];
                let bytes = encode_utf8(d);
                if bytes.len() > 0 && node.plot.content_idx == CONTENT_MAX && node.first_child == NODE_MAX {
                    if ps.v.content_idx >= CONTENT_MAX {
                        (ps, xs2, Some(Ret::InvalidFormat))
                    } else {
                        (PageState { v: with_content(ps.v, ps.n_i, bytes), ..ps }, xs2, None)
                    }
                } else {
                    (ps, xs2, None)
                }
            },
            XmlEventView::EndDocument => (ps, xs2, Some(ps.err)),
            XmlEventView::StartDocument => (ps, xs2, None),
        },
    }
}

/// The build from `ps` and the parser state `xs` for at most `fuel` events:
/// the DOM it leaves and its result (`InvalidXML` where the events run out).
pub open spec fn xml_build_run(xml: Seq<char>, ps: PageState, xs: XmlState, fuel: nat) -> (DomView, Ret)
    decreases fuel,
{
    if fuel == 0 {
        (ps.v, Ret::InvalidXML)
    } else {
        let (p2, x2, stop) = xml_build_step(xml, ps, xs);
        match stop {
            Some(r) => (p2.v, r),
            None => xml_build_run(xml, p2, x2, (fuel - 1) as nat),
        }
    }
}

/// The number of events a build reads at most: enough for any markup of
/// `len` characters.
pub open spec fn xml_fuel(len: nat) -> nat {
    if len < usize::MAX / 8 { 4 * len + 8 } else { usize::MAX as nat }
}

/// The parser state at the start of a document.
pub open spec fn xml_start() -> XmlState {
    XmlState { position: 0, state: 0, mark: 0, mark_end: 0, mark_value: 0, trim: true }
}

/// The building state of a DOM, builder and error.
pub open spec fn build_state(d: DOM, b: Builder, err: Ret) -> PageState {
    PageState { v: dom_view(d), stack: b.stack@, depth: b.depth as int, n_i: b.n_i as int, pos: 0, err: err }
}

impl DOM {
    /// A width or height attribute (see `size_value`).
    fn size_attribute(value: &str, flex: u16, content: u16) -> (r: Option<u16>)
        requires
            flex == WIDTH_FLEX || flex == HEIGHT_FLEX,
        ensures
            r == size_value(value@, flex, content),
    {
        proof {
            reveal_strlit("flex");
        }
        if starts_with(value, "flex") {
            Some(flex_size(value, flex))
        } else if str_is(value, "content") {
            Some(content)
        } else {
            parse_u16(value)
        }
    }

    /// Applies the attribute `key` = `value` to node `n_i` (see
    /// `attribute_spec`). Gives `InvalidAttributeValue` for a value that does
    /// not fit the key and `InvalidFormat` where the margin table is used up.
    #[verifier::spinoff_prover]
    #[verifier::rlimit(40)]
    fn apply_attribute(&mut self, n_i: NodeIdx, depth: usize, key: &str, value: &str) -> (r: Ret)
        requires
            old(self).wf(),
            n_i < NODE_MAX,
        ensures
            final(self).wf(),
            final(self).ids@ == old(self).ids@,
            final(self).id_idx == old(self).id_idx,
            final(self).positions.areas@ == old(self).positions.areas@,
            final(self).dummy_node == old(self).dummy_node,
            r == Ret::Success || r == Ret::InvalidAttributeValue || r == Ret::InvalidFormat,
            (dom_view(*final(self)), r) == attribute_spec(dom_view(*old(self)), n_i as int, depth as int, key@, value@),
    {
        if str_is(key, "vertical") {
            let mut n = self.nodes[n_i as usize];
            n.set_direction(Direction::Vertical);
            self.update_node_flags(n_i, n);
        } else if str_is(key, "width") || str_is(key, "height") {
            let is_width = str_is(key, "width");
            let sized = if is_width {
                DOM::size_attribute(value, WIDTH_FLEX, WIDTH_CONTENT)
            } else {
                DOM::size_attribute(value, HEIGHT_FLEX, HEIGHT_CONTENT)
            };
            match sized {
                Some(v) => {
                    self.page_size(n_i, is_width, v);
                },
                None => {
                    return Ret::InvalidAttributeValue;
                },
            }
        } else if str_is(key, "align") {
            if depth > 0 {
                let mut r = Ret::Success;
                let a = if str_is(value, "start") {
                    Alignment::Start
                } else if str_is(value, "center") {
                    Alignment::Center
                } else if str_is(value, "end") {
                    Alignment::End
                } else if str_is(value, "stretch") {
                    Alignment::Stretch
                } else {
                    r = Ret::InvalidAttributeValue;
                    Alignment::Start
                };
                let mut n = self.nodes[n_i as usize];
                n.set_alignment(a);
                self.update_node_flags(n_i, n);
                return r;
            }
        } else if str_is(key, "hidden") {
            let mut n = self.nodes[n_i as usize];
            n.set_visibility(Visibility::Hidden);
            self.update_node_flags(n_i, n);
        } else if str_is(key, "margin") || str_is(key, "padding") {
            let margin = str_is(key, "margin");
            if margin && self.nodes[n_i as usize].plot.margin_idx == 0 && self.margin_idx >= MARGIN_MAX {
                return Ret::InvalidFormat;
            }
            let o = decode_values(value);
            self.page_offsets(n_i, margin, o);
        } else if str_is(key, "background") {
            let v = match parse_u8(value) {
                Some(v) => v,
                None => 0,
            };
            self.page_style(n_i, 9, v);
        } else if str_is(key, "color") {
            let v = match parse_u8(value) {
                Some(v) => v,
                None => 1,
            };
            self.page_style(n_i, 10, v);
        } else if str_is(key, "border") || str_is(key, "frame") {
            let v = if eq_ignore_ascii_case(value, "solid") {
                BORDER_RECT
            } else {
                match parse_u8(value) {
                    Some(v) => v,
                    None => 1,
                }
            };
            self.page_style(n_i, 11, v);
            let framing = str_is(key, "border");
            let mut n = self.nodes[n_i as usize];
            n.set_framing(framing);
            self.update_node_flags(n_i, n);
        } else if str_is(key, "font") {
            let v = match parse_u8(value) {
                Some(v) => v,
                None => 0,
            };
            self.page_style(n_i, 12, v);
        }
        Ret::Success
    }

    /// Builds the DOM from XML markup (see `xml_build_step`): every element
    /// is a node, its attributes set the node's properties, character data
    /// becomes the content of the last opened node. `InvalidXML` where the
    /// markup is refused; `InvalidAttributeValue` where a value does not fit
    /// (the build goes on); `InvalidFormat` where the tables or the nesting
    /// run out.
    pub fn from_xml_static(&mut self, xml: &str) -> (r: Ret)
        requires
            old(self).wf(),
        ensures
            final(self).wf(),
            r == Ret::Success || r == Ret::InvalidXML || r == Ret::InvalidAttributeValue
                || r == Ret::InvalidFormat,
            (dom_view(*final(self)), r) == xml_build_run(
                xml@,
                page_start(clear_view(old(self).styles@[STYLE_MAX as int])),
                xml_start(),
                xml_fuel(xml@.len()),
            ),
            final(self).ids@ == old(self).ids@,
            final(self).id_idx == old(self).id_idx,
            final(self).positions.areas@ == old(self).positions.areas@,
            final(self).dummy_node == old(self).dummy_node,
    {
        let mut err = Ret::Success;
        let mut b = Builder::new();
        self.clear();
        let mut reader = XmlParser::new();
        let fuel: usize = if xml.unicode_len() < usize::MAX / 8 { 4 * xml.unicode_len() + 8 } else { usize::MAX };
        let ghost target = xml_build_run(xml@, page_start(clear_view(old(self).styles@[STYLE_MAX as int])), xml_start(), xml_fuel(xml@.len()));
        assert(build_state(*self, b, err) == page_start(clear_view(old(self).styles@[STYLE_MAX as int])));
        let mut steps: usize = 0;
        while steps < fuel
            invariant
                self.ids@ == old(self).ids@,
                self.id_idx == old(self).id_idx,
                self.positions.areas@ == old(self).positions.areas@,
                self.dummy_node == old(self).dummy_node,
                self.wf(),
                b.wf(),
                reader.wf(),
                err == Ret::Success || err == Ret::InvalidAttributeValue,
                steps <= fuel,
                xml_build_run(xml@, build_state(*self, b, err), reader.model(), (fuel - steps) as nat) == target,
                target == xml_build_run(
                    xml@,
                    page_start(clear_view(old(self).styles@[STYLE_MAX as int])),
                    xml_start(),
                    xml_fuel(xml@.len()),
                ),
                fuel == xml_fuel(xml@.len()),
            decreases fuel - steps,
        {
            let ghost before = build_state(*self, b, err);
            let ghost xs = reader.model();
            steps += 1;
            let event = reader.next(xml);
            match event {
                Err(_) => {
                    return Ret::InvalidXML;
                },
                Ok(XmlEvent::StartElement { name: _ }) => {
                    if !self.open_node(&mut b) {
                        return Ret::InvalidFormat;
                    }
                },
                Ok(XmlEvent::Attribute { key, value }) => {
                    let target = b.current();
                    let a = self.apply_attribute(target, b.depth, key, value);
                    if a == Ret::InvalidFormat {
                        return Ret::InvalidFormat;
                    }
                    if a == Ret::InvalidAttributeValue {
                        err = Ret::InvalidAttributeValue;
                    }
                },
                Ok(XmlEvent::EndElement { name: _ }) => {
                    if b.depth == 0 {
                        return Ret::InvalidFormat;
                    }
                    b.depth -= 1;
                },
                Ok(XmlEvent::CData { data }) => {
                    let n_i = b.n_i;
                    let node = self.nodes[n_i as usize];
                    let bytes = data.as_bytes();
                    if bytes.len() > 0 && node.plot.content_idx == CONTENT_MAX && node.first_child == NODE_MAX {
                        if self.content_idx >= CONTENT_MAX {
                            return Ret::InvalidFormat;
                        }
                        self.page_content(n_i, bytes);
                    }
                },
                Ok(XmlEvent::EndDocument {}) => {
                    return err;
                },
                Ok(XmlEvent::StartDocument {}) => {},
            }
        }
        Ret::InvalidXML
    }

    /// `from_xml_static` on markup whose text the DOM keeps a copy of.
    pub fn from_xml(&mut self, xml: &str) -> (r: Ret)
        requires
            old(self).wf(),
        ensures
            final(self).wf(),
            r == Ret::Success || r == Ret::InvalidXML || r == Ret::InvalidAttributeValue
                || r == Ret::InvalidFormat,
            (dom_view(*final(self)), r) == xml_build_run(
                xml@,
                page_start(clear_view(old(self).styles@[STYLE_MAX as int])),
                xml_start(),
                xml_fuel(xml@.len()),
            ),
            final(self).ids@ == old(self).ids@,
            final(self).id_idx == old(self).id_idx,
            final(self).positions.areas@ == old(self).positions.areas@,
            final(self).dummy_node == old(self).dummy_node,
    {
        self.from_xml_static(xml)
    }
}


/// Four side values as an attribute value: one number where all agree,
/// two (north-south, east-west) in quotes where the opposite sides agree,
/// else all four in quotes.
pub open spec fn nesw_bytes(n: i8, e: i8, s: i8, w: i8) -> Seq<u8> {
    if n == s && e == w && n == e {
        signed_decimal_bytes(n as int)
    } else if n == s && e == w {
        seq![34u8] + signed_decimal_bytes(n as int) + seq![32u8] + signed_decimal_bytes(e as int) + seq![34u8]
    } else {
        seq![34u8] + signed_decimal_bytes(n as int) + seq![32u8] + signed_decimal_bytes(e as int) + seq![32u8]
            + signed_decimal_bytes(s as int) + seq![32u8] + signed_decimal_bytes(w as int) + seq![34u8]
    }
}

/// A width or height attribute: a fixed size, a flex weight, or nothing for
/// a size taken from the content.
pub open spec fn size_attr(plain: Seq<u8>, flex_key: Seq<u8>, v: u16, max: u16, content: u16, flex: u16) -> Seq<u8> {
    if v < max {
        plain + decimal_bytes(v as nat)
    } else if v < content {
        flex_key + decimal_bytes((flex - v + 1) as nat)
    } else {
        Seq::empty()
    }
}

/// A padding or margin attribute, where some side is not 0.
pub open spec fn nesw_attr(key: Seq<u8>, n: i8, e: i8, s: i8, w: i8) -> Seq<u8> {
    if n != 0 || e != 0 || s != 0 || w != 0 { key + nesw_bytes(n, e, s, w) } else { Seq::empty() }
}

/// A style attribute that is written where its value is not the default.
pub open spec fn style_attr(key: Seq<u8>, v: u8, default: u8) -> Seq<u8> {
    if v != default { key + decimal_bytes(v as nat) } else { Seq::empty() }
}

/// The opening tag of node `n_i` of `d`, with its non-default properties as
/// attributes.
#[verifier::opaque]
pub open spec fn open_tag(d: DOM, n_i: int, incl_idx: bool) -> Seq<u8> {
    let node = d.nodes@[n_i];
    let p = d.paddings@[node.plot.padding_idx as int];
    let m = d.margins@[node.plot.margin_idx as int];
    let st = d.styles@[node.plot.style_idx as int];
    let hidden = node.spec_visibility() == Visibility::Hidden;
    (if n_i == 0 { "<body".spec_bytes() } else { "<div".spec_bytes() })
        + size_attr(" width=".spec_bytes(), " width=flex".spec_bytes(), node.plot.size.width, WIDTH_MAX, WIDTH_CONTENT, WIDTH_FLEX)
        + size_attr(" height=".spec_bytes(), " height=flex".spec_bytes(), node.plot.size.height, HEIGHT_MAX, HEIGHT_CONTENT, HEIGHT_FLEX)
        + flag_attrs(d, n_i)
        + nesw_attr(" padding=".spec_bytes(), p.n, p.e, p.s, p.w)
        + nesw_attr(" margin=".spec_bytes(), m.n, m.e, m.s, m.w)
        + border_attr(d, n_i)
        + style_attr(" font=".spec_bytes(), st.font_idx, FONT_MAX)
        + style_attr(" color=".spec_bytes(), st.color, 1)
        + style_attr(" background=".spec_bytes(), st.background, 255)
        + tail_attrs(hidden, incl_idx, n_i)
}

/// The end of an opening tag: `visible=0` for a hidden node, the node index
/// where asked for, and `>`.
pub open spec fn tail_attrs(hidden: bool, incl_idx: bool, n_i: int) -> Seq<u8> {
    (if hidden { " visible=0".spec_bytes() } else { Seq::empty() })
        + (if incl_idx { " _idx=".spec_bytes() + decimal_bytes(n_i as nat) } else { Seq::empty() })
        + ">".spec_bytes()
}

/// Appends the end of an opening tag.
fn push_tail(out: &mut Vec<u8>, hidden: bool, incl_idx: bool, n_i: NodeIdx)
    ensures
        final(out)@ == old(out)@ + tail_attrs(hidden, incl_idx, n_i as int),
{
    let ghost start = out@;
    if hidden {
        push_str(out, " visible=0");
    }
    if incl_idx {
        push_str(out, " _idx=");
        push_decimal(out, n_i as u32);
    }
    push_str(out, ">");
    assert(out@ =~= start + tail_attrs(hidden, incl_idx, n_i as int));
}

/// The attributes the flags of node `n_i` give: hidden, alignment,
/// direction.
pub open spec fn flag_attrs(d: DOM, n_i: int) -> Seq<u8> {
    let node = d.nodes@[n_i];
    (if node.spec_visibility() == Visibility::Hidden { " hidden".spec_bytes() } else { Seq::empty() })
        + (match node.spec_alignment() {
            Alignment::Center => " align=center".spec_bytes(),
            Alignment::End => " align=end".spec_bytes(),
            Alignment::Stretch => " align=stretch".spec_bytes(),
            Alignment::Start => Seq::empty(),
        })
        + (if node.spec_direction() == Direction::Vertical { " vertical".spec_bytes() } else { Seq::empty() })
}

/// The border attribute of node `n_i` (`frame` where the border does not
/// frame the node): `solid` for the plain rectangle, else the border number;
/// none without a border.
pub open spec fn border_attr(d: DOM, n_i: int) -> Seq<u8> {
    let node = d.nodes@[n_i];
    let st = d.styles@[node.plot.style_idx as int];
    let frame_key = if node.spec_framing() { " border=".spec_bytes() } else { " frame=".spec_bytes() };
    if st.border_idx == BORDER_RECT {
        frame_key + "solid".spec_bytes()
    } else if st.border_idx != BORDER_MAX {
        frame_key + decimal_bytes(st.border_idx as nat)
    } else {
        Seq::empty()
    }
}

/// Appends a width or height attribute.
fn push_size_attr(out: &mut Vec<u8>, plain: &str, flex_key: &str, v: u16, max: u16, content: u16, flex: u16)
    requires
        max < content,
        content <= flex + 1,
        max <= flex,
    ensures
        final(out)@ == old(out)@ + size_attr(plain.spec_bytes(), flex_key.spec_bytes(), v, max, content, flex),
{
    let ghost start = out@;
    if v < max {
        push_str(out, plain);
        push_decimal(out, v as u32);
    } else if v < content {
        push_str(out, flex_key);
        push_decimal(out, flex as u32 - v as u32 + 1);
    }
    assert(out@ =~= start + size_attr(plain.spec_bytes(), flex_key.spec_bytes(), v, max, content, flex));
}

/// Appends a padding or margin attribute where some side is not 0.
fn push_nesw_attr(out: &mut Vec<u8>, key: &str, n: i8, e: i8, s: i8, w: i8)
    ensures
        final(out)@ == old(out)@ + nesw_attr(key.spec_bytes(), n, e, s, w),
{
    let ghost start = out@;
    if n != 0 || e != 0 || s != 0 || w != 0 {
        push_str(out, key);
        write_nesw(out, n, e, s, w);
    }
    assert(out@ =~= start + nesw_attr(key.spec_bytes(), n, e, s, w));
}

/// Appends a style attribute where its value is not the default.
fn push_style_attr(out: &mut Vec<u8>, key: &str, v: u8, default: u8)
    ensures
        final(out)@ == old(out)@ + style_attr(key.spec_bytes(), v, default),
{
    let ghost start = out@;
    if v != default {
        push_str(out, key);
        push_decimal(out, v as u32);
    }
    assert(out@ =~= start + style_attr(key.spec_bytes(), v, default));
}

fn write_nesw(out: &mut Vec<u8>, n: i8, e: i8, s: i8, w: i8)
    ensures
        final(out)@ == old(out)@ + nesw_bytes(n, e, s, w),
{
    if n == s && e == w && n == e {
        push_signed(out, n as i32);
    } else if n == s && e == w {
        out.push(34);
        push_signed(out, n as i32);
        out.push(32);
        push_signed(out, e as i32);
        out.push(34);
    } else {
        out.push(34);
        push_signed(out, n as i32);
        out.push(32);
        push_signed(out, e as i32);
        out.push(32);
        push_signed(out, s as i32);
        out.push(32);
        push_signed(out, w as i32);
        out.push(34);
    }
    assert(final(out)@ =~= old(out)@ + nesw_bytes(n, e, s, w));
}

/// The bytes of a pad.
pub open spec fn pad_view(pad: Option<&str>) -> Option<Seq<u8>> {
    match pad {
        Some(p) => Some(p.spec_bytes()),
        None => None,
    }
}

/// `pad` repeated `count` times; nothing without a pad.
pub open spec fn pad_bytes(pad: Option<Seq<u8>>, count: nat) -> Seq<u8>
    decreases count,
{
    match pad {
        Some(p) => if count == 0 { Seq::empty() } else { pad_bytes(pad, (count - 1) as nat) + p },
        None => Seq::empty(),
    }
}

/// Appends `pad` `count` times where there is a pad.
fn write_pad(out: &mut Vec<u8>, pad: Option<&str>, count: usize)
    ensures
        final(out)@ == old(out)@ + pad_bytes(pad_view(pad), count as nat),
{
    if let Some(p) = pad {
        let mut i: usize = 0;
        while i < count
            invariant
                i <= count,
                pad == Some(p),
                out@ == old(out)@ + pad_bytes(pad_view(pad), i as nat),
            decreases count - i,
        {
            push_str(out, p);
            i += 1;
            assert(out@ =~= old(out)@ + pad_bytes(pad_view(pad), i as nat));
        }
    } else {
        assert(out@ =~= old(out)@ + pad_bytes(pad_view(pad), count as nat));
    }
}

/// What starts a sequence starts it with anything appended.
proof fn lemma_prefix_append(a: Seq<u8>, b: Seq<u8>, h: Seq<u8>)
    requires
        a.len() >= h.len() && a.subrange(0, h.len() as int) == h || a.len() == 0 && b.len() >= h.len() && b.subrange(0, h.len() as int) == h,
    ensures
        (a + b).len() >= h.len(),
        (a + b).subrange(0, h.len() as int) == h,
{
    if a.len() >= h.len() && a.subrange(0, h.len() as int) == h {
        assert((a + b).subrange(0, h.len() as int) =~= a.subrange(0, h.len() as int));
    } else {
        assert((a + b).subrange(0, h.len() as int) =~= b.subrange(0, h.len() as int));
    }
}

/// A sequence that starts with `p + h` for an empty `p` starts with `h`.
proof fn lemma_prefix_after_empty(c: Seq<u8>, p: Seq<u8>, h: Seq<u8>)
    requires
        p.len() == 0,
        c.len() >= (p + h).len(),
        c.subrange(0, (p + h).len() as int) == p + h,
    ensures
        c.len() >= h.len(),
        c.subrange(0, h.len() as int) == h,
{
    assert(p + h =~= h);
}

impl DOM {
    /// The opening tag of node `n_i` with its non-default properties.
    #[verifier::rlimit(40)]
    fn write_open_tag(&self, out: &mut Vec<u8>, n_i: NodeIdx, incl_idx: bool)
        requires
            self.wf(),
            n_i < NODE_MAX,
        ensures
            final(out)@ == old(out)@ + open_tag(*self, n_i as int, incl_idx),
    {
        let node = self.nodes[n_i as usize];
        let ghost start = out@;
        push_str(out, if n_i == 0 { "<body" } else { "<div" });
        let ghost acc = if n_i == 0 { "<body".spec_bytes() } else { "<div".spec_bytes() };
        push_size_attr(out, " width=", " width=flex", node.plot.size.width, WIDTH_MAX, WIDTH_CONTENT, WIDTH_FLEX);
        proof {
            let ghost part = size_attr(" width=".spec_bytes(), " width=flex".spec_bytes(), node.plot.size.width, WIDTH_MAX, WIDTH_CONTENT, WIDTH_FLEX);
            vstd::seq_lib::lemma_concat_associative(start, acc, part);
            acc = acc + part;
        }
        push_size_attr(out, " height=", " height=flex", node.plot.size.height, HEIGHT_MAX, HEIGHT_CONTENT, HEIGHT_FLEX);
        proof {
            let ghost part = size_attr(" height=".spec_bytes(), " height=flex".spec_bytes(), node.plot.size.height, HEIGHT_MAX, HEIGHT_CONTENT, HEIGHT_FLEX);
            vstd::seq_lib::lemma_concat_associative(start, acc, part);
            acc = acc + part;
        }
        let hidden = match node.visibility() {
            Visibility::Hidden => true,
            Visibility::Visible => false,
        };
        self.push_flag_attrs(out, n_i);
        proof {
            let ghost part = flag_attrs(*self, n_i as int);
            vstd::seq_lib::lemma_concat_associative(start, acc, part);
            acc = acc + part;
        }
        let padding = self.paddings[node.plot.padding_idx as usize];
        push_nesw_attr(out, " padding=", padding.n, padding.e, padding.s, padding.w);
        proof {
            let ghost part = nesw_attr(" padding=".spec_bytes(), padding.n, padding.e, padding.s, padding.w);
            vstd::seq_lib::lemma_concat_associative(start, acc, part);
            acc = acc + part;
        }
        let margin = self.margins[node.plot.margin_idx as usize];
        push_nesw_attr(out, " margin=", margin.n, margin.e, margin.s, margin.w);
        proof {
            let ghost part = nesw_attr(" margin=".spec_bytes(), margin.n, margin.e, margin.s, margin.w);
            vstd::seq_lib::lemma_concat_associative(start, acc, part);
            acc = acc + part;
        }
        let style = self.styles[node.plot.style_idx as usize];
        self.push_border_attr(out, n_i);
        proof {
            let ghost part = border_attr(*self, n_i as int);
            vstd::seq_lib::lemma_concat_associative(start, acc, part);
            acc = acc + part;
        }
        push_style_attr(out, " font=", style.font_idx, FONT_MAX);
        proof {
            let ghost part = style_attr(" font=".spec_bytes(), style.font_idx, FONT_MAX);
            vstd::seq_lib::lemma_concat_associative(start, acc, part);
            acc = acc + part;
        }
        push_style_attr(out, " color=", style.color, 1);
        proof {
            let ghost part = style_attr(" color=".spec_bytes(), style.color, 1);
            vstd::seq_lib::lemma_concat_associative(start, acc, part);
            acc = acc + part;
        }
        push_style_attr(out, " background=", style.background, 255);
        proof {
            let ghost part = style_attr(" background=".spec_bytes(), style.background, 255);
            vstd::seq_lib::lemma_concat_associative(start, acc, part);
            acc = acc + part;
        }
        push_tail(out, hidden, incl_idx, n_i);
        proof {
            let ghost part = tail_attrs(hidden, incl_idx, n_i as int);
            vstd::seq_lib::lemma_concat_associative(start, acc, part);
            acc = acc + part;
            reveal(open_tag);
            assert(acc == open_tag(*self, n_i as int, incl_idx));
        }
    }

    /// Appends the attributes that the flags give: hidden, alignment,
    /// direction.
    fn push_flag_attrs(&self, out: &mut Vec<u8>, n_i: NodeIdx)
        requires
            self.wf(),
            n_i < NODE_MAX,
        ensures
            final(out)@ == old(out)@ + flag_attrs(*self, n_i as int),
    {
        let node = self.nodes[n_i as usize];
        let ghost start = out@;
        match node.visibility() {
            Visibility::Hidden => push_str(out, " hidden"),
            Visibility::Visible => {},
        }
        let ghost a = out@;
        match node.alignment() {
            Alignment::Center => push_str(out, " align=center"),
            Alignment::End => push_str(out, " align=end"),
            Alignment::Stretch => push_str(out, " align=stretch"),
            Alignment::Start => {},
        }
        let ghost b = out@;
        match node.direction() {
            Direction::Vertical => push_str(out, " vertical"),
            Direction::Horizontal => {},
        }
        assert(out@ =~= start + flag_attrs(*self, n_i as int));
    }

    /// Appends the border (or frame) attribute of node `n_i`.
    fn push_border_attr(&self, out: &mut Vec<u8>, n_i: NodeIdx)
        requires
            self.wf(),
            n_i < NODE_MAX,
        ensures
            final(out)@ == old(out)@ + border_attr(*self, n_i as int),
    {
        let node = self.nodes[n_i as usize];
        let style = self.styles[node.plot.style_idx as usize];
        let frame_key = if node.framing() { " border=" } else { " frame=" };
        let ghost start = out@;
        if style.border_idx == BORDER_RECT {
            push_str(out, frame_key);
            push_str(out, "solid");
        } else if style.border_idx != BORDER_MAX {
            push_str(out, frame_key);
            push_decimal(out, style.border_idx as u32);
        }
        assert(out@ =~= start + border_attr(*self, n_i as int));
    }

    /// What the walk writes on entering node `n_i` at depth `depth` (see
    /// `open_chunk_spec`).
    fn open_chunk(&self, pad: Option<&str>, depth: usize, n_i: NodeIdx, incl_idx: bool) -> (r: Vec<u8>)
        requires
            self.wf(),
            n_i < NODE_MAX,
        ensures
            r@ == open_chunk_spec(*self, pad_view(pad), depth as nat, n_i as int, incl_idx),
    {
        let mut chunk: Vec<u8> = Vec::new();
        let node = self.nodes[n_i as usize];
        write_pad(&mut chunk, pad, depth);
        self.write_open_tag(&mut chunk, n_i, incl_idx);
        let ghost opened = chunk@;
        if node.plot.content_idx != CONTENT_MAX && node.first_child == NODE_MAX {
            let content = &self.contents[node.plot.content_idx as usize];
            if content.raw.len() > 0 {
                if pad.is_some() {
                    chunk.push(10);
                }
                write_pad(&mut chunk, pad, depth);
                push_str(&mut chunk, content.as_str());
                if pad.is_some() {
                    chunk.push(10);
                }
            }
        } else if node.first_child != NODE_MAX {
            if pad.is_some() {
                chunk.push(10);
            }
        }
        assert(chunk@ =~= open_chunk_spec(*self, pad_view(pad), depth as nat, n_i as int, incl_idx));
        chunk
    }

    /// What the walk writes on leaving node `n_i` at depth `depth` (see
    /// `close_chunk_spec`).
    fn close_chunk(&self, pad: Option<&str>, depth: usize, n_i: NodeIdx) -> (r: Vec<u8>)
        requires
            self.wf(),
            n_i < NODE_MAX,
        ensures
            r@ == close_chunk_spec(*self, pad_view(pad), depth as nat, n_i as int),
    {
        let mut chunk: Vec<u8> = Vec::new();
        let node = self.nodes[n_i as usize];
        if node.plot.content_idx != CONTENT_MAX || node.first_child != NODE_MAX {
            write_pad(&mut chunk, pad, depth);
        }
        push_str(&mut chunk, if n_i == 0 { "</body>" } else { "</div>" });
        if pad.is_some() {
            chunk.push(10);
        }
        assert(chunk@ =~= close_chunk_spec(*self, pad_view(pad), depth as nat, n_i as int));
        chunk
    }

    /// The DOM as XML markup (see `xml_walk`), from the root down: `body` for
    /// the root, `div` for the other nodes, non-default properties as
    /// attributes, contents as text. With `pad`, every line is indented by it
    /// once per level.
    #[verifier::rlimit(80)]
    pub fn to_xml(&self, pad: Option<&str>, incl_idx: bool) -> (r: Vec<u8>)
        requires
            self.wf(),
        ensures
            r@ == xml_walk(*self, pad_view(pad), incl_idx, 0, 0, false, Seq::new(8, |i: int| NODE_MAX), Seq::empty(), 1024),
            r@.len() >= open_tag(*self, 0, incl_idx).len(),
            r@.subrange(0, open_tag(*self, 0, incl_idx).len() as int) == open_tag(*self, 0, incl_idx),
    {
        let ghost head = open_tag(*self, 0, incl_idx);
        let ghost pv = pad_view(pad);
        let ghost target = xml_walk(*self, pv, incl_idx, 0, 0, false, Seq::new(8, |i: int| NODE_MAX), Seq::empty(), 1024);
        let mut out: Vec<u8> = Vec::new();
        let mut p_stack: [NodeIdx; 8] = [NODE_MAX; 8];
        assert(p_stack@ =~= Seq::new(8, |i: int| NODE_MAX));
        assert(out@ =~= Seq::<u8>::empty());
        let mut n_i: NodeIdx = 0;
        let mut p_i: usize = 0;
        let mut descent: u8 = 0;
        let mut steps: usize = 0;
        while steps < 1024
            invariant
                self.wf(),
                n_i < NODE_MAX,
                p_i <= DOM_DEPTH_MAX,
                descent <= 1,
                steps <= 1024,
                p_stack@.len() == 8,
                forall|j: int| 0 <= j < p_i ==> #[trigger] p_stack[j] < NODE_MAX,
                pv == pad_view(pad),
                head == open_tag(*self, 0, incl_idx),
                target == xml_walk(*self, pv, incl_idx, 0, 0, false, Seq::new(8, |i: int| NODE_MAX), Seq::empty(), 1024),
                xml_walk(*self, pv, incl_idx, n_i as int, p_i as int, descent == 1, p_stack@, out@, (1024 - steps) as nat) == target,
                steps == 0 ==> n_i == 0 && p_i == 0 && descent == 0 && out@.len() == 0,
                steps > 0 ==> out@.len() >= head.len() && out@.subrange(0, head.len() as int) == head,
            decreases 1024 - steps,
        {
            let ghost first = steps == 0;
            steps += 1;
            let node = self.nodes[n_i as usize];
            let mut done = false;
            let mut chunk: Vec<u8>;
            if descent == 0 {
                chunk = self.open_chunk(pad, p_i, n_i, incl_idx);
                proof {
                    if first {
                        assert(pad_bytes(pad_view(pad), p_i as nat) =~= Seq::<u8>::empty());
                        lemma_open_chunk_head(*self, pv, n_i as int, incl_idx);
                        lemma_prefix_after_empty(chunk@, pad_bytes(pad_view(pad), p_i as nat), head);
                    }
                }
            } else {
                chunk = self.close_chunk(pad, p_i, n_i);
            }
            if descent == 0 {
                if node.first_child == NODE_MAX {
                    descent = 1;
                } else if p_i >= DOM_DEPTH_MAX || node.first_child > NODE_MAX {
                    done = true;
                } else {
                    p_stack[p_i] = n_i;
                    p_i += 1;
                    n_i = node.first_child;
                }
            } else {
                if p_i == 0 {
                    done = true;
                } else if n_i > 0 && node.next_sibling != NODE_MAX {
                    if node.next_sibling >= NODE_MAX {
                        done = true;
                    } else {
                        descent = 0;
                        n_i = node.next_sibling;
                    }
                } else {
                    p_i -= 1;
                    n_i = p_stack[p_i];
                }
            }
            let ghost before = out@;
            let ghost chunk_before = chunk@;
            out.append(&mut chunk);
            proof {
                lemma_prefix_append(before, chunk_before, head);
            }
            if done {
                return out;
            }
        }
        out
    }
}

/// A line break where there is a pad.
pub open spec fn nl(pad: Option<Seq<u8>>) -> Seq<u8> {
    if pad.is_some() { seq![10u8] } else { Seq::empty() }
}

/// What the walk writes on entering node `n` at `depth`: the indented
/// opening tag; for a leaf with text, the text on a line of its own; for a
/// node with children, a line break.
pub open spec fn open_chunk_spec(d: DOM, pad: Option<Seq<u8>>, depth: nat, n: int, incl_idx: bool) -> Seq<u8> {
    let node = d.nodes@[n];
    let head = pad_bytes(pad, depth) + open_tag(d, n, incl_idx);
    if node.plot.content_idx != CONTENT_MAX && node.first_child == NODE_MAX {
        let raw = d.contents@[node.plot.content_idx as int].raw@;
        if raw.len() > 0 {
            head + nl(pad) + pad_bytes(pad, depth) + stored_name(raw) + nl(pad)
        } else {
            head
        }
    } else if node.first_child != NODE_MAX {
        head + nl(pad)
    } else {
        head
    }
}

/// What the walk writes on leaving node `n` at `depth`: the closing tag,
/// indented where the node has text or children.
pub open spec fn close_chunk_spec(d: DOM, pad: Option<Seq<u8>>, depth: nat, n: int) -> Seq<u8> {
    let node = d.nodes@[n];
    (if node.plot.content_idx != CONTENT_MAX || node.first_child != NODE_MAX { pad_bytes(pad, depth) } else { Seq::empty() })
        + (if n == 0 { "</body>".spec_bytes() } else { "</div>".spec_bytes() }) + nl(pad)
}

/// The markup of the depth-first walk from node `n` at `depth` (going down,
/// or coming back up where `up`), after `out`, for at most `fuel` steps:
/// each node is opened on the way down and closed on the way up; nodes are
/// visited through first children and next siblings (the root's siblings
/// aside), ancestors kept on a stack of `DOM_DEPTH_MAX`.
pub open spec fn xml_walk(
    d: DOM,
    pad: Option<Seq<u8>>,
    incl_idx: bool,
    n: int,
    depth: int,
    up: bool,
    stack: Seq<NodeIdx>,
    out: Seq<u8>,
    fuel: nat,
) -> Seq<u8>
    decreases fuel,
{
    if fuel == 0 {
        out
    } else {
        let node = d.nodes@[n];
        let f = (fuel - 1) as nat;
        if !up {
            let out2 = out + open_chunk_spec(d, pad, depth as nat, n, incl_idx);
            if node.first_child == NODE_MAX {
                xml_walk(d, pad, incl_idx, n, depth, true, stack, out2, f)
            } else if depth >= DOM_DEPTH_MAX || node.first_child > NODE_MAX {
                out2
            } else {
                xml_walk(d, pad, incl_idx, node.first_child as int, depth + 1, false, stack.update(depth, n as NodeIdx), out2, f)
            }
        } else {
            let out2 = out + close_chunk_spec(d, pad, depth as nat, n);
            if depth == 0 {
                out2
            } else if n > 0 && node.next_sibling != NODE_MAX {
                if node.next_sibling >= NODE_MAX {
                    out2
                } else {
                    xml_walk(d, pad, incl_idx, node.next_sibling as int, depth, false, stack, out2, f)
                }
            } else {
                xml_walk(d, pad, incl_idx, stack[depth - 1] as int, depth - 1, true, stack, out2, f)
            }
        }
    }
}

/// The chunk that opens the root starts with the root's opening tag.
proof fn lemma_open_chunk_head(d: DOM, pad: Option<Seq<u8>>, n: int, incl_idx: bool)
    ensures
        open_chunk_spec(d, pad, 0, n, incl_idx).len() >= open_tag(d, n, incl_idx).len(),
        open_chunk_spec(d, pad, 0, n, incl_idx).subrange(0, open_tag(d, n, incl_idx).len() as int)
            == pad_bytes(pad, 0) + open_tag(d, n, incl_idx),
{
    let head = pad_bytes(pad, 0) + open_tag(d, n, incl_idx);
    assert(pad_bytes(pad, 0) =~= Seq::<u8>::empty());
    assert(head =~= open_tag(d, n, incl_idx));
    let c = open_chunk_spec(d, pad, 0, n, incl_idx);
    assert(c.subrange(0, head.len() as int) =~= head);
}

/// `,<v>` for each value, in decimal.
pub open spec fn cells(values: Seq<i32>) -> Seq<u8>
    decreases values.len(),
{
    if values.len() == 0 {
        Seq::empty()
    } else {
        cells(values.drop_last()) + seq![44u8] + signed_decimal_bytes(values.last() as int)
    }
}

/// Appends `,<v>` for each value.
fn push_cells(out: &mut Vec<u8>, values: &[i32])
    requires
        forall|k: int| 0 <= k < values@.len() ==> values@[k] > i32::MIN,
    ensures
        final(out)@ == old(out)@ + cells(values@),
{
    let mut k: usize = 0;
    while k < values.len()
        invariant
            k <= values@.len(),
            forall|j: int| 0 <= j < values@.len() ==> values@[j] > i32::MIN,
            out@ == old(out)@ + cells(values@.subrange(0, k as int)),
        decreases values@.len() - k,
    {
        out.push(44);
        push_signed(out, values[k]);
        k += 1;
        assert(values@.subrange(0, k as int).drop_last() =~= values@.subrange(0, k - 1));
        assert(out@ =~= old(out)@ + cells(values@.subrange(0, k as int)));
    }
    assert(values@.subrange(0, values@.len() as int) =~= values@);
}

/// The number an alignment has in the table.
pub open spec fn alignment_cell(a: Alignment) -> i32 {
    match a {
        Alignment::Start => 0,
        Alignment::Center => 1,
        Alignment::End => 2,
        Alignment::Stretch => 3,
    }
}

/// The first cells of the row of node `i`: links, flags, size, padding,
/// margin and style.
pub open spec fn node_cells(d: DOM, i: int) -> Seq<i32> {
    let n = d.nodes@[i];
    let p = d.paddings@[n.plot.padding_idx as int];
    let m = d.margins@[n.plot.margin_idx as int];
    let st = d.styles@[n.plot.style_idx as int];
    seq![
        n.first_child as i32, n.next_sibling as i32, alignment_cell(n.spec_alignment()),
        if n.spec_visibility() == Visibility::Hidden { 0i32 } else { 1i32 },
        if n.spec_direction() == Direction::Horizontal { 0i32 } else { 1i32 },
        if n.spec_framing() { 1i32 } else { 0i32 },
        n.plot.size.width as i32, n.plot.size.height as i32,
        p.n as i32, p.e as i32, p.s as i32, p.w as i32,
        m.n as i32, m.e as i32, m.s as i32, m.w as i32,
        st.color as i32, st.background as i32, st.border_idx as i32, st.font_idx as i32,
    ]
}

/// The last cells of the row of node `i`: its last computed area and the
/// area inside its margin and padding.
pub open spec fn area_cells(d: DOM, i: int) -> Seq<i32> {
    let n = d.nodes@[i];
    let p = d.paddings@[n.plot.padding_idx as int];
    let m = d.margins@[n.plot.margin_idx as int];
    let area = d.positions.areas@[i].0;
    let sw = sat_i8(m.w + p.w);
    let sn = sat_i8(m.n + p.n);
    let ew = sat_i8(sat_i8(sat_i8(p.e + p.w) + m.e) + m.w);
    let ns = sat_i8(sat_i8(sat_i8(p.n + p.s) + m.n) + m.s);
    let cw = sat_i16((area.size.width as i16) - ew);
    let ch = sat_i16((area.size.height as i16) - ns);
    seq![
        area.point.x as i32, area.point.y as i32, area.size.width as i32, area.size.height as i32,
        sat_i16(area.point.x + sw) as i32, sat_i16(area.point.y + sn) as i32,
        if cw > 0 { cw as i32 } else { 0i32 }, if ch > 0 { ch as i32 } else { 0i32 },
    ]
}

/// The row of node `i`.
pub open spec fn node_row(d: DOM, i: int) -> Seq<u8> {
    let n = d.nodes@[i];
    decimal_bytes(i as nat) + cells(node_cells(d, i)) + ",\"".spec_bytes()
        + (if n.plot.content_idx < CONTENT_MAX { stored_name(d.contents@[n.plot.content_idx as int].raw@) } else { Seq::empty() })
        + "\"".spec_bytes() + cells(area_cells(d, i)) + "\r\n".spec_bytes()
}

/// The rows of the first `k` nodes.
pub open spec fn node_rows(d: DOM, k: nat) -> Seq<u8>
    decreases k,
{
    if k == 0 { Seq::empty() } else { node_rows(d, (k - 1) as nat) + node_row(d, k - 1) }
}

/// The largest value of each column.
pub open spec fn top_cells() -> Seq<i32> {
    seq![24i32, 24, 4, 2, 2, 2, 65535, 65535, 127, 127, 127, 127, 127, 127, 127, 127, 255, 255, 11, 255]
}

/// The head of the table: the column names and the row of largest values.
pub open spec fn inspect_head() -> Seq<u8> {
    "idx,first_child,next_sibling,alignment,visible,direction,framing,width,height,p_n,p_e,p_s,p_w,m_n,m_e,m_s,m_w,color,background,border_idx,font_idx,content".spec_bytes()
        + ",_left,_top,_width,_height,_cleft,_ctop,_cwidth,_cheight".spec_bytes() + "\r\n".spec_bytes()
        + decimal_bytes(24) + cells(top_cells()) + ",\"\"".spec_bytes()
        + cells(seq![32767i32, 32767, 65535, 65535]) + "\r\n".spec_bytes()
}

impl DOM {
    /// Appends the row of node `n_i` to `csv`.
    #[verifier::rlimit(40)]
    fn push_node_row(&self, csv: &mut Vec<u8>, n_i: usize)
        requires
            self.wf(),
            n_i < NODE_MAX,
        ensures
            final(csv)@ == old(csv)@ + node_row(*self, n_i as int),
    {
        let node = self.nodes[n_i];
        let padding = self.paddings[node.plot.padding_idx as usize];
        let margin = self.margins[node.plot.margin_idx as usize];
        let style = self.styles[node.plot.style_idx as usize];
        let alignment: i32 = match node.alignment() {
            Alignment::Start => 0,
            Alignment::Center => 1,
            Alignment::End => 2,
            Alignment::Stretch => 3,
        };
        let visible: i32 = match node.visibility() { Visibility::Hidden => 0, Visibility::Visible => 1 };
        let direction: i32 = match node.direction() { Direction::Horizontal => 0, Direction::Vertical => 1 };
        let framing: i32 = if node.framing() { 1 } else { 0 };
        push_decimal(csv, n_i as u32);
        let row: [i32; 20] = [
            node.first_child as i32, node.next_sibling as i32, alignment, visible, direction, framing,
            node.plot.size.width as i32, node.plot.size.height as i32,
            padding.n as i32, padding.e as i32, padding.s as i32, padding.w as i32,
            margin.n as i32, margin.e as i32, margin.s as i32, margin.w as i32,
            style.color as i32, style.background as i32, style.border_idx as i32, style.font_idx as i32,
        ];
        assert(row@ =~= node_cells(*self, n_i as int));
        push_cells(csv, &row);
        push_str(csv, ",\"");
        if node.plot.content_idx < CONTENT_MAX {
            push_str(csv, self.contents[node.plot.content_idx as usize].as_str());
        }
        push_str(csv, "\"");
        let area = self.positions.areas[n_i].0;
        let sw = crate::dom::calculate::i8_saturating_add(margin.w, padding.w);
        let sn = crate::dom::calculate::i8_saturating_add(margin.n, padding.n);
        let ew = crate::dom::calculate::i8_saturating_add(
            crate::dom::calculate::i8_saturating_add(
                crate::dom::calculate::i8_saturating_add(padding.e, padding.w),
                margin.e,
            ),
            margin.w,
        );
        let ns = crate::dom::calculate::i8_saturating_add(
            crate::dom::calculate::i8_saturating_add(
                crate::dom::calculate::i8_saturating_add(padding.n, padding.s),
                margin.n,
            ),
            margin.s,
        );
        let cw = crate::i16_saturating_sub(area.size.width as i16, ew as i16);
        let ch = crate::i16_saturating_sub(area.size.height as i16, ns as i16);
        let cells: [i32; 8] = [
            area.point.x as i32, area.point.y as i32, area.size.width as i32, area.size.height as i32,
            crate::i16_saturating_add(area.point.x, sw as i16) as i32,
            crate::i16_saturating_add(area.point.y, sn as i16) as i32,
            if cw > 0 { cw as i32 } else { 0 },
            if ch > 0 { ch as i32 } else { 0 },
        ];
        assert(cells@ =~= area_cells(*self, n_i as int));
        push_cells(csv, &cells);
        push_str(csv, "\r\n");
        assert(csv@ =~= old(csv)@ + node_row(*self, n_i as int));
    }

    /// The nodes as a CSV table: links, flags, sizes, paddings, margins,
    /// style, content and the last computed area of each node, after a row
    /// with the largest values of each column.
    #[verifier::rlimit(30)]
    pub fn inspect(&self) -> (r: Vec<u8>)
        requires
            self.wf(),
        ensures
            r@ == inspect_head() + node_rows(*self, NODE_MAX as nat),
    {
        let mut csv: Vec<u8> = Vec::new();
        push_str(&mut csv, "idx,first_child,next_sibling,alignment,visible,direction,framing,width,height,p_n,p_e,p_s,p_w,m_n,m_e,m_s,m_w,color,background,border_idx,font_idx,content");
        push_str(&mut csv, ",_left,_top,_width,_height,_cleft,_ctop,_cwidth,_cheight");
        push_str(&mut csv, "\r\n");
        push_decimal(&mut csv, NODE_MAX as u32);
        let head: [i32; 20] = [
            NODE_MAX as i32, NODE_MAX as i32, 4, 2, 2, 2, 65535, 65535, 127, 127, 127, 127, 127, 127,
            127, 127, 255, 255, BORDER_MAX as i32, FONT_MAX as i32,
        ];
        assert(head@ =~= top_cells());
        push_cells(&mut csv, &head);
        push_str(&mut csv, ",\"\"");
        let tail: [i32; 4] = [32767, 32767, 65535, 65535];
        assert(tail@ =~= seq![32767i32, 32767, 65535, 65535]);
        push_cells(&mut csv, &tail);
        push_str(&mut csv, "\r\n");
        assert(csv@ =~= inspect_head() + node_rows(*self, 0));
        let mut n_i: usize = 0;
        while n_i < NODE_MAX as usize
            invariant
                self.wf(),
                n_i <= NODE_MAX,
                csv@ == inspect_head() + node_rows(*self, n_i as nat),
            decreases NODE_MAX - n_i,
        {
            self.push_node_row(&mut csv, n_i);
            n_i += 1;
        }
        csv
    }
}

} // verus!
