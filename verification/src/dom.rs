//! A fixed-capacity DOM: nodes linked by first child and next sibling, with
//! shared tables of contents, ids, paddings, margins and styles that nodes
//! refer to by index.

use vstd::prelude::*;
use crate::{
    BorderIdx, ContentIdx, IdIdx, MarginIdx, NodeIdx, Offset, PaddingIdx, Size, StyleIdx,
    CONTENT_MAX, ID_MAX, MARGIN_INIT, MARGIN_MAX, NODE_MAX, PADDING_INIT, PADDING_MAX, STYLE_INIT,
    STYLE_MAX,
};
use crate::node::{Node, NodePosition, HEIGHT_FLEX, WIDTH_FLEX};
use crate::node::id::Id;
use crate::node::style::Style;
use crate::plot::content::Content;
use vstd::string::StringSliceAdditionalSpecFns;

pub mod calculate;
pub mod page;
pub mod surface;
pub mod view;

use view::{clear_view, dom_view, fresh_node, lemma_reset_view};

verus! {

#[derive(Copy, Clone)]
pub struct Margin {
    pub n: Offset,
    pub e: Offset,
    pub s: Offset,
    pub w: Offset,
}

impl Default for Margin {
    fn default() -> (r: Self)
        ensures
            r.n == 0 && r.e == 0 && r.s == 0 && r.w == 0,
    {
        Margin { n: 0, e: 0, s: 0, w: 0 }
    }
}

impl Margin {
    pub fn reset(&mut self)
        ensures
            final(self).n == 0 && final(self).e == 0 && final(self).s == 0 && final(self).w == 0,
    {
        self.n = 0;
        self.e = 0;
        self.s = 0;
        self.w = 0;
    }
}

#[derive(Copy, Clone)]
pub struct Padding {
    pub n: Offset,
    pub e: Offset,
    pub s: Offset,
    pub w: Offset,
}

impl Default for Padding {
    fn default() -> (r: Self)
        ensures
            r.n == 0 && r.e == 0 && r.s == 0 && r.w == 0,
    {
        Padding { n: 0, e: 0, s: 0, w: 0 }
    }
}

impl Padding {
    pub fn reset(&mut self)
        ensures
            final(self).n == 0 && final(self).e == 0 && final(self).s == 0 && final(self).w == 0,
    {
        self.n = 0;
        self.e = 0;
        self.s = 0;
        self.w = 0;
    }
}

/// The text handed to a node: raw UTF-8 bytes, or a string.
pub enum ContentContainer<'a> {
    Raw { raw: &'a [u8] },
    Str(&'a str),
}

impl<'a> ContentContainer<'a> {
    /// The bytes of the text.
    pub open spec fn bytes(&self) -> Seq<u8> {
        match self {
            ContentContainer::Raw { raw } => raw@,
            ContentContainer::Str(s) => s.spec_bytes(),
        }
    }
}

#[derive(PartialEq, Eq, Structural, Copy, Clone)]
pub enum Ret {
    Success,
    InvalidXML,
    InvalidBin,
    InvalidFormat,
    InvalidSource,
    InvalidProperty,
    InvalidArgument,
    InvalidDOMInstruction,
    InvalidAttributeValue,
    NoAllocFeature,
    AllocFailure,
}

impl Ret {
    /// The number the protocol reports for the code.
    pub fn code(self) -> (r: u8)
        ensures
            r == self.spec_code(),
    {
        match self {
            Ret::Success => 0,
            Ret::InvalidXML => 1,
            Ret::InvalidBin => 2,
            Ret::InvalidFormat => 3,
            Ret::InvalidSource => 4,
            Ret::InvalidProperty => 5,
            Ret::InvalidArgument => 6,
            Ret::InvalidDOMInstruction => 7,
            Ret::InvalidAttributeValue => 8,
            Ret::NoAllocFeature => 12,
            Ret::AllocFailure => 13,
        }
    }

    pub open spec fn spec_code(self) -> u8 {
        match self {
            Ret::Success => 0,
            Ret::InvalidXML => 1,
            Ret::InvalidBin => 2,
            Ret::InvalidFormat => 3,
            Ret::InvalidSource => 4,
            Ret::InvalidProperty => 5,
            Ret::InvalidArgument => 6,
            Ret::InvalidDOMInstruction => 7,
            Ret::InvalidAttributeValue => 8,
            Ret::NoAllocFeature => 12,
            Ret::AllocFailure => 13,
        }
    }
}

/// The node `n` with every link to `idx` moved on to `next`.
pub open spec fn relink(n: Node, idx: NodeIdx, next: NodeIdx) -> Node {
    Node {
        first_child: if n.first_child == idx { next } else { n.first_child },
        next_sibling: if n.next_sibling == idx { next } else { n.next_sibling },
        ..n
    }
}

pub struct DOM {
    pub nodes: Vec<Node>,
    pub positions: NodePosition,
    pub contents: Vec<Content>,
    pub content_idx: ContentIdx,
    pub ids: Vec<Id>,
    pub id_idx: IdIdx,
    pub paddings: Vec<Padding>,
    pub padding_idx: PaddingIdx,
    pub margins: Vec<Margin>,
    pub margin_idx: MarginIdx,
    pub styles: Vec<Style>,
    pub style_idx: StyleIdx,
    pub dummy_node: Node,
}

impl DOM {
    /// The node that indices past the table stand for.
    pub open spec fn spare_node(&self) -> Node {
        self.dummy_node
    }

    /// Whether the table indices of a node stay inside the tables.
    pub open spec fn node_wf(n: Node) -> bool {
        &&& n.plot.padding_idx < PADDING_MAX
        &&& n.plot.margin_idx < MARGIN_MAX
        &&& n.plot.style_idx <= STYLE_MAX
        &&& n.plot.content_idx <= CONTENT_MAX
        &&& n.id_idx <= ID_MAX
    }

    /// The tables have their fixed sizes, the counters of used entries stay
    /// in them, and every node refers to entries inside them.
    pub open spec fn wf(&self) -> bool {
        &&& self.nodes@.len() == NODE_MAX
        &&& self.contents@.len() == CONTENT_MAX
        &&& self.ids@.len() == ID_MAX
        &&& self.paddings@.len() == PADDING_MAX
        &&& self.margins@.len() == MARGIN_MAX
        &&& self.styles@.len() == STYLE_MAX + 1
        &&& self.positions.wf()
        &&& self.content_idx <= CONTENT_MAX
        &&& self.id_idx <= ID_MAX
        &&& 1 <= self.padding_idx <= PADDING_MAX
        &&& 1 <= self.margin_idx <= MARGIN_MAX
        &&& 1 <= self.style_idx <= STYLE_MAX
        &&& forall|i: int| 0 <= i < NODE_MAX ==> Self::node_wf(#[trigger] self.nodes@[i])
    }

    /// The tables have their fixed sizes.
    pub open spec fn sized(&self) -> bool {
        &&& self.nodes@.len() == NODE_MAX
        &&& self.contents@.len() == CONTENT_MAX
        &&& self.ids@.len() == ID_MAX
        &&& self.paddings@.len() == PADDING_MAX
        &&& self.margins@.len() == MARGIN_MAX
        &&& self.styles@.len() == STYLE_MAX + 1
        &&& self.positions.wf()
    }

    /// Everything of the tables but the nodes stays as it was.
    pub open spec fn same_tables(&self, other: &DOM) -> bool {
        &&& self.contents@ == other.contents@
        &&& self.content_idx == other.content_idx
        &&& self.ids@ == other.ids@
        &&& self.id_idx == other.id_idx
        &&& self.paddings@ == other.paddings@
        &&& self.padding_idx == other.padding_idx
        &&& self.margins@ == other.margins@
        &&& self.margin_idx == other.margin_idx
        &&& self.styles@ == other.styles@
        &&& self.style_idx == other.style_idx
        &&& self.positions.areas@ == other.positions.areas@
    }

    /// Everything of the tables but the nodes and the positions stays as it was.
    pub open spec fn same_tables_but_positions(&self, other: &DOM) -> bool {
        &&& self.contents@ == other.contents@
        &&& self.content_idx == other.content_idx
        &&& self.ids@ == other.ids@
        &&& self.id_idx == other.id_idx
        &&& self.paddings@ == other.paddings@
        &&& self.padding_idx == other.padding_idx
        &&& self.margins@ == other.margins@
        &&& self.margin_idx == other.margin_idx
        &&& self.styles@ == other.styles@
        &&& self.style_idx == other.style_idx
    }

    /// The state `reset` leaves: fresh nodes with the root sized to the
    /// screen, zero margins and paddings, default styles, no contents.
    pub open spec fn is_reset(&self) -> bool {
        &&& self.content_idx == 0
        &&& self.padding_idx == PADDING_INIT + 1
        &&& self.margin_idx == MARGIN_INIT + 1
        &&& self.style_idx == STYLE_INIT + 1
        &&& forall|i: int| 1 <= i < NODE_MAX ==> (#[trigger] self.nodes@[i]).is_fresh()
        &&& self.nodes@[0].plot.size == Size { width: WIDTH_FLEX, height: HEIGHT_FLEX }
        &&& (Node { plot: crate::plot::Plot {
            size: Size { width: crate::plot::WIDTH_CONTENT, height: crate::plot::HEIGHT_CONTENT },
            ..self.nodes@[0].plot
        }, ..self.nodes@[0] }).is_fresh()
        &&& forall|i: int| 0 <= i < MARGIN_MAX ==> {
            let m = #[trigger] self.margins@[i];
            m.n == 0 && m.e == 0 && m.s == 0 && m.w == 0
        }
        &&& forall|i: int| 0 <= i < PADDING_MAX ==> {
            let p = #[trigger] self.paddings@[i];
            p.n == 0 && p.e == 0 && p.s == 0 && p.w == 0
        }
        &&& forall|i: int| 0 <= i < STYLE_MAX ==> (#[trigger] self.styles@[i]).is_default()
        &&& forall|i: int| 0 <= i < CONTENT_MAX ==> (#[trigger] self.contents@[i]).raw@.len() == 0
    }

    /// An empty DOM: fresh nodes, default tables.
    pub fn new() -> (r: Self)
        ensures
            r.wf(),
            forall|i: int| 0 <= i < NODE_MAX ==> (#[trigger] r.nodes@[i]).is_fresh(),
            r.spare_node().is_fresh(),
            r.content_idx == 0,
            r.id_idx == 0,
            r.padding_idx == PADDING_INIT + 1,
            r.margin_idx == MARGIN_INIT + 1,
            r.style_idx == STYLE_INIT + 1,
            forall|i: int| 0 <= i <= STYLE_MAX ==> (#[trigger] r.styles@[i]).is_default(),
            forall|i: int| 0 <= i < CONTENT_MAX ==> (#[trigger] r.contents@[i]).raw@.len() == 0,
    {
        let mut nodes: Vec<Node> = Vec::new();
        let mut i: usize = 0;
        while i < NODE_MAX as usize
            invariant
                i <= NODE_MAX,
                nodes@.len() == i,
                forall|k: int| 0 <= k < i ==> (#[trigger] nodes@[k]).is_fresh(),
            decreases NODE_MAX - i,
        {
            nodes.push(Node::default());
            i += 1;
        }
        let mut contents: Vec<Content> = Vec::new();
        let mut i: usize = 0;
        while i < CONTENT_MAX as usize
            invariant
                i <= CONTENT_MAX,
                contents@.len() == i,
                forall|k: int| 0 <= k < i ==> (#[trigger] contents@[k]).raw@.len() == 0,
            decreases CONTENT_MAX - i,
        {
            contents.push(Content::default());
            i += 1;
        }
        let mut ids: Vec<Id> = Vec::new();
        let mut i: usize = 0;
        while i < ID_MAX as usize
            invariant
                i <= ID_MAX,
                ids@.len() == i,
            decreases ID_MAX - i,
        {
            ids.push(Id::default());
            i += 1;
        }
        let mut paddings: Vec<Padding> = Vec::new();
        let mut margins: Vec<Margin> = Vec::new();
        let mut i: usize = 0;
        while i < PADDING_MAX as usize
            invariant
                i <= PADDING_MAX,
                paddings@.len() == i,
                margins@.len() == i,
            decreases PADDING_MAX - i,
        {
            paddings.push(Padding::default());
            margins.push(Margin::default());
            i += 1;
        }
        let mut styles: Vec<Style> = Vec::new();
        let mut i: usize = 0;
        while i <= STYLE_MAX as usize
            invariant
                i <= STYLE_MAX + 1,
                styles@.len() == i,
                forall|k: int| 0 <= k < i ==> (#[trigger] styles@[k]).is_default(),
            decreases STYLE_MAX + 1 - i,
        {
            styles.push(Style::default());
            i += 1;
        }
        DOM {
            nodes,
            positions: NodePosition::new(),
            contents,
            content_idx: 0,
            ids,
            id_idx: 0,
            paddings,
            padding_idx: PADDING_INIT + 1,
            margins,
            margin_idx: MARGIN_INIT + 1,
            styles,
            style_idx: STYLE_INIT + 1,
            dummy_node: Node::default(),
        }
    }

    /// Empties the tables and resets every node; the root is sized to the
    /// screen. Ids are kept.
    pub fn reset(&mut self)
        requires
            old(self).wf(),
        ensures
            final(self).wf(),
            final(self).is_reset(),
            forall|i: int| 0 <= i < NODE_MAX ==> DOM::node_wf(#[trigger] final(self).nodes@[i]),
            final(self).styles@[STYLE_MAX as int] == old(self).styles@[STYLE_MAX as int],
            final(self).ids@ == old(self).ids@,
            final(self).id_idx == old(self).id_idx,
            final(self).positions.areas@ == old(self).positions.areas@,
            final(self).dummy_node == old(self).dummy_node,
    {
        let mut i: usize = 0;
        while i < NODE_MAX as usize
            invariant
                i <= NODE_MAX,
                self.sized(),
                self.ids@ == old(self).ids@,
                self.id_idx == old(self).id_idx,
                old(self).id_idx <= ID_MAX,
                self.positions.areas@ == old(self).positions.areas@,
                self.dummy_node == old(self).dummy_node,
                self.styles@ == old(self).styles@,
                forall|k: int| 0 <= k < i ==> (#[trigger] self.nodes@[k]).is_fresh(),
            decreases NODE_MAX - i,
        {
            let mut n = self.nodes[i];
            n.reset();
            self.nodes.set(i, n);
            i += 1;
        }
        let mut i: usize = 0;
        while i < MARGIN_MAX as usize
            invariant
                i <= MARGIN_MAX,
                self.sized(),
                self.ids@ == old(self).ids@,
                self.id_idx == old(self).id_idx,
                old(self).id_idx <= ID_MAX,
                self.positions.areas@ == old(self).positions.areas@,
                self.dummy_node == old(self).dummy_node,
                self.styles@ == old(self).styles@,
                forall|k: int| 0 <= k < NODE_MAX ==> (#[trigger] self.nodes@[k]).is_fresh(),
                forall|k: int| 0 <= k < i ==> {
                    let m = #[trigger] self.margins@[k];
                    m.n == 0 && m.e == 0 && m.s == 0 && m.w == 0
                },
                forall|k: int| 0 <= k < i ==> {
                    let p = #[trigger] self.paddings@[k];
                    p.n == 0 && p.e == 0 && p.s == 0 && p.w == 0
                },
            decreases MARGIN_MAX - i,
        {
            self.margins.set(i, Margin::default());
            self.paddings.set(i, Padding::default());
            i += 1;
        }
        let mut i: usize = 0;
        while i < STYLE_MAX as usize
            invariant
                i <= STYLE_MAX,
                self.sized(),
                self.ids@ == old(self).ids@,
                self.id_idx == old(self).id_idx,
                old(self).id_idx <= ID_MAX,
                self.positions.areas@ == old(self).positions.areas@,
                self.dummy_node == old(self).dummy_node,
                forall|k: int| 0 <= k < NODE_MAX ==> (#[trigger] self.nodes@[k]).is_fresh(),
                forall|k: int| 0 <= k < MARGIN_MAX ==> {
                    let m = #[trigger] self.margins@[k];
                    m.n == 0 && m.e == 0 && m.s == 0 && m.w == 0
                },
                forall|k: int| 0 <= k < PADDING_MAX ==> {
                    let p = #[trigger] self.paddings@[k];
                    p.n == 0 && p.e == 0 && p.s == 0 && p.w == 0
                },
                self.styles@[STYLE_MAX as int] == old(self).styles@[STYLE_MAX as int],
                forall|k: int| 0 <= k < i ==> (#[trigger] self.styles@[k]).is_default(),
            decreases STYLE_MAX - i,
        {
            self.styles.set(i, Style::default());
            i += 1;
        }
        let mut i: usize = 0;
        while i < CONTENT_MAX as usize
            invariant
                i <= CONTENT_MAX,
                self.sized(),
                self.ids@ == old(self).ids@,
                self.id_idx == old(self).id_idx,
                old(self).id_idx <= ID_MAX,
                self.positions.areas@ == old(self).positions.areas@,
                self.dummy_node == old(self).dummy_node,
                self.styles@[STYLE_MAX as int] == old(self).styles@[STYLE_MAX as int],
                forall|k: int| 0 <= k < STYLE_MAX ==> (#[trigger] self.styles@[k]).is_default(),
                forall|k: int| 0 <= k < NODE_MAX ==> (#[trigger] self.nodes@[k]).is_fresh(),
                forall|k: int| 0 <= k < MARGIN_MAX ==> {
                    let m = #[trigger] self.margins@[k];
                    m.n == 0 && m.e == 0 && m.s == 0 && m.w == 0
                },
                forall|k: int| 0 <= k < PADDING_MAX ==> {
                    let p = #[trigger] self.paddings@[k];
                    p.n == 0 && p.e == 0 && p.s == 0 && p.w == 0
                },
                forall|k: int| 0 <= k < i ==> (#[trigger] self.contents@[k]).raw@.len() == 0,
            decreases CONTENT_MAX - i,
        {
            self.contents.set(i, Content::default());
            i += 1;
        }
        self.content_idx = 0;
        self.padding_idx = PADDING_INIT + 1;
        self.margin_idx = MARGIN_INIT + 1;
        self.style_idx = STYLE_INIT + 1;
        let mut root = self.nodes[0];
        root.plot.size = Size { width: WIDTH_FLEX, height: HEIGHT_FLEX };
        self.nodes.set(0, root);
    }

    /// `reset`, with the root reset as well.
    pub fn clear(&mut self)
        requires
            old(self).wf(),
        ensures
            final(self).wf(),
            forall|i: int| 0 <= i < NODE_MAX ==> (#[trigger] final(self).nodes@[i]).is_fresh(),
            final(self).content_idx == 0,
            final(self).padding_idx == PADDING_INIT + 1,
            final(self).margin_idx == MARGIN_INIT + 1,
            final(self).style_idx == STYLE_INIT + 1,
            forall|i: int| 0 <= i < STYLE_MAX ==> (#[trigger] final(self).styles@[i]).is_default(),
            forall|i: int| 0 <= i < CONTENT_MAX ==> (#[trigger] final(self).contents@[i]).raw@.len() == 0,
            forall|i: int| 0 <= i < MARGIN_MAX ==> {
                let m = #[trigger] final(self).margins@[i];
                m.n == 0 && m.e == 0 && m.s == 0 && m.w == 0
            },
            forall|i: int| 0 <= i < PADDING_MAX ==> {
                let p = #[trigger] final(self).paddings@[i];
                p.n == 0 && p.e == 0 && p.s == 0 && p.w == 0
            },
            final(self).ids@ == old(self).ids@,
            final(self).id_idx == old(self).id_idx,
            final(self).positions.areas@ == old(self).positions.areas@,
            final(self).dummy_node == old(self).dummy_node,
            dom_view(*final(self)) == clear_view(old(self).styles@[STYLE_MAX as int]),
    {
        self.reset();
        proof {
            lemma_reset_view(*self);
        }
        let mut root = self.nodes[0];
        root.reset();
        self.nodes.set(0, root);
        assert(dom_view(*self).nodes =~= clear_view(old(self).styles@[STYLE_MAX as int]).nodes) by {
            assert forall|i: int| 0 <= i < NODE_MAX implies #[trigger] self.nodes@[i] == fresh_node() by {
                assert(self.nodes@[i].is_fresh());
            }
        }
    }

    /// The node `node_idx`; the spare node for indices past the table.
    pub fn node(&self, node_idx: NodeIdx) -> (r: Node)
        requires
            self.wf(),
        ensures
            r == (if node_idx < NODE_MAX { self.nodes@[node_idx as int] } else { self.spare_node() }),
    {
        if node_idx < NODE_MAX {
            self.nodes[node_idx as usize]
        } else {
            self.dummy_node
        }
    }

    /// A reference to the node `node_idx`; the spare node for indices past
    /// the table.
    pub fn node_ref(&self, node_idx: NodeIdx) -> (r: &Node)
        requires
            self.wf(),
        ensures
            *r == (if node_idx < NODE_MAX { self.nodes@[node_idx as int] } else { self.spare_node() }),
    {
        if node_idx < NODE_MAX {
            &self.nodes[node_idx as usize]
        } else {
            &self.dummy_node
        }
    }

    /// Makes `child_idx` the first child of `parent_idx` (`NODE_MAX` for
    /// none); other indices change nothing.
    pub fn set_child(&mut self, parent_idx: NodeIdx, child_idx: NodeIdx)
        requires
            old(self).wf(),
        ensures
            final(self).wf(),
            final(self).same_tables(old(self)),
            final(self).spare_node() == old(self).spare_node(),
            final(self).nodes@ == if parent_idx < NODE_MAX && child_idx <= NODE_MAX {
                old(self).nodes@.update(
                    parent_idx as int,
                    Node { first_child: child_idx, ..old(self).nodes@[parent_idx as int] },
                )
            } else {
                old(self).nodes@
            },
    {
        if parent_idx < NODE_MAX && child_idx <= NODE_MAX {
            let mut n = self.nodes[parent_idx as usize];
            n.first_child = child_idx;
            self.nodes.set(parent_idx as usize, n);
        }
    }

    /// Removes the children of `parent_idx`.
    pub fn remove_child(&mut self, parent_idx: NodeIdx)
        requires
            old(self).wf(),
        ensures
            final(self).wf(),
            final(self).same_tables(old(self)),
            final(self).spare_node() == old(self).spare_node(),
            final(self).nodes@ == if parent_idx < NODE_MAX {
                old(self).nodes@.update(
                    parent_idx as int,
                    Node { first_child: NODE_MAX, ..old(self).nodes@[parent_idx as int] },
                )
            } else {
                old(self).nodes@
            },
    {
        if parent_idx < NODE_MAX {
            let mut n = self.nodes[parent_idx as usize];
            n.first_child = NODE_MAX;
            self.nodes.set(parent_idx as usize, n);
        }
    }

    /// Makes `sibling_idx` the next sibling of `first_idx`.
    pub fn set_sibling(&mut self, first_idx: NodeIdx, sibling_idx: NodeIdx)
        requires
            old(self).wf(),
            first_idx != NODE_MAX,
        ensures
            final(self).wf(),
            final(self).same_tables(old(self)),
            final(self).spare_node() == old(self).spare_node(),
            final(self).nodes@ == if first_idx < NODE_MAX && sibling_idx <= NODE_MAX {
                old(self).nodes@.update(
                    first_idx as int,
                    Node { next_sibling: sibling_idx, ..old(self).nodes@[first_idx as int] },
                )
            } else {
                old(self).nodes@
            },
    {
        if first_idx < NODE_MAX && sibling_idx <= NODE_MAX {
            let mut n = self.nodes[first_idx as usize];
            n.next_sibling = sibling_idx;
            self.nodes.set(first_idx as usize, n);
        }
    }

    /// Detaches the siblings that follow `first_idx`.
    pub fn remove_sibling(&mut self, first_idx: NodeIdx)
        requires
            old(self).wf(),
        ensures
            final(self).wf(),
            final(self).same_tables(old(self)),
            final(self).spare_node() == old(self).spare_node(),
            final(self).nodes@ == if first_idx < NODE_MAX {
                old(self).nodes@.update(
                    first_idx as int,
                    Node { next_sibling: NODE_MAX, ..old(self).nodes@[first_idx as int] },
                )
            } else {
                old(self).nodes@
            },
    {
        if first_idx < NODE_MAX {
            let mut n = self.nodes[first_idx as usize];
            n.next_sibling = NODE_MAX;
            self.nodes.set(first_idx as usize, n);
        }
    }

    /// Unlinks `node_idx` from the tree (links to it move on to its next
    /// sibling) and resets it.
    pub fn remove(&mut self, node_idx: NodeIdx)
        requires
            old(self).wf(),
        ensures
            final(self).wf(),
            final(self).same_tables(old(self)),
            final(self).spare_node() == old(self).spare_node(),
            node_idx >= NODE_MAX ==> final(self).nodes@ == old(self).nodes@,
            node_idx < NODE_MAX ==> final(self).nodes@.len() == NODE_MAX,
            node_idx < NODE_MAX ==> final(self).nodes@[node_idx as int].is_fresh(),
            node_idx < NODE_MAX ==> forall|k: int|
                0 <= k < NODE_MAX && k != node_idx ==> #[trigger] final(self).nodes@[k] == relink(
                    old(self).nodes@[k],
                    node_idx,
                    old(self).nodes@[node_idx as int].next_sibling,
                ),
            node_idx < NODE_MAX && old(self).nodes@[node_idx as int].next_sibling != node_idx ==> forall|k: int|
                0 <= k < NODE_MAX ==> #[trigger] final(self).nodes@[k].first_child != node_idx
                    && final(self).nodes@[k].next_sibling != node_idx,
    {
        if node_idx < NODE_MAX {
            let next = self.nodes[node_idx as usize].next_sibling;
            let mut i: usize = 0;
            while i < NODE_MAX as usize
                invariant
                    old(self).wf(),
                    self.wf(),
                    self.same_tables(old(self)),
                    self.spare_node() == old(self).spare_node(),
                    i <= NODE_MAX,
                    node_idx < NODE_MAX,
                    next == old(self).nodes@[node_idx as int].next_sibling,
                    forall|k: int| 0 <= k < i ==> #[trigger] self.nodes@[k] == relink(old(self).nodes@[k], node_idx, next),
                    forall|k: int| i <= k < NODE_MAX ==> #[trigger] self.nodes@[k] == old(self).nodes@[k],
                decreases NODE_MAX - i,
            {
                let mut n = self.nodes[i];
                if n.first_child == node_idx {
                    n.first_child = next;
                }
                if n.next_sibling == node_idx {
                    n.next_sibling = next;
                }
                self.nodes.set(i, n);
                i += 1;
            }
            let mut n = self.nodes[node_idx as usize];
            n.reset();
            self.nodes.set(node_idx as usize, n);
        }
    }

    /// Sets the padding of `node_idx`, taking a new padding entry where the
    /// node has none yet; changes nothing where the table is full.
    pub fn set_padding(&mut self, node_idx: NodeIdx, values: [Offset; 4])
        requires
            old(self).wf(),
        ensures
            final(self).wf(),
            final(self).ids@ == old(self).ids@,
            final(self).id_idx == old(self).id_idx,
            final(self).positions.areas@ == old(self).positions.areas@,
            final(self).dummy_node == old(self).dummy_node,
            final(self).spare_node() == old(self).spare_node(),
            final(self).contents@ == old(self).contents@,
            final(self).margins@ == old(self).margins@,
            final(self).styles@ == old(self).styles@,
            final(self).content_idx == old(self).content_idx,
            final(self).margin_idx == old(self).margin_idx,
            final(self).style_idx == old(self).style_idx,
            ({
                let o = *old(self);
                let f = *final(self);
                if node_idx >= NODE_MAX || (o.nodes@[node_idx as int].plot.padding_idx == 0
                    && o.padding_idx >= PADDING_MAX) {
                    f.nodes@ == o.nodes@ && f.paddings@ == o.paddings@ && f.padding_idx == o.padding_idx
                } else {
                    let p_i = if o.nodes@[node_idx as int].plot.padding_idx == 0 {
                        o.padding_idx
                    } else {
                        o.nodes@[node_idx as int].plot.padding_idx
                    };
                    &&& f.padding_idx == if o.nodes@[node_idx as int].plot.padding_idx == 0 {
                        (o.padding_idx + 1) as u8
                    } else {
                        o.padding_idx
                    }
                    &&& f.nodes@ == o.nodes@.update(
                        node_idx as int,
                        Node {
                            plot: crate::plot::Plot { padding_idx: p_i, ..o.nodes@[node_idx as int].plot },
                            ..o.nodes@[node_idx as int]
                        },
                    )
                    &&& f.paddings@ == o.paddings@.update(
                        p_i as int,
                        Padding { n: values[0], e: values[1], s: values[2], w: values[3] },
                    )
                }
            }),
    {
        if node_idx >= NODE_MAX {
            return;
        }
        let mut node = self.nodes[node_idx as usize];
        let mut p_i = node.plot.padding_idx;
        if p_i == 0 {
            if self.padding_idx >= PADDING_MAX {
                return;
            }
            p_i = self.padding_idx;
            self.padding_idx += 1;
            node.plot.padding_idx = p_i;
            self.nodes.set(node_idx as usize, node);
        }
        self.paddings.set(p_i as usize, Padding { n: values[0], e: values[1], s: values[2], w: values[3] });
    }

    /// Sets the margin of `node_idx`, taking a new margin entry where the
    /// node has none yet.
    pub fn set_margin(&mut self, node_idx: NodeIdx, values: [Offset; 4])
        requires
            old(self).wf(),
            node_idx < NODE_MAX && old(self).nodes@[node_idx as int].plot.margin_idx == 0
                ==> old(self).margin_idx < MARGIN_MAX,
        ensures
            final(self).wf(),
            final(self).ids@ == old(self).ids@,
            final(self).id_idx == old(self).id_idx,
            final(self).positions.areas@ == old(self).positions.areas@,
            final(self).dummy_node == old(self).dummy_node,
            final(self).spare_node() == old(self).spare_node(),
            final(self).contents@ == old(self).contents@,
            final(self).paddings@ == old(self).paddings@,
            final(self).styles@ == old(self).styles@,
            final(self).content_idx == old(self).content_idx,
            final(self).padding_idx == old(self).padding_idx,
            final(self).style_idx == old(self).style_idx,
            ({
                let o = *old(self);
                let f = *final(self);
                if node_idx >= NODE_MAX {
                    f.nodes@ == o.nodes@ && f.margins@ == o.margins@ && f.margin_idx == o.margin_idx
                } else {
                    let m_i = if o.nodes@[node_idx as int].plot.margin_idx == 0 {
                        o.margin_idx
                    } else {
                        o.nodes@[node_idx as int].plot.margin_idx
                    };
                    &&& f.margin_idx == if o.nodes@[node_idx as int].plot.margin_idx == 0 {
                        (o.margin_idx + 1) as u8
                    } else {
                        o.margin_idx
                    }
                    &&& f.nodes@ == o.nodes@.update(
                        node_idx as int,
                        Node {
                            plot: crate::plot::Plot { margin_idx: m_i, ..o.nodes@[node_idx as int].plot },
                            ..o.nodes@[node_idx as int]
                        },
                    )
                    &&& f.margins@ == o.margins@.update(
                        m_i as int,
                        Margin { n: values[0], e: values[1], s: values[2], w: values[3] },
                    )
                }
            }),
    {
        if node_idx >= NODE_MAX {
            return;
        }
        let mut node = self.nodes[node_idx as usize];
        let mut m_i = node.plot.margin_idx;
        if m_i == 0 {
            m_i = self.margin_idx;
            self.margin_idx += 1;
            node.plot.margin_idx = m_i;
            self.nodes.set(node_idx as usize, node);
        }
        self.margins.set(m_i as usize, Margin { n: values[0], e: values[1], s: values[2], w: values[3] });
    }

    /// Sets the border of `node_idx`, taking a new style entry where the node
    /// has none yet; changes nothing where the style table is full.
    pub fn set_border(&mut self, node_idx: NodeIdx, border_idx: BorderIdx)
        requires
            old(self).wf(),
        ensures
            final(self).wf(),
            final(self).spare_node() == old(self).spare_node(),
            final(self).contents@ == old(self).contents@,
            final(self).paddings@ == old(self).paddings@,
            final(self).margins@ == old(self).margins@,
            final(self).content_idx == old(self).content_idx,
            final(self).padding_idx == old(self).padding_idx,
            final(self).margin_idx == old(self).margin_idx,
            ({
                let o = *old(self);
                let f = *final(self);
                if node_idx >= NODE_MAX || (o.nodes@[node_idx as int].plot.style_idx == STYLE_INIT
                    && o.style_idx >= STYLE_MAX) {
                    f.nodes@ == o.nodes@ && f.styles@ == o.styles@ && f.style_idx == o.style_idx
                } else {
                    let s_i = if o.nodes@[node_idx as int].plot.style_idx == STYLE_INIT {
                        (o.style_idx + 1) as u8
                    } else {
                        o.nodes@[node_idx as int].plot.style_idx
                    };
                    &&& f.style_idx == if o.nodes@[node_idx as int].plot.style_idx == STYLE_INIT {
                        (o.style_idx + 1) as u8
                    } else {
                        o.style_idx
                    }
                    &&& f.nodes@ == o.nodes@.update(
                        node_idx as int,
                        Node {
                            plot: crate::plot::Plot { style_idx: s_i, ..o.nodes@[node_idx as int].plot },
                            ..o.nodes@[node_idx as int]
                        },
                    )
                    &&& f.styles@ == o.styles@.update(
                        s_i as int,
                        Style { border_idx: border_idx, ..o.styles@[s_i as int] },
                    )
                }
            }),
    {
        if node_idx >= NODE_MAX {
            return;
        }
        let mut node = self.nodes[node_idx as usize];
        if node.plot.style_idx == STYLE_INIT {
            if self.style_idx >= STYLE_MAX {
                return;
            }
            self.style_idx += 1;
            node.plot.style_idx = self.style_idx;
            self.nodes.set(node_idx as usize, node);
        }
        let s_i = node.plot.style_idx as usize;
        let mut style = self.styles[s_i];
        style.border_idx = border_idx;
        self.styles.set(s_i, style);
    }

    /// Gives `node_idx` the text `value`, taking a new content entry where
    /// the node has none yet, and drops its children.
    pub fn set_content(&mut self, node_idx: NodeIdx, value: ContentContainer)
        requires
            old(self).wf(),
            node_idx < NODE_MAX && old(self).nodes@[node_idx as int].plot.content_idx == CONTENT_MAX
                ==> old(self).content_idx < CONTENT_MAX,
        ensures
            final(self).wf(),
            final(self).ids@ == old(self).ids@,
            final(self).id_idx == old(self).id_idx,
            final(self).positions.areas@ == old(self).positions.areas@,
            final(self).dummy_node == old(self).dummy_node,
            final(self).spare_node() == old(self).spare_node(),
            final(self).paddings@ == old(self).paddings@,
            final(self).margins@ == old(self).margins@,
            final(self).styles@ == old(self).styles@,
            final(self).padding_idx == old(self).padding_idx,
            final(self).margin_idx == old(self).margin_idx,
            final(self).style_idx == old(self).style_idx,
            ({
                let o = *old(self);
                let f = *final(self);
                if node_idx >= NODE_MAX {
                    f.nodes@ == o.nodes@ && f.contents@ == o.contents@ && f.content_idx == o.content_idx
                } else {
                    let c_i = if o.nodes@[node_idx as int].plot.content_idx == CONTENT_MAX {
                        o.content_idx
                    } else {
                        o.nodes@[node_idx as int].plot.content_idx
                    };
                    &&& f.content_idx == if o.nodes@[node_idx as int].plot.content_idx == CONTENT_MAX {
                        (o.content_idx + 1) as u8
                    } else {
                        o.content_idx
                    }
                    &&& f.nodes@ == o.nodes@.update(
                        node_idx as int,
                        Node {
                            first_child: NODE_MAX,
                            plot: crate::plot::Plot { content_idx: c_i, ..o.nodes@[node_idx as int].plot },
                            ..o.nodes@[node_idx as int]
                        },
                    )
                    &&& f.contents@.len() == CONTENT_MAX
                    &&& f.contents@[c_i as int].raw@ == value.bytes()
                    &&& forall|k: int| 0 <= k < CONTENT_MAX && k != c_i ==> #[trigger] f.contents@[k] == o.contents@[k]
                }
            }),
    {
        if node_idx >= NODE_MAX {
            return;
        }
        let mut node = self.nodes[node_idx as usize];
        let mut c_i = node.plot.content_idx;
        if c_i == CONTENT_MAX {
            c_i = self.content_idx;
            self.content_idx += 1;
            node.plot.content_idx = c_i;
        }
        let bytes: &[u8] = match value {
            ContentContainer::Raw { raw } => raw,
            ContentContainer::Str(s) => s.as_bytes(),
        };
        self.contents.set(c_i as usize, Content { raw: crate::media::copy_all(bytes) });
        node.first_child = NODE_MAX;
        self.nodes.set(node_idx as usize, node);
    }

    /// Gives `node_idx` the id `raw`, taking a new id entry where the node has
    /// none yet.
    pub fn set_id(&mut self, node_idx: NodeIdx, raw: &[u8])
        requires
            old(self).wf(),
            node_idx < NODE_MAX && old(self).nodes@[node_idx as int].id_idx == ID_MAX
                ==> old(self).id_idx < ID_MAX,
        ensures
            final(self).wf(),
            final(self).spare_node() == old(self).spare_node(),
            final(self).contents@ == old(self).contents@,
            final(self).paddings@ == old(self).paddings@,
            final(self).margins@ == old(self).margins@,
            final(self).styles@ == old(self).styles@,
            ({
                let o = *old(self);
                let f = *final(self);
                if node_idx >= NODE_MAX {
                    f.nodes@ == o.nodes@ && f.ids@ == o.ids@ && f.id_idx == o.id_idx
                } else {
                    let i_i = if o.nodes@[node_idx as int].id_idx == ID_MAX {
                        o.id_idx
                    } else {
                        o.nodes@[node_idx as int].id_idx
                    };
                    &&& f.id_idx == if o.nodes@[node_idx as int].id_idx == ID_MAX {
                        (o.id_idx + 1) as u8
                    } else {
                        o.id_idx
                    }
                    &&& f.nodes@ == o.nodes@.update(
                        node_idx as int,
                        Node { id_idx: i_i, ..o.nodes@[node_idx as int] },
                    )
                    &&& f.ids@.len() == ID_MAX
                    &&& f.ids@[i_i as int].raw@ == raw@
                    &&& forall|k: int| 0 <= k < ID_MAX && k != i_i ==> #[trigger] f.ids@[k] == o.ids@[k]
                }
            }),
    {
        if node_idx >= NODE_MAX {
            return;
        }
        let mut node = self.nodes[node_idx as usize];
        let mut i_i = node.id_idx;
        if i_i == ID_MAX {
            i_i = self.id_idx;
            self.id_idx += 1;
            node.id_idx = i_i;
            self.nodes.set(node_idx as usize, node);
        }
        self.ids.set(i_i as usize, Id { raw: crate::media::copy_all(raw) });
    }

    /// The index of the style of `node_idx`, taking a new style entry where
    /// the node has none yet; the spare last entry where the index is past
    /// the table or the styles are used up.
    pub fn request_style_idx(&mut self, node_idx: NodeIdx) -> (r: usize)
        requires
            old(self).wf(),
        ensures
            final(self).wf(),
            final(self).ids@ == old(self).ids@,
            final(self).id_idx == old(self).id_idx,
            final(self).positions.areas@ == old(self).positions.areas@,
            final(self).dummy_node == old(self).dummy_node,
            r <= STYLE_MAX,
            final(self).spare_node() == old(self).spare_node(),
            final(self).contents@ == old(self).contents@,
            final(self).paddings@ == old(self).paddings@,
            final(self).margins@ == old(self).margins@,
            final(self).styles@ == old(self).styles@,
            final(self).content_idx == old(self).content_idx,
            final(self).padding_idx == old(self).padding_idx,
            final(self).margin_idx == old(self).margin_idx,
            ({
                let o = *old(self);
                let f = *final(self);
                if node_idx >= NODE_MAX || (o.nodes@[node_idx as int].plot.style_idx == STYLE_INIT
                    && o.style_idx >= STYLE_MAX) {
                    r == STYLE_MAX && f.nodes@ == o.nodes@ && f.style_idx == o.style_idx
                } else if o.nodes@[node_idx as int].plot.style_idx == STYLE_INIT {
                    &&& r == o.style_idx
                    &&& f.style_idx == o.style_idx + 1
                    &&& f.nodes@ == o.nodes@.update(
                        node_idx as int,
                        Node {
                            plot: crate::plot::Plot { style_idx: o.style_idx, ..o.nodes@[node_idx as int].plot },
                            ..o.nodes@[node_idx as int]
                        },
                    )
                } else {
                    r == o.nodes@[node_idx as int].plot.style_idx && f.nodes@ == o.nodes@
                        && f.style_idx == o.style_idx
                }
            }),
    {
        if node_idx >= NODE_MAX {
            return STYLE_MAX as usize;
        }
        let mut node = self.nodes[node_idx as usize];
        if node.plot.style_idx == STYLE_INIT {
            if self.style_idx >= STYLE_MAX {
                return STYLE_MAX as usize;
            }
            node.plot.style_idx = self.style_idx;
            self.style_idx += 1;
            self.nodes.set(node_idx as usize, node);
        }
        node.plot.style_idx as usize
    }
}


/// The style entry that `request_style` hands out for `node_idx`.
pub open spec fn style_slot(d: DOM, node_idx: NodeIdx) -> int {
    if node_idx >= NODE_MAX || (d.nodes@[node_idx as int].plot.style_idx == STYLE_INIT
        && d.style_idx >= STYLE_MAX) {
        STYLE_MAX as int
    } else if d.nodes@[node_idx as int].plot.style_idx == STYLE_INIT {
        d.style_idx as int
    } else {
        d.nodes@[node_idx as int].plot.style_idx as int
    }
}

impl DOM {
    /// The style of `node_idx` to change, taking a new style entry where the
    /// node has none yet; the spare last entry where the index is past the
    /// table or the styles are used up.
    pub fn request_style(&mut self, node_idx: NodeIdx) -> (r: &mut Style)
        requires
            old(self).wf(),
        ensures
            final(self).wf(),
            final(self).ids@ == old(self).ids@,
            final(self).id_idx == old(self).id_idx,
            final(self).positions.areas@ == old(self).positions.areas@,
            final(self).dummy_node == old(self).dummy_node,
            *r == old(self).styles@[style_slot(*old(self), node_idx)],
            final(self).styles@ == old(self).styles@.update(style_slot(*old(self), node_idx), *final(r)),
            final(self).spare_node() == old(self).spare_node(),
            final(self).contents@ == old(self).contents@,
            final(self).paddings@ == old(self).paddings@,
            final(self).margins@ == old(self).margins@,
            final(self).content_idx == old(self).content_idx,
            final(self).padding_idx == old(self).padding_idx,
            final(self).margin_idx == old(self).margin_idx,
            ({
                let o = *old(self);
                let f = *final(self);
                if node_idx < NODE_MAX && o.nodes@[node_idx as int].plot.style_idx == STYLE_INIT
                    && o.style_idx < STYLE_MAX {
                    &&& f.style_idx == o.style_idx + 1
                    &&& f.nodes@ == o.nodes@.update(
                        node_idx as int,
                        Node {
                            plot: crate::plot::Plot { style_idx: o.style_idx, ..o.nodes@[node_idx as int].plot },
                            ..o.nodes@[node_idx as int]
                        },
                    )
                } else {
                    f.nodes@ == o.nodes@ && f.style_idx == o.style_idx
                }
            }),
    {
        let i = self.request_style_idx(node_idx);
        &mut self.styles[i]
    }

    /// The node `node_idx` to change; the spare node for indices past the
    /// table.
    pub fn node_ref_mut(&mut self, node_idx: NodeIdx) -> (r: &mut Node)
        requires
            old(self).wf(),
        ensures
            final(self).same_tables(old(self)),
            node_idx < NODE_MAX ==> *r == old(self).nodes@[node_idx as int]
                && final(self).nodes@ == old(self).nodes@.update(node_idx as int, *final(r))
                && final(self).dummy_node == old(self).dummy_node,
            node_idx >= NODE_MAX ==> *r == old(self).dummy_node
                && final(self).nodes@ == old(self).nodes@
                && final(self).dummy_node == *final(r),
    {
        if node_idx < NODE_MAX {
            &mut self.nodes[node_idx as usize]
        } else {
            &mut self.dummy_node
        }
    }
}

} // verus!
