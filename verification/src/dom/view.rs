//! What building a page makes of a DOM, as plain values: the node table, the
//! texts and the tables of paddings, margins and styles with their next free
//! entries; and the edits that build it.

use vstd::prelude::*;
use crate::{
    Size, BORDER_MAX, CONTENT_MAX, FONT_MAX, ID_MAX, MARGIN_INIT, NODE_MAX, PADDING_INIT,
    PADDING_MAX, STYLE_INIT, STYLE_MAX,
};
use crate::node::{Node, FLAGS_DEFAULT, HEIGHT_FLEX, WIDTH_FLEX};
use crate::node::style::Style;
use crate::plot::{Plot, HEIGHT_CONTENT, WIDTH_CONTENT};
use super::{Margin, Padding, DOM};

verus! {

/// The tables of a DOM that a page fills, as plain values.
pub struct DomView {
    pub nodes: Seq<Node>,
    pub contents: Seq<Seq<u8>>,
    pub paddings: Seq<Padding>,
    pub margins: Seq<Margin>,
    pub styles: Seq<Style>,
    pub content_idx: u8,
    pub padding_idx: u8,
    pub margin_idx: u8,
    pub style_idx: u8,
}

/// The view of a DOM.
pub open spec fn dom_view(d: DOM) -> DomView {
    DomView {
        nodes: d.nodes@,
        contents: Seq::new(d.contents@.len(), |i: int| d.contents@[i].raw@),
        paddings: d.paddings@,
        margins: d.margins@,
        styles: d.styles@,
        content_idx: d.content_idx,
        padding_idx: d.padding_idx,
        margin_idx: d.margin_idx,
        style_idx: d.style_idx,
    }
}

/// A node of no content, children, siblings or id, with the default flags,
/// the shared zero margin, padding and style, sized to its content.
pub open spec fn fresh_node() -> Node {
    Node {
        first_child: NODE_MAX,
        next_sibling: NODE_MAX,
        id_idx: ID_MAX,
        flags: FLAGS_DEFAULT,
        plot: Plot {
            content_idx: CONTENT_MAX,
            margin_idx: MARGIN_INIT,
            padding_idx: PADDING_INIT,
            style_idx: STYLE_INIT,
            size: Size { width: WIDTH_CONTENT, height: HEIGHT_CONTENT },
        },
    }
}

/// The default style: foreground 1, no background, no border, the inherited
/// font.
pub open spec fn default_style() -> Style {
    Style { color: 1, background: 255, border_idx: BORDER_MAX, font_idx: FONT_MAX }
}

/// A DOM just reset: fresh nodes, the root sized `flex`; empty texts; zero
/// paddings and margins; default styles but the spare last one, which stays
/// `spare`.
pub open spec fn reset_view(spare: Style) -> DomView {
    let fresh = fresh_node();
    let root = Node { plot: Plot { size: Size { width: WIDTH_FLEX, height: HEIGHT_FLEX }, ..fresh.plot }, ..fresh };
    DomView {
        nodes: Seq::new(NODE_MAX as nat, |i: int| if i == 0 { root } else { fresh }),
        contents: Seq::new(CONTENT_MAX as nat, |i: int| Seq::<u8>::empty()),
        paddings: Seq::new(PADDING_MAX as nat, |i: int| Padding { n: 0, e: 0, s: 0, w: 0 }),
        margins: Seq::new(crate::MARGIN_MAX as nat, |i: int| Margin { n: 0, e: 0, s: 0, w: 0 }),
        styles: Seq::new((STYLE_MAX + 1) as nat, |i: int| if i < STYLE_MAX { default_style() } else { spare }),
        content_idx: 0,
        padding_idx: (PADDING_INIT + 1) as u8,
        margin_idx: (MARGIN_INIT + 1) as u8,
        style_idx: (STYLE_INIT + 1) as u8,
    }
}

/// A reset DOM has the view `reset_view` of its spare style.
pub proof fn lemma_reset_view(d: DOM)
    requires
        d.sized(),
        d.is_reset(),
    ensures
        dom_view(d) == reset_view(d.styles@[STYLE_MAX as int]),
{
    let v = dom_view(d);
    let r = reset_view(d.styles@[STYLE_MAX as int]);
    assert(v.nodes =~= r.nodes) by {
        assert forall|i: int| 0 <= i < NODE_MAX implies v.nodes[i] == r.nodes[i] by {
            if i == 0 {
                assert(d.nodes@[0].plot.size == Size { width: WIDTH_FLEX, height: HEIGHT_FLEX });
            } else {
                assert(d.nodes@[i].is_fresh());
            }
        }
    }
    assert(v.contents =~= r.contents) by {
        assert forall|i: int| 0 <= i < CONTENT_MAX implies v.contents[i] == r.contents[i] by {
            assert(d.contents@[i].raw@.len() == 0);
            assert(d.contents@[i].raw@ =~= Seq::<u8>::empty());
        }
    }
    assert(v.paddings =~= r.paddings) by {
        assert forall|i: int| 0 <= i < PADDING_MAX implies v.paddings[i] == r.paddings[i] by {
            let p = d.paddings@[i];
            assert(p.n == 0 && p.e == 0 && p.s == 0 && p.w == 0);
        }
    }
    assert(v.margins =~= r.margins) by {
        assert forall|i: int| 0 <= i < crate::MARGIN_MAX implies v.margins[i] == r.margins[i] by {
            let m = d.margins@[i];
            assert(m.n == 0 && m.e == 0 && m.s == 0 && m.w == 0);
        }
    }
    assert(v.styles =~= r.styles) by {
        assert forall|i: int| 0 <= i < STYLE_MAX + 1 implies v.styles[i] == r.styles[i] by {
            if i < STYLE_MAX {
                assert(d.styles@[i].is_default());
            }
        }
    }
}

/// A DOM just cleared: as just reset, the root sized to its content too.
pub open spec fn clear_view(spare: Style) -> DomView {
    DomView { nodes: Seq::new(NODE_MAX as nat, |i: int| fresh_node()), ..reset_view(spare) }
}

/// Node `n` replaced by `node`.
pub open spec fn with_node(v: DomView, n: int, node: Node) -> DomView {
    DomView { nodes: v.nodes.update(n, node), ..v }
}

/// Node `n` takes the text `bytes`, in a new text entry where it has none
/// yet, and loses its children.
pub open spec fn with_content(v: DomView, n: int, bytes: Seq<u8>) -> DomView {
    let node = v.nodes[n];
    let fresh = node.plot.content_idx == CONTENT_MAX;
    let c_i = if fresh { v.content_idx } else { node.plot.content_idx };
    DomView {
        content_idx: if fresh { (v.content_idx + 1) as u8 } else { v.content_idx },
        nodes: v.nodes.update(n, Node { first_child: NODE_MAX, plot: Plot { content_idx: c_i, ..node.plot }, ..node }),
        contents: v.contents.update(c_i as int, bytes),
        ..v
    }
}

/// Node `n` takes the margin `m`, in a new margin entry where it has none
/// yet.
pub open spec fn with_margin(v: DomView, n: int, m: Margin) -> DomView {
    let node = v.nodes[n];
    let fresh = node.plot.margin_idx == 0;
    let m_i = if fresh { v.margin_idx } else { node.plot.margin_idx };
    DomView {
        margin_idx: if fresh { (v.margin_idx + 1) as u8 } else { v.margin_idx },
        nodes: v.nodes.update(n, Node { plot: Plot { margin_idx: m_i, ..node.plot }, ..node }),
        margins: v.margins.update(m_i as int, m),
        ..v
    }
}

/// Node `n` takes the padding `p`, in a new padding entry where it has none
/// yet; nothing changes where the table is full.
pub open spec fn with_padding(v: DomView, n: int, p: Padding) -> DomView {
    let node = v.nodes[n];
    let fresh = node.plot.padding_idx == 0;
    if fresh && v.padding_idx >= PADDING_MAX {
        v
    } else {
        let p_i = if fresh { v.padding_idx } else { node.plot.padding_idx };
        DomView {
            padding_idx: if fresh { (v.padding_idx + 1) as u8 } else { v.padding_idx },
            nodes: v.nodes.update(n, Node { plot: Plot { padding_idx: p_i, ..node.plot }, ..node }),
            paddings: v.paddings.update(p_i as int, p),
            ..v
        }
    }
}

/// The style entry that node `n` has, or takes: the next free one where it
/// has none yet, the spare last one where none is free.
pub open spec fn style_slot_view(v: DomView, n: int) -> int {
    if v.nodes[n].plot.style_idx == STYLE_INIT {
        if v.style_idx >= STYLE_MAX { STYLE_MAX as int } else { v.style_idx as int }
    } else {
        v.nodes[n].plot.style_idx as int
    }
}

/// The style of node `n` (its entry taken as `style_slot_view` says)
/// replaced by `s`.
pub open spec fn with_style(v: DomView, n: int, s: Style) -> DomView {
    let node = v.nodes[n];
    let slot = style_slot_view(v, n);
    if node.plot.style_idx == STYLE_INIT && v.style_idx < STYLE_MAX {
        DomView {
            style_idx: (v.style_idx + 1) as u8,
            nodes: v.nodes.update(n, Node { plot: Plot { style_idx: v.style_idx, ..node.plot }, ..node }),
            styles: v.styles.update(slot, s),
            ..v
        }
    } else {
        DomView { styles: v.styles.update(slot, s), ..v }
    }
}

/// The style that node `n` would be edited from.
pub open spec fn style_of(v: DomView, n: int) -> Style {
    v.styles[style_slot_view(v, n)]
}

} // verus!
