//! DOM nodes: tree links, a packed flag byte and the node's plot.

use vstd::prelude::*;
use crate::{Area, IdIdx, NodeIdx, Point, Size, SizeH, SizeW, AREA_MAX, ID_MAX, NODE_MAX};
use crate::plot::Plot;

pub mod id;
pub mod style;

verus! {

#[derive(PartialEq, Eq, Structural, Copy, Clone)]
pub enum Render {
    Off,
    Flex,
}

#[derive(PartialEq, Eq, Structural, Copy, Clone)]
pub enum Visibility {
    Hidden,
    Visible,
}

#[derive(PartialEq, Eq, Structural, Copy, Clone)]
pub enum Direction {
    Horizontal,
    Vertical,
}

#[derive(PartialEq, Eq, Structural, Copy, Clone)]
pub enum Alignment {
    Start,
    Center,
    End,
    Stretch,
}

pub const FLAGS_RENDER_SHIFT: u8 = 0;
pub const FLAGS_RENDER_MASK: u8 = 0b1;
pub const FLAGS_VISIBILITY_SHIFT: u8 = 1;
pub const FLAGS_VISIBILITY_MASK: u8 = 0b1;
pub const FLAGS_DIRECTION_SHIFT: u8 = 2;
pub const FLAGS_DIRECTION_MASK: u8 = 0b1;
pub const FLAGS_OVERFLOW_SHIFT: u8 = 3;
pub const FLAGS_OVERFLOW_MASK: u8 = 0b1;
pub const FLAGS_ALIGNMENT_SHIFT: u8 = 4;
pub const FLAGS_ALIGNMENT_MASK: u8 = 0b11;
pub const FLAGS_FRAMING_SHIFT: u8 = 6;
pub const FLAGS_FRAMING_MASK: u8 = 0b1;

pub const FLEX_MAX: u8 = 4;

pub const WIDTH_CONTENT: SizeW = 65535;
pub const WIDTH_FLEX: SizeW = 65534;
pub const WIDTH_MAX: SizeW = 65530;

pub const HEIGHT_CONTENT: SizeH = 65535;
pub const HEIGHT_FLEX: SizeH = 65534;
pub const HEIGHT_MAX: SizeH = 65530;

/// The flags of a fresh node: rendered, visible, horizontal, framed.
pub const FLAGS_DEFAULT: u8 = 0b0100_0011;

/// The field of `flags` at `shift` under `mask`.
pub open spec fn flag_field(flags: u8, shift: u8, mask: u8) -> u8 {
    (flags >> shift) & mask
}

/// `flags` with the field at `shift` under `mask` replaced by `v`.
pub open spec fn with_flag_field(flags: u8, shift: u8, mask: u8, v: u8) -> u8 {
    (flags & !(mask << shift)) | ((v & mask) << shift)
}

pub open spec fn render_code(r: Render) -> u8 {
    match r {
        Render::Off => 0,
        Render::Flex => 1,
    }
}

pub open spec fn visibility_code(v: Visibility) -> u8 {
    match v {
        Visibility::Hidden => 0,
        Visibility::Visible => 1,
    }
}

pub open spec fn direction_code(d: Direction) -> u8 {
    match d {
        Direction::Horizontal => 0,
        Direction::Vertical => 1,
    }
}

pub open spec fn alignment_code(a: Alignment) -> u8 {
    match a {
        Alignment::Start => 0,
        Alignment::Center => 1,
        Alignment::End => 2,
        Alignment::Stretch => 3,
    }
}

pub open spec fn alignment_of_code(c: u8) -> Alignment {
    if c == 1 {
        Alignment::Center
    } else if c == 2 {
        Alignment::End
    } else if c == 3 {
        Alignment::Stretch
    } else {
        Alignment::Start
    }
}

#[derive(Copy, Clone)]
pub struct Node {
    pub first_child: NodeIdx,
    pub next_sibling: NodeIdx,
    pub id_idx: IdIdx,
    pub flags: u8,
    pub plot: Plot,
}

impl Node {
    pub open spec fn spec_render(&self) -> Render {
        if flag_field(self.flags, FLAGS_RENDER_SHIFT, FLAGS_RENDER_MASK) == 1 { Render::Flex } else { Render::Off }
    }

    pub open spec fn spec_visibility(&self) -> Visibility {
        if flag_field(self.flags, FLAGS_VISIBILITY_SHIFT, FLAGS_VISIBILITY_MASK) == 1 {
            Visibility::Visible
        } else {
            Visibility::Hidden
        }
    }

    pub open spec fn spec_direction(&self) -> Direction {
        if flag_field(self.flags, FLAGS_DIRECTION_SHIFT, FLAGS_DIRECTION_MASK) == 1 {
            Direction::Vertical
        } else {
            Direction::Horizontal
        }
    }

    pub open spec fn spec_alignment(&self) -> Alignment {
        alignment_of_code(flag_field(self.flags, FLAGS_ALIGNMENT_SHIFT, FLAGS_ALIGNMENT_MASK))
    }

    pub open spec fn spec_framing(&self) -> bool {
        flag_field(self.flags, FLAGS_FRAMING_SHIFT, FLAGS_FRAMING_MASK) == 1
    }

    /// A fresh node: no children, no sibling, no id, default flags and plot.
    pub open spec fn is_fresh(&self) -> bool {
        &&& self.first_child == NODE_MAX
        &&& self.next_sibling == NODE_MAX
        &&& self.id_idx == ID_MAX
        &&& self.flags == FLAGS_DEFAULT
        &&& self.plot.is_fresh()
    }

    pub fn reset(&mut self)
        ensures
            final(self).is_fresh(),
    {
        self.first_child = NODE_MAX;
        self.next_sibling = NODE_MAX;
        self.id_idx = ID_MAX;
        self.flags = FLAGS_DEFAULT;
        self.plot.reset();
    }

    pub fn set_render(&mut self, render: Render)
        ensures
            final(self).flags == with_flag_field(
                old(self).flags,
                FLAGS_RENDER_SHIFT,
                FLAGS_RENDER_MASK,
                render_code(render),
            ),
            final(self).first_child == old(self).first_child,
            final(self).next_sibling == old(self).next_sibling,
            final(self).id_idx == old(self).id_idx,
            final(self).plot == old(self).plot,
    {
        let v: u8 = match render {
            Render::Off => 0,
            Render::Flex => 1,
        };
        self.flags = (self.flags & !(FLAGS_RENDER_MASK << FLAGS_RENDER_SHIFT)) | ((v
            & FLAGS_RENDER_MASK) << FLAGS_RENDER_SHIFT);
    }

    pub fn render(&self) -> (r: Render)
        ensures
            r == self.spec_render(),
    {
        if (self.flags >> FLAGS_RENDER_SHIFT) & FLAGS_RENDER_MASK == FLAGS_RENDER_MASK {
            Render::Flex
        } else {
            Render::Off
        }
    }

    pub fn set_visibility(&mut self, visibility: Visibility)
        ensures
            final(self).flags == with_flag_field(
                old(self).flags,
                FLAGS_VISIBILITY_SHIFT,
                FLAGS_VISIBILITY_MASK,
                visibility_code(visibility),
            ),
            final(self).first_child == old(self).first_child,
            final(self).next_sibling == old(self).next_sibling,
            final(self).id_idx == old(self).id_idx,
            final(self).plot == old(self).plot,
    {
        let v: u8 = match visibility {
            Visibility::Hidden => 0,
            Visibility::Visible => 1,
        };
        self.flags = (self.flags & !(FLAGS_VISIBILITY_MASK << FLAGS_VISIBILITY_SHIFT)) | ((v
            & FLAGS_VISIBILITY_MASK) << FLAGS_VISIBILITY_SHIFT);
    }

    pub fn visibility(&self) -> (r: Visibility)
        ensures
            r == self.spec_visibility(),
    {
        if (self.flags >> FLAGS_VISIBILITY_SHIFT) & FLAGS_VISIBILITY_MASK == FLAGS_VISIBILITY_MASK {
            Visibility::Visible
        } else {
            Visibility::Hidden
        }
    }

    pub fn set_direction(&mut self, direction: Direction)
        ensures
            final(self).flags == with_flag_field(
                old(self).flags,
                FLAGS_DIRECTION_SHIFT,
                FLAGS_DIRECTION_MASK,
                direction_code(direction),
            ),
            final(self).first_child == old(self).first_child,
            final(self).next_sibling == old(self).next_sibling,
            final(self).id_idx == old(self).id_idx,
            final(self).plot == old(self).plot,
    {
        let v: u8 = match direction {
            Direction::Horizontal => 0,
            Direction::Vertical => 1,
        };
        self.flags = (self.flags & !(FLAGS_DIRECTION_MASK << FLAGS_DIRECTION_SHIFT)) | ((v
            & FLAGS_DIRECTION_MASK) << FLAGS_DIRECTION_SHIFT);
    }

    pub fn direction(&self) -> (r: Direction)
        ensures
            r == self.spec_direction(),
    {
        if (self.flags >> FLAGS_DIRECTION_SHIFT) & FLAGS_DIRECTION_MASK == FLAGS_DIRECTION_MASK {
            Direction::Vertical
        } else {
            Direction::Horizontal
        }
    }

    pub fn set_alignment(&mut self, alignment: Alignment)
        ensures
            final(self).flags == with_flag_field(
                old(self).flags,
                FLAGS_ALIGNMENT_SHIFT,
                FLAGS_ALIGNMENT_MASK,
                alignment_code(alignment),
            ),
            final(self).first_child == old(self).first_child,
            final(self).next_sibling == old(self).next_sibling,
            final(self).id_idx == old(self).id_idx,
            final(self).plot == old(self).plot,
    {
        let v: u8 = match alignment {
            Alignment::Start => 0,
            Alignment::Center => 1,
            Alignment::End => 2,
            Alignment::Stretch => 3,
        };
        self.flags = (self.flags & !(FLAGS_ALIGNMENT_MASK << FLAGS_ALIGNMENT_SHIFT)) | ((v
            & FLAGS_ALIGNMENT_MASK) << FLAGS_ALIGNMENT_SHIFT);
    }

    pub fn alignment(&self) -> (r: Alignment)
        ensures
            r == self.spec_alignment(),
    {
        let value = (self.flags >> FLAGS_ALIGNMENT_SHIFT) & FLAGS_ALIGNMENT_MASK;
        if value == 1 {
            Alignment::Center
        } else if value == 2 {
            Alignment::End
        } else if value == 3 {
            Alignment::Stretch
        } else {
            Alignment::Start
        }
    }

    pub fn set_framing(&mut self, state: bool)
        ensures
            final(self).flags == with_flag_field(
                old(self).flags,
                FLAGS_FRAMING_SHIFT,
                FLAGS_FRAMING_MASK,
                if state { 1u8 } else { 0u8 },
            ),
            final(self).first_child == old(self).first_child,
            final(self).next_sibling == old(self).next_sibling,
            final(self).id_idx == old(self).id_idx,
            final(self).plot == old(self).plot,
    {
        let v: u8 = if state { 1 } else { 0 };
        self.flags = (self.flags & !(FLAGS_FRAMING_MASK << FLAGS_FRAMING_SHIFT)) | ((v
            & FLAGS_FRAMING_MASK) << FLAGS_FRAMING_SHIFT);
    }

    pub fn framing(&self) -> (r: bool)
        ensures
            r == self.spec_framing(),
    {
        (self.flags >> FLAGS_FRAMING_SHIFT) & FLAGS_FRAMING_MASK == FLAGS_FRAMING_MASK
    }

    pub fn set_size(&mut self, size: Size)
        ensures
            *final(self) == (Node { plot: Plot { size: size, ..old(self).plot }, ..*old(self) }),
    {
        self.set_width(size.width);
        self.set_height(size.height);
    }

    pub fn set_width(&mut self, width: SizeW)
        ensures
            *final(self) == (Node {
                plot: Plot { size: Size { width: width, ..old(self).plot.size }, ..old(self).plot },
                ..*old(self)
            }),
    {
        self.plot.size.width = width;
    }

    pub fn set_height(&mut self, height: SizeH)
        ensures
            *final(self) == (Node {
                plot: Plot { size: Size { height: height, ..old(self).plot.size }, ..old(self).plot },
                ..*old(self)
            }),
    {
        self.plot.size.height = height;
    }

    /// Flex weights: 0 sizes to content, 1 to 3 take a share of the free
    /// space; other values leave the dimension as it is.
    pub fn set_flex(&mut self, flex_w: u8, flex_h: u8)
        ensures
            final(self).plot.size.width == (if flex_w == 0 {
                WIDTH_CONTENT
            } else if flex_w < FLEX_MAX {
                (WIDTH_FLEX - (flex_w - 1)) as u16
            } else {
                old(self).plot.size.width
            }),
            final(self).plot.size.height == (if flex_h == 0 {
                HEIGHT_CONTENT
            } else if flex_h < FLEX_MAX {
                (HEIGHT_FLEX - (flex_h - 1)) as u16
            } else {
                old(self).plot.size.height
            }),
            final(self).first_child == old(self).first_child,
            final(self).next_sibling == old(self).next_sibling,
            final(self).id_idx == old(self).id_idx,
            final(self).flags == old(self).flags,
            final(self).plot.content_idx == old(self).plot.content_idx,
            final(self).plot.margin_idx == old(self).plot.margin_idx,
            final(self).plot.padding_idx == old(self).plot.padding_idx,
            final(self).plot.style_idx == old(self).plot.style_idx,
    {
        if flex_w == 0 {
            self.plot.size.width = WIDTH_CONTENT;
        } else if flex_w < FLEX_MAX {
            self.plot.size.width = WIDTH_FLEX - (flex_w - 1) as SizeW;
        }
        if flex_h == 0 {
            self.plot.size.height = HEIGHT_CONTENT;
        } else if flex_h < FLEX_MAX {
            self.plot.size.height = HEIGHT_FLEX - (flex_h - 1) as SizeH;
        }
    }
}

impl Default for Node {
    fn default() -> (r: Self)
        ensures
            r.is_fresh(),
    {
        Node {
            first_child: NODE_MAX,
            next_sibling: NODE_MAX,
            id_idx: ID_MAX,
            flags: FLAGS_DEFAULT,
            plot: Plot::default(),
        }
    }
}

/// Reading a flag field gives back what was written into it, and writing
/// one field leaves every other field of the flag byte as it was.
pub proof fn lemma_flag_fields(flags: u8, v: u8)
    ensures
        flag_field(with_flag_field(flags, 0, 1, v), 0, 1) == v & 1,
        flag_field(with_flag_field(flags, 1, 1, v), 1, 1) == v & 1,
        flag_field(with_flag_field(flags, 2, 1, v), 2, 1) == v & 1,
        flag_field(with_flag_field(flags, 4, 3, v), 4, 3) == v & 3,
        flag_field(with_flag_field(flags, 6, 1, v), 6, 1) == v & 1,
        flag_field(with_flag_field(flags, 1, 1, v), 0, 1) == flag_field(flags, 0, 1),
        flag_field(with_flag_field(flags, 2, 1, v), 0, 1) == flag_field(flags, 0, 1),
        flag_field(with_flag_field(flags, 4, 3, v), 0, 1) == flag_field(flags, 0, 1),
        flag_field(with_flag_field(flags, 6, 1, v), 0, 1) == flag_field(flags, 0, 1),
        flag_field(with_flag_field(flags, 0, 1, v), 1, 1) == flag_field(flags, 1, 1),
        flag_field(with_flag_field(flags, 2, 1, v), 1, 1) == flag_field(flags, 1, 1),
        flag_field(with_flag_field(flags, 4, 3, v), 1, 1) == flag_field(flags, 1, 1),
        flag_field(with_flag_field(flags, 6, 1, v), 1, 1) == flag_field(flags, 1, 1),
        flag_field(with_flag_field(flags, 0, 1, v), 2, 1) == flag_field(flags, 2, 1),
        flag_field(with_flag_field(flags, 1, 1, v), 2, 1) == flag_field(flags, 2, 1),
        flag_field(with_flag_field(flags, 4, 3, v), 2, 1) == flag_field(flags, 2, 1),
        flag_field(with_flag_field(flags, 6, 1, v), 2, 1) == flag_field(flags, 2, 1),
        flag_field(with_flag_field(flags, 0, 1, v), 4, 3) == flag_field(flags, 4, 3),
        flag_field(with_flag_field(flags, 1, 1, v), 4, 3) == flag_field(flags, 4, 3),
        flag_field(with_flag_field(flags, 2, 1, v), 4, 3) == flag_field(flags, 4, 3),
        flag_field(with_flag_field(flags, 6, 1, v), 4, 3) == flag_field(flags, 4, 3),
        flag_field(with_flag_field(flags, 0, 1, v), 6, 1) == flag_field(flags, 6, 1),
        flag_field(with_flag_field(flags, 1, 1, v), 6, 1) == flag_field(flags, 6, 1),
        flag_field(with_flag_field(flags, 2, 1, v), 6, 1) == flag_field(flags, 6, 1),
        flag_field(with_flag_field(flags, 4, 3, v), 6, 1) == flag_field(flags, 6, 1),
{
    assert(((((flags & !(1u8 << 0u8)) | ((v & 1) << 0u8)) >> 0u8) & 1) == v & 1) by (bit_vector);
    assert(((((flags & !(1u8 << 1u8)) | ((v & 1) << 1u8)) >> 1u8) & 1) == v & 1) by (bit_vector);
    assert(((((flags & !(1u8 << 2u8)) | ((v & 1) << 2u8)) >> 2u8) & 1) == v & 1) by (bit_vector);
    assert(((((flags & !(3u8 << 4u8)) | ((v & 3) << 4u8)) >> 4u8) & 3) == v & 3) by (bit_vector);
    assert(((((flags & !(1u8 << 6u8)) | ((v & 1) << 6u8)) >> 6u8) & 1) == v & 1) by (bit_vector);
    assert(((((flags & !(1u8 << 1u8)) | ((v & 1) << 1u8)) >> 0u8) & 1) == (flags >> 0u8) & 1) by (bit_vector);
    assert(((((flags & !(1u8 << 2u8)) | ((v & 1) << 2u8)) >> 0u8) & 1) == (flags >> 0u8) & 1) by (bit_vector);
    assert(((((flags & !(3u8 << 4u8)) | ((v & 3) << 4u8)) >> 0u8) & 1) == (flags >> 0u8) & 1) by (bit_vector);
    assert(((((flags & !(1u8 << 6u8)) | ((v & 1) << 6u8)) >> 0u8) & 1) == (flags >> 0u8) & 1) by (bit_vector);
    assert(((((flags & !(1u8 << 0u8)) | ((v & 1) << 0u8)) >> 1u8) & 1) == (flags >> 1u8) & 1) by (bit_vector);
    assert(((((flags & !(1u8 << 2u8)) | ((v & 1) << 2u8)) >> 1u8) & 1) == (flags >> 1u8) & 1) by (bit_vector);
    assert(((((flags & !(3u8 << 4u8)) | ((v & 3) << 4u8)) >> 1u8) & 1) == (flags >> 1u8) & 1) by (bit_vector);
    assert(((((flags & !(1u8 << 6u8)) | ((v & 1) << 6u8)) >> 1u8) & 1) == (flags >> 1u8) & 1) by (bit_vector);
    assert(((((flags & !(1u8 << 0u8)) | ((v & 1) << 0u8)) >> 2u8) & 1) == (flags >> 2u8) & 1) by (bit_vector);
    assert(((((flags & !(1u8 << 1u8)) | ((v & 1) << 1u8)) >> 2u8) & 1) == (flags >> 2u8) & 1) by (bit_vector);
    assert(((((flags & !(3u8 << 4u8)) | ((v & 3) << 4u8)) >> 2u8) & 1) == (flags >> 2u8) & 1) by (bit_vector);
    assert(((((flags & !(1u8 << 6u8)) | ((v & 1) << 6u8)) >> 2u8) & 1) == (flags >> 2u8) & 1) by (bit_vector);
    assert(((((flags & !(1u8 << 0u8)) | ((v & 1) << 0u8)) >> 4u8) & 3) == (flags >> 4u8) & 3) by (bit_vector);
    assert(((((flags & !(1u8 << 1u8)) | ((v & 1) << 1u8)) >> 4u8) & 3) == (flags >> 4u8) & 3) by (bit_vector);
    assert(((((flags & !(1u8 << 2u8)) | ((v & 1) << 2u8)) >> 4u8) & 3) == (flags >> 4u8) & 3) by (bit_vector);
    assert(((((flags & !(1u8 << 6u8)) | ((v & 1) << 6u8)) >> 4u8) & 3) == (flags >> 4u8) & 3) by (bit_vector);
    assert(((((flags & !(1u8 << 0u8)) | ((v & 1) << 0u8)) >> 6u8) & 1) == (flags >> 6u8) & 1) by (bit_vector);
    assert(((((flags & !(1u8 << 1u8)) | ((v & 1) << 1u8)) >> 6u8) & 1) == (flags >> 6u8) & 1) by (bit_vector);
    assert(((((flags & !(1u8 << 2u8)) | ((v & 1) << 2u8)) >> 6u8) & 1) == (flags >> 6u8) & 1) by (bit_vector);
    assert(((((flags & !(3u8 << 4u8)) | ((v & 3) << 4u8)) >> 6u8) & 1) == (flags >> 6u8) & 1) by (bit_vector);
}

/// Reading a property of a node gives back what was last set.
pub proof fn lemma_node_property_roundtrip(n: Node, v: Visibility, d: Direction, a: Alignment, f: bool)
    ensures
        (Node { flags: with_flag_field(n.flags, 1, 1, visibility_code(v)), ..n }).spec_visibility() == v,
        (Node { flags: with_flag_field(n.flags, 2, 1, direction_code(d)), ..n }).spec_direction() == d,
        (Node { flags: with_flag_field(n.flags, 4, 3, alignment_code(a)), ..n }).spec_alignment() == a,
        (Node { flags: with_flag_field(n.flags, 6, 1, if f { 1u8 } else { 0u8 }), ..n }).spec_framing() == f,
{
    lemma_flag_fields(n.flags, visibility_code(v));
    lemma_flag_fields(n.flags, direction_code(d));
    lemma_flag_fields(n.flags, alignment_code(a));
    lemma_flag_fields(n.flags, if f { 1u8 } else { 0u8 });
    assert(1u8 & 1 == 1u8) by (bit_vector);
    assert(0u8 & 1 == 0u8) by (bit_vector);
    assert(2u8 & 3 == 2u8) by (bit_vector);
    assert(3u8 & 3 == 3u8) by (bit_vector);
    assert(1u8 & 3 == 1u8) by (bit_vector);
    assert(0u8 & 3 == 0u8) by (bit_vector);
}

/// Positions computed by a layout pass: the outer area of each node and the
/// size of its content.
pub struct NodePosition {
    pub areas: Vec<(Area, Size)>,
}

/// The areas of a fresh layout: all at the origin, all empty.
pub open spec fn zero_areas() -> Seq<(Area, Size)> {
    Seq::new(
        AREA_MAX as nat,
        |i: int| (Area { point: Point { x: 0, y: 0 }, size: Size { width: 0, height: 0 } }, Size { width: 0, height: 0 }),
    )
}

impl NodePosition {
    pub open spec fn wf(&self) -> bool {
        self.areas@.len() == AREA_MAX as int
    }

    pub open spec fn all_zero(&self) -> bool {
        forall|i: int|
            0 <= i < self.areas@.len() ==> {
                let a = #[trigger] self.areas@[i];
                a.0.point.x == 0 && a.0.point.y == 0 && a.0.size.width == 0 && a.0.size.height == 0
                    && a.1.width == 0 && a.1.height == 0
            }
    }

    pub fn new() -> (r: Self)
        ensures
            r.wf(),
            r.all_zero(),
            r.areas@ == zero_areas(),
    {
        let mut areas: Vec<(Area, Size)> = Vec::new();
        let mut i: usize = 0;
        while i < AREA_MAX as usize
            invariant
                i <= AREA_MAX,
                areas@.len() == i,
                forall|k: int|
                    0 <= k < areas@.len() ==> {
                        let a = #[trigger] areas@[k];
                        a.0.point.x == 0 && a.0.point.y == 0 && a.0.size.width == 0 && a.0.size.height
                            == 0 && a.1.width == 0 && a.1.height == 0
                    },
            decreases AREA_MAX - i,
        {
            areas.push(
                (Area { point: Point { x: 0, y: 0 }, size: Size { width: 0, height: 0 } }, Size { width: 0, height: 0 }),
            );
            i += 1;
        }
        assert(areas@ =~= zero_areas());
        NodePosition { areas }
    }

    pub fn clear(positions: &mut NodePosition)
        requires
            old(positions).wf(),
        ensures
            final(positions).wf(),
            final(positions).all_zero(),
    {
        let mut c_i: usize = 0;
        while c_i < AREA_MAX as usize
            invariant
                c_i <= AREA_MAX,
                positions.wf(),
                forall|k: int|
                    0 <= k < c_i ==> {
                        let a = #[trigger] positions.areas@[k];
                        a.0.point.x == 0 && a.0.point.y == 0 && a.0.size.width == 0 && a.0.size.height
                            == 0 && a.1.width == 0 && a.1.height == 0
                    },
            decreases AREA_MAX - c_i,
        {
            positions.areas.set(
                c_i,
                (Area { point: Point { x: 0, y: 0 }, size: Size { width: 0, height: 0 } }, Size { width: 0, height: 0 }),
            );
            c_i += 1;
        }
    }
}

} // verus!
