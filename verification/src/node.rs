//! Layoutable nodes.
//!
//! A packed node is a content node whose own measurement is already
//! resolved: laying it out yields a fixed sequence of frames, one per region
//! it wants to consume. Beside its body, a node exposes the placement
//! capabilities a flow parent honors: a vertical alignment, and whether the
//! node floats out of flow.

use vstd::prelude::*;
use crate::embed::{Embed, EmbedV};
use crate::frame::{Element, ElementV, Frame, FrameItem, FrameItemV, FrameV, plain_frame, embedding_frame};
use crate::geom::{Align, Point, Size};

verus! {

/// What a node produces when laid out.
pub enum NodeBody {
    /// One frame of exactly the given size.
    Sized(Size),
    /// One frame per entry, consuming one region each.
    Multi(Vec<Size>),
    /// A zero-size frame carrying an embedded file.
    Embed(Embed),
}

pub ghost enum NodeBodyV {
    Sized(Size),
    Multi(Seq<Size>),
    Embed(EmbedV),
}

impl View for NodeBody {
    type V = NodeBodyV;

    open spec fn view(&self) -> NodeBodyV {
        match self {
            NodeBody::Sized(s) => NodeBodyV::Sized(*s),
            NodeBody::Multi(v) => NodeBodyV::Multi(v@),
            NodeBody::Embed(e) => NodeBodyV::Embed(e@),
        }
    }
}

/// A layoutable node with its placement capabilities.
pub struct PackedNode {
    /// What the node produces.
    pub body: NodeBody,
    /// The vertical alignment a flow parent honors.
    pub v_align: Align,
    /// Whether a flow parent places the node absolutely, out of flow.
    pub out_of_flow: bool,
}

#[verifier::ext_equal]
pub ghost struct PackedNodeV {
    pub body: NodeBodyV,
    pub v_align: Align,
    pub out_of_flow: bool,
}

impl View for PackedNode {
    type V = PackedNodeV;

    open spec fn view(&self) -> PackedNodeV {
        PackedNodeV { body: self.body@, v_align: self.v_align, out_of_flow: self.out_of_flow }
    }
}

/// The frames a node yields when laid out.
pub open spec fn node_frames(n: PackedNodeV) -> Seq<FrameV> {
    match n.body {
        NodeBodyV::Sized(s) => seq![plain_frame(s)],
        NodeBodyV::Multi(sizes) => sizes.map_values(|s: Size| plain_frame(s)),
        NodeBodyV::Embed(e) => seq![embedding_frame(e)],
    }
}

/// The heights of the frames a node yields, one per region it consumes.
pub open spec fn node_heights(n: PackedNodeV) -> Seq<i64> {
    node_frames(n).map_values(|f: FrameV| f.size.y)
}

/// The width of the first frame a node yields, or zero for none: what a
/// probe measurement of the node reports.
pub open spec fn node_first_width(n: PackedNodeV) -> i64 {
    if node_frames(n).len() == 0 {
        0
    } else {
        node_frames(n)[0].size.x
    }
}

impl PackedNode {
    /// A block node of a fixed size.
    pub fn sized(size: Size) -> (r: PackedNode)
        ensures
            r@ == (PackedNodeV { body: NodeBodyV::Sized(size), v_align: Align::Start, out_of_flow: false }),
    {
        PackedNode { body: NodeBody::Sized(size), v_align: Align::Start, out_of_flow: false }
    }

    /// A block node spanning several regions, one frame per given size.
    pub fn multi(sizes: Vec<Size>) -> (r: PackedNode)
        ensures
            r@ == (PackedNodeV { body: NodeBodyV::Multi(sizes@), v_align: Align::Start, out_of_flow: false }),
    {
        PackedNode { body: NodeBody::Multi(sizes), v_align: Align::Start, out_of_flow: false }
    }

    /// A zero-size node carrying a file embedding.
    pub fn embedded(e: Embed) -> (r: PackedNode)
        ensures
            r@ == (PackedNodeV { body: NodeBodyV::Embed(e@), v_align: Align::Start, out_of_flow: false }),
    {
        PackedNode { body: NodeBody::Embed(e), v_align: Align::Start, out_of_flow: false }
    }

    /// The same node with a vertical alignment for flow parents.
    pub fn aligned(self, v_align: Align) -> (r: PackedNode)
        ensures
            r@ == (PackedNodeV { v_align, ..self@ }),
    {
        PackedNode { body: self.body, v_align, out_of_flow: self.out_of_flow }
    }

    /// The same node floating out of flow.
    pub fn placed(self) -> (r: PackedNode)
        ensures
            r@ == (PackedNodeV { out_of_flow: true, ..self@ }),
    {
        PackedNode { body: self.body, v_align: self.v_align, out_of_flow: true }
    }

    /// Lay the node out: one frame per region it consumes.
    pub fn layout(&self) -> (frames: Vec<Frame>)
        ensures
            frames@.map_values(|f: Frame| f@) == node_frames(self@),
    {
        let mut out: Vec<Frame> = Vec::new();
        match &self.body {
            NodeBody::Sized(s) => {
                out.push(Frame::new(*s));
                proof {
                    assert(out@.map_values(|f: Frame| f@) =~= node_frames(self@));
                }
            },
            NodeBody::Multi(sizes) => {
                let mut i: usize = 0;
                while i < sizes.len()
                    invariant
                        i <= sizes.len(),
                        out@.map_values(|f: Frame| f@) =~= sizes@.subrange(0, i as int).map_values(
                            |s: Size| plain_frame(s),
                        ),
                    decreases sizes.len() - i,
                {
                    let ghost pre = out@.map_values(|f: Frame| f@);
                    out.push(Frame::new(sizes[i]));
                    proof {
                        assert(out@.map_values(|f: Frame| f@) =~= pre.push(plain_frame(sizes@[i as int])));
                        assert(out@.map_values(|f: Frame| f@) =~= sizes@.subrange(0, i + 1 as int)
                            .map_values(|s: Size| plain_frame(s)));
                    }
                    i = i + 1;
                }
                proof {
                    assert(sizes@.subrange(0, sizes@.len() as int) =~= sizes@);
                    assert(out@.map_values(|f: Frame| f@) =~= node_frames(self@));
                }
            },
            NodeBody::Embed(e) => {
                let mut f = Frame::new(Size::zero());
                f.items.push(FrameItem { pos: Point::zero(), element: Element::Embed(e.clone()) });
                proof {
                    assert(f@.items =~= embedding_frame(e@).items);
                }
                out.push(f);
                proof {
                    assert(out@.map_values(|f: Frame| f@) =~= node_frames(self@));
                }
            },
        }
        out
    }
}

} // verus!
