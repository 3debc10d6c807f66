//! Frames: the finished, positioned output of layout.
//!
//! A frame is a fixed overall size with an ordered list of positioned items.
//! Appending a sub-frame records a boundary mark carrying the sub-frame's
//! extent, followed by its items displaced to the insertion point; merging
//! takes the items alone and dissolves the boundary.

use vstd::prelude::*;
use crate::constraints::Constraints;
use crate::embed::{Embed, EmbedElem, EmbedV, embed_of};
use crate::geom::{Point, Size, pt_offset};

verus! {

/// One primitive mark inside a frame.
#[derive(Debug, PartialEq, Eq)]
pub enum Element {
    /// The boundary of a laid-out sub-frame, recording its extent.
    Group(Size),
    /// An embedded-file payload, carried through layout untouched.
    Embed(Embed),
}

pub ghost enum ElementV {
    Group(Size),
    Embed(EmbedV),
}

impl View for Element {
    type V = ElementV;

    open spec fn view(&self) -> ElementV {
        match self {
            Element::Group(s) => ElementV::Group(*s),
            Element::Embed(e) => ElementV::Embed(e@),
        }
    }
}

/// A positioned item inside a frame.
#[derive(Debug, PartialEq, Eq)]
pub struct FrameItem {
    pub pos: Point,
    pub element: Element,
}

#[verifier::ext_equal]
pub ghost struct FrameItemV {
    pub pos: Point,
    pub element: ElementV,
}

impl View for FrameItem {
    type V = FrameItemV;

    open spec fn view(&self) -> FrameItemV {
        FrameItemV { pos: self.pos, element: self.element@ }
    }
}

/// A finished output rectangle with its positioned contents.
#[derive(Debug, PartialEq, Eq)]
pub struct Frame {
    pub size: Size,
    pub items: Vec<FrameItem>,
}

#[verifier::ext_equal]
pub ghost struct FrameV {
    pub size: Size,
    pub items: Seq<FrameItemV>,
}

impl View for Frame {
    type V = FrameV;

    open spec fn view(&self) -> FrameV {
        FrameV { size: self.size, items: self.items@.map_values(|it: FrameItem| it@) }
    }
}

/// An empty frame of the given size.
pub open spec fn plain_frame(size: Size) -> FrameV {
    FrameV { size, items: Seq::empty() }
}

/// The items of `f`, each displaced by `pos`.
pub open spec fn displaced_items(f: FrameV, pos: Point) -> Seq<FrameItemV> {
    f.items.map_values(|it: FrameItemV| FrameItemV { pos: pt_offset(pos, it.pos), element: it.element })
}

/// Appending a whole sub-frame: its boundary mark, then its displaced items.
pub open spec fn pushed_frame_items(items: Seq<FrameItemV>, pos: Point, f: FrameV) -> Seq<FrameItemV> {
    items.push(FrameItemV { pos, element: ElementV::Group(f.size) }) + displaced_items(f, pos)
}

/// Merging a sub-frame: its displaced items alone; the boundary dissolves.
pub open spec fn merged_frame_items(items: Seq<FrameItemV>, pos: Point, f: FrameV) -> Seq<FrameItemV> {
    items + displaced_items(f, pos)
}

impl Frame {
    pub fn new(size: Size) -> (r: Frame)
        ensures
            r@ == plain_frame(size),
    {
        let r = Frame { size, items: Vec::new() };
        proof {
            assert(r@.items =~= Seq::<FrameItemV>::empty());
            assert(r@ =~= plain_frame(size));
        }
        r
    }

    /// Append the items of `frame`, displaced by `pos`, without a boundary
    /// mark.
    pub fn merge_frame(&mut self, pos: Point, frame: Frame)
        ensures
            final(self)@.size == old(self)@.size,
            final(self)@.items == merged_frame_items(old(self)@.items, pos, frame@),
    {
        let ghost orig = frame@;
        let mut rest = frame;
        while rest.items.len() > 0
            invariant
                self@.size == old(self)@.size,
                self@.items + displaced_items(FrameV { size: orig.size, items: rest@.items }, pos)
                    =~= merged_frame_items(old(self)@.items, pos, orig),
            decreases rest.items.len(),
        {
            let ghost pre_self = self@.items;
            let ghost pre_rest = rest@.items;
            let it = rest.items.remove(0);
            self.items.push(FrameItem { pos: pos.offset(it.pos), element: it.element });
            proof {
                let dv = |x: FrameItemV| FrameItemV { pos: pt_offset(pos, x.pos), element: x.element };
                assert(rest@.items =~= pre_rest.drop_first());
                assert(self@.items =~= pre_self.push(dv(pre_rest[0])));
                assert(pre_self + pre_rest.map_values(dv)
                    =~= pre_self.push(dv(pre_rest[0])) + pre_rest.drop_first().map_values(dv));
                assert(self@.items + displaced_items(FrameV { size: orig.size, items: rest@.items }, pos)
                    =~= merged_frame_items(old(self)@.items, pos, orig));
            }
        }
        proof {
            assert(displaced_items(FrameV { size: orig.size, items: rest@.items }, pos)
                =~= Seq::<FrameItemV>::empty());
            assert(self@.items =~= merged_frame_items(old(self)@.items, pos, orig));
        }
    }

    /// Append a whole sub-frame at `pos`: a boundary mark, then its items.
    pub fn push_frame(&mut self, pos: Point, frame: Frame)
        ensures
            final(self)@.size == old(self)@.size,
            final(self)@.items == pushed_frame_items(old(self)@.items, pos, frame@),
    {
        let ghost orig = frame@;
        self.items.push(FrameItem { pos, element: Element::Group(frame.size) });
        proof {
            assert(self@.items =~= old(self)@.items.push(
                FrameItemV { pos, element: ElementV::Group(orig.size) },
            ));
        }
        self.merge_frame(pos, frame);
        proof {
            assert(self@.items =~= pushed_frame_items(old(self)@.items, pos, orig));
        }
    }

    /// Attach constraints, yielding the pair handed back to the caller.
    pub fn constrain(self, cts: Constraints) -> (r: Constrained)
        ensures
            r@ == (ConstrainedV { item: self@, cts }),
    {
        Constrained { item: self, cts }
    }
}

/// A produced frame together with the constraints under which it may be
/// reused.
#[derive(Debug, PartialEq, Eq)]
pub struct Constrained {
    pub item: Frame,
    pub cts: Constraints,
}

#[verifier::ext_equal]
pub ghost struct ConstrainedV {
    pub item: FrameV,
    pub cts: Constraints,
}

impl View for Constrained {
    type V = ConstrainedV;

    open spec fn view(&self) -> ConstrainedV {
        ConstrainedV { item: self.item@, cts: self.cts }
    }
}

/// Lay out a file embedding: a zero-size frame carrying the payload.
pub fn layout_embedding(elem: EmbedElem) -> (f: Frame)
    ensures
        f@ == embedding_frame(embed_of(elem@)),
{
    let mut frame = Frame::new(Size::zero());
    frame.items.push(FrameItem { pos: Point::zero(), element: Element::Embed(Embed::from_element(elem)) });
    proof {
        assert(frame@.items =~= embedding_frame(embed_of(elem@)).items);
        assert(frame@ =~= embedding_frame(embed_of(elem@)));
    }
    frame
}

/// The frame a file embedding occupies: no extent, one payload item.
pub open spec fn embedding_frame(e: EmbedV) -> FrameV {
    FrameV {
        size: Size { x: 0, y: 0 },
        items: seq![FrameItemV { pos: Point { x: 0, y: 0 }, element: ElementV::Embed(e) }],
    }
}

} // verus!
