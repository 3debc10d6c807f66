//! The flow layouter: a vertical flow of spacing and block-level nodes.
//!
//! Children are stacked down the region's vertical axis; when the current
//! region is exhausted the flow breaks into the next one. Absolute spacing
//! consumes room at once, fractional spacing shares whatever is left over
//! when a region is finished, and each node frame is aligned within the
//! region's leftover space.

use vstd::prelude::*;
use crate::constraints::Constraints;
use crate::frame::{Constrained, ConstrainedV, Frame, FrameItemV, FrameV, pushed_frame_items};
use crate::geom::{Align, Axes, Fraction, Linear, Point, Size, align_join, align_shift, lin_resolve};
use crate::node::{PackedNode, PackedNodeV, node_frames};
use crate::num::{INF, add_l, add_w, fr_share, max_l, min_l, sub_l, sub_w, len_add, len_max, len_min, len_sub, weight_add, weight_sub, fr_part};
use crate::regions::{Regions, RegionsV, regions_is_full, regions_next};

verus! {

/// A flow child that is spacing rather than content.
#[derive(Clone, Copy, PartialEq, Eq, Structural, Debug)]
pub enum Spacing {
    /// An absolute amount, possibly relative to the full region height.
    Linear(Linear),
    /// A share of the space left over when the region is finished.
    Fractional(Fraction),
}

/// A child of a flow node.
pub enum FlowChild {
    /// Vertical spacing between other children.
    Spacing(Spacing),
    /// An arbitrary block-level node.
    Node(PackedNode),
}

pub ghost enum FlowChildV {
    Spacing(Spacing),
    Node(PackedNodeV),
}

impl View for FlowChild {
    type V = FlowChildV;

    open spec fn view(&self) -> FlowChildV {
        match self {
            FlowChild::Spacing(s) => FlowChildV::Spacing(*s),
            FlowChild::Node(n) => FlowChildV::Node(n@),
        }
    }
}

/// A vertical flow of content consisting of spacing and block-level nodes.
pub struct FlowNode(pub Vec<FlowChild>);

impl View for FlowNode {
    type V = Seq<FlowChildV>;

    open spec fn view(&self) -> Seq<FlowChildV> {
        self.0@.map_values(|c: FlowChild| c@)
    }
}

/// `flow`: build a vertical flow of the given children.
pub fn flow(children: Vec<FlowChild>) -> (r: FlowNode)
    ensures
        r@ == children@.map_values(|c: FlowChild| c@),
{
    FlowNode(children)
}

/// A prepared item in a flow layout, waiting for its region to finish.
pub enum FlowItem {
    /// Absolute spacing between other items.
    Absolute(i64),
    /// Fractional spacing between other items.
    Fractional(Fraction),
    /// A frame of a laid-out child node and how to align it.
    Frame(Frame, Axes<Align>),
    /// An absolutely placed frame.
    Placed(Frame),
}

pub ghost enum FlowItemV {
    Absolute(i64),
    Fractional(Fraction),
    Frame(FrameV, Axes<Align>),
    Placed(FrameV),
}

impl View for FlowItem {
    type V = FlowItemV;

    open spec fn view(&self) -> FlowItemV {
        match self {
            FlowItem::Absolute(v) => FlowItemV::Absolute(*v),
            FlowItem::Fractional(f) => FlowItemV::Fractional(*f),
            FlowItem::Frame(f, a) => FlowItemV::Frame(f@, *a),
            FlowItem::Placed(f) => FlowItemV::Placed(f@),
        }
    }
}

/// The full state of a flow layout in progress.
#[verifier::ext_equal]
pub ghost struct FlowStateV {
    pub expand: Axes<bool>,
    pub regions: RegionsV,
    pub full: Size,
    pub used: Size,
    pub fr: u64,
    pub items: Seq<FlowItemV>,
    pub finished: Seq<ConstrainedV>,
}

/// The starting state: vertical expansion is disabled on the working copy
/// of the regions, and the full size of the first region is cached.
pub open spec fn flow_init(regions: RegionsV) -> FlowStateV {
    FlowStateV {
        expand: regions.expand,
        regions: RegionsV { expand: Axes { x: regions.expand.x, y: false }, ..regions },
        full: regions.current,
        used: Size { x: 0, y: 0 },
        fr: 0,
        items: Seq::empty(),
        finished: Seq::empty(),
    }
}

/// Absolute spacing: resolve against the cached full height, consume no
/// more than the remaining height and never a negative amount, and record
/// the resolved amount as an offset contributor.
pub open spec fn flow_absolute(s: FlowStateV, amount: Linear) -> FlowStateV {
    let resolved = lin_resolve(amount, s.full.y);
    let limited = max_l(min_l(resolved, s.regions.current.y), 0);
    FlowStateV {
        regions: RegionsV {
            current: Size { x: s.regions.current.x, y: sub_l(s.regions.current.y, limited) },
            ..s.regions
        },
        used: Size { x: s.used.x, y: add_l(s.used.y, limited) },
        items: s.items.push(FlowItemV::Absolute(resolved)),
        ..s
    }
}

/// Fractional spacing: consume nothing yet, only accumulate the weight.
pub open spec fn flow_fractional(s: FlowStateV, f: Fraction) -> FlowStateV {
    FlowStateV {
        items: s.items.push(FlowItemV::Fractional(f)),
        fr: add_w(s.fr, f.0 as u64),
        ..s
    }
}

/// One node frame enters the region: grow the used size, shrink the
/// remaining height, and queue the frame with its alignment.
pub open spec fn flow_frame_step(s: FlowStateV, f: FrameV, aligns: Axes<Align>) -> FlowStateV {
    FlowStateV {
        used: Size { x: max_l(s.used.x, f.size.x), y: add_l(s.used.y, f.size.y) },
        regions: RegionsV {
            current: Size { x: s.regions.current.x, y: sub_l(s.regions.current.y, f.size.y) },
            ..s.regions
        },
        items: s.items.push(FlowItemV::Frame(f, aligns)),
        ..s
    }
}

/// All frames of one node enter in order, finishing the region between two
/// consecutive frames.
pub open spec fn flow_frames_rest(s: FlowStateV, frames: Seq<FrameV>, aligns: Axes<Align>) -> FlowStateV
    decreases frames.len(),
{
    if frames.len() == 0 {
        s
    } else if frames.len() == 1 {
        flow_frame_step(s, frames[0], aligns)
    } else {
        flow_frames_rest(flow_finish(flow_frame_step(s, frames[0], aligns)), frames.drop_first(), aligns)
    }
}

/// Lay out one node: an out-of-flow node is queued as an absolutely placed
/// overlay; any other node contributes its frames in order.
pub open spec fn flow_node_step(s: FlowStateV, n: PackedNodeV) -> FlowStateV {
    if n.out_of_flow {
        if node_frames(n).len() == 0 {
            s
        } else {
            FlowStateV { items: s.items.push(FlowItemV::Placed(node_frames(n)[0])), ..s }
        }
    } else {
        flow_frames_rest(s, node_frames(n), Axes { x: Align::Start, y: n.v_align })
    }
}

/// Process one flow child. A node child finishes the region first if it is
/// already exhausted.
pub open spec fn flow_child_step(s: FlowStateV, c: FlowChildV) -> FlowStateV {
    match c {
        FlowChildV::Spacing(Spacing::Linear(v)) => flow_absolute(s, v),
        FlowChildV::Spacing(Spacing::Fractional(f)) => flow_fractional(s, f),
        FlowChildV::Node(n) => {
            let s1 = if regions_is_full(s.regions) {
                flow_finish(s)
            } else {
                s
            };
            flow_node_step(s1, n)
        },
    }
}

/// Process the children from index `i` on.
pub open spec fn flow_run_from(s: FlowStateV, cs: Seq<FlowChildV>, i: int) -> FlowStateV
    decreases cs.len() - i,
{
    if i < 0 || i >= cs.len() {
        s
    } else {
        flow_run_from(flow_child_step(s, cs[i]), cs, i + 1)
    }
}

/// The state of placing queued items while a region is finished.
#[verifier::ext_equal]
pub ghost struct FlowPlaceV {
    pub offset: i64,
    pub ruler: Align,
    pub rem_space: i64,
    pub rem_weight: u64,
    pub items: Seq<FrameItemV>,
}

/// Place one queued item: spacing advances the offset — fractional spacing
/// by its share of the remaining leftover — and a frame is positioned by
/// the strongest vertical alignment seen so far and its own horizontal
/// alignment; a placed frame overlays at the current offset.
pub open spec fn flow_place_item(p: FlowPlaceV, it: FlowItemV, size: Size, used_y: i64) -> FlowPlaceV {
    match it {
        FlowItemV::Absolute(v) => FlowPlaceV { offset: add_l(p.offset, v), ..p },
        FlowItemV::Fractional(f) => {
            let share = fr_share(f.0 as u64, p.rem_weight, p.rem_space);
            FlowPlaceV {
                offset: add_l(p.offset, share),
                rem_space: sub_l(p.rem_space, share),
                rem_weight: sub_w(p.rem_weight, f.0 as u64),
                ..p
            }
        },
        FlowItemV::Frame(f, aligns) => {
            let ruler = align_join(p.ruler, aligns.y);
            let x = align_shift(aligns.x, sub_l(size.x, f.size.x));
            let y = add_l(p.offset, align_shift(ruler, sub_l(size.y, used_y)));
            FlowPlaceV {
                offset: add_l(p.offset, f.size.y),
                ruler,
                items: pushed_frame_items(p.items, Point { x, y }, f),
                ..p
            }
        },
        FlowItemV::Placed(f) => FlowPlaceV {
            items: pushed_frame_items(p.items, Point { x: 0, y: p.offset }, f),
            ..p
        },
    }
}

pub open spec fn flow_place_all(p: FlowPlaceV, items: Seq<FlowItemV>, size: Size, used_y: i64) -> FlowPlaceV
    decreases items.len(),
{
    if items.len() == 0 {
        p
    } else {
        flow_place_all(flow_place_item(p, items[0], size, used_y), items.drop_first(), size, used_y)
    }
}

/// The frame size a finished flow region takes: the full region size where
/// expansion was requested and the axis is bounded, else the used size; a
/// bounded region with fractional spacing is always filled vertically.
pub open spec fn flow_region_size(s: FlowStateV) -> Size {
    let fr_active = s.fr > 0 && s.full.y != INF;
    Size {
        x: if s.expand.x && s.full.x != INF {
            s.full.x
        } else {
            s.used.x
        },
        y: if fr_active {
            s.full.y
        } else if s.expand.y && s.full.y != INF {
            s.full.y
        } else {
            s.used.y
        },
    }
}

/// Finish the current region: place all queued items into one frame,
/// attach constraints recording the exact region size and base, advance to
/// the next region and reset the running totals.
pub open spec fn flow_finish(s: FlowStateV) -> FlowStateV {
    let remaining = sub_l(s.full.y, s.used.y);
    let fr_active = s.fr > 0 && s.full.y != INF;
    let used_y = if fr_active {
        s.full.y
    } else {
        s.used.y
    };
    let size = flow_region_size(s);
    let p0 = FlowPlaceV {
        offset: 0,
        ruler: Align::Start,
        rem_space: remaining,
        rem_weight: s.fr,
        items: Seq::empty(),
    };
    let p = flow_place_all(p0, s.items, size, used_y);
    let frame = FrameV { size, items: p.items };
    let cts = Constraints {
        min: Axes { x: None, y: None },
        max: Axes { x: None, y: None },
        exact: Axes { x: Some(s.full.x), y: Some(s.full.y) },
        base: Axes { x: Some(s.regions.base.x), y: Some(s.regions.base.y) },
        expand: s.expand,
    };
    let regions2 = regions_next(s.regions);
    FlowStateV {
        expand: s.expand,
        regions: regions2,
        full: regions2.current,
        used: Size { x: 0, y: 0 },
        fr: 0,
        items: Seq::empty(),
        finished: s.finished.push(ConstrainedV { item: frame, cts }),
    }
}

/// What laying out a flow yields: one constrained frame per consumed
/// region, with a final region finish after the last child.
pub open spec fn flow_layout_spec(children: Seq<FlowChildV>, regions: RegionsV) -> Seq<ConstrainedV> {
    flow_finish(flow_run_from(flow_init(regions), children, 0)).finished
}

/// Performs flow layout.
pub struct FlowLayouter {
    /// Whether the flow should expand to fill the region.
    expand: Axes<bool>,
    /// The regions to lay children into, vertical expansion disabled.
    regions: Regions,
    /// The full size of the current region before subtraction began.
    full: Size,
    /// The size used by the frames of the current region.
    used: Size,
    /// The sum of fractional spacing weights in the current region.
    fr: u64,
    /// Queued spacing and laid-out nodes.
    items: Vec<FlowItem>,
    /// Finished frames of previous regions.
    finished: Vec<Constrained>,
}

impl View for FlowLayouter {
    type V = FlowStateV;

    closed spec fn view(&self) -> FlowStateV {
        FlowStateV {
            expand: self.expand,
            regions: self.regions@,
            full: self.full,
            used: self.used,
            fr: self.fr,
            items: self.items@.map_values(|it: FlowItem| it@),
            finished: self.finished@.map_values(|c: Constrained| c@),
        }
    }
}

impl FlowLayouter {
    /// Create a new flow layouter over the given regions.
    pub fn new(regions: &Regions) -> (l: FlowLayouter)
        ensures
            l@ == flow_init(regions@),
    {
        let expand = regions.expand;
        let full = regions.current;
        let mut inner = regions.clone();
        inner.expand = Axes::new(expand.x, false);
        let l = FlowLayouter {
            expand,
            regions: inner,
            full,
            used: Size::zero(),
            fr: 0,
            items: Vec::new(),
            finished: Vec::new(),
        };
        proof {
            assert(l@ =~= flow_init(regions@));
        }
        l
    }

    /// Lay out absolute spacing.
    pub fn layout_absolute(&mut self, amount: Linear)
        ensures
            final(self)@ == flow_absolute(old(self)@, amount),
    {
        let resolved = amount.resolve(self.full.y);
        let limited = len_max(len_min(resolved, self.regions.current.y), 0);
        self.regions.current.y = len_sub(self.regions.current.y, limited);
        self.used.y = len_add(self.used.y, limited);
        self.items.push(FlowItem::Absolute(resolved));
        proof {
            assert(self@ =~= flow_absolute(old(self)@, amount));
        }
    }

    /// Queue fractional spacing.
    pub fn layout_fractional(&mut self, f: Fraction)
        ensures
            final(self)@ == flow_fractional(old(self)@, f),
    {
        self.items.push(FlowItem::Fractional(f));
        self.fr = weight_add(self.fr, f.weight());
        proof {
            assert(self@ =~= flow_fractional(old(self)@, f));
        }
    }

    /// Lay out a node, finishing the region between two of its frames.
    pub fn layout_node(&mut self, node: &PackedNode)
        ensures
            final(self)@ == flow_node_step(old(self)@, node@),
    {
        let mut frames = node.layout();
        if node.out_of_flow {
            if frames.len() > 0 {
                let f = frames.remove(0);
                proof {
                    assert(f@ == node_frames(node@)[0]);
                }
                self.items.push(FlowItem::Placed(f));
            }
            proof {
                assert(self@ =~= flow_node_step(old(self)@, node@));
            }
            return;
        }
        let aligns = Axes::new(Align::Start, node.v_align);
        let ghost target = flow_node_step(old(self)@, node@);
        proof {
            assert(frames@.map_values(|f: Frame| f@) == node_frames(node@));
        }
        while frames.len() > 0
            invariant
                flow_frames_rest(self@, frames@.map_values(|f: Frame| f@), aligns) == target,
            decreases frames.len(),
        {
            let ghost pre = self@;
            let ghost pre_frames = frames@.map_values(|f: Frame| f@);
            let f = frames.remove(0);
            let fsize = f.size;
            self.used.y = len_add(self.used.y, fsize.y);
            self.used.x = len_max(self.used.x, fsize.x);
            self.regions.current.y = len_sub(self.regions.current.y, fsize.y);
            self.items.push(FlowItem::Frame(f, aligns));
            proof {
                assert(frames@.map_values(|fr: Frame| fr@) =~= pre_frames.drop_first());
                assert(self@ =~= flow_frame_step(pre, pre_frames[0], aligns));
            }
            if frames.len() > 0 {
                self.finish_region();
            }
        }
        proof {
            assert(frames@.map_values(|f: Frame| f@) =~= Seq::<FrameV>::empty());
            assert(self@ == target);
        }
    }

    /// Finish the frame for one region.
    pub fn finish_region(&mut self)
        ensures
            final(self)@ == flow_finish(old(self)@),
    {
        let remaining = len_sub(self.full.y, self.used.y);
        let fr_active = self.fr > 0 && self.full.y != INF;
        let used_y = if fr_active {
            self.full.y
        } else {
            self.used.y
        };
        let size_x = if self.expand.x && self.full.x != INF {
            self.full.x
        } else {
            self.used.x
        };
        let size_y = if fr_active {
            self.full.y
        } else if self.expand.y && self.full.y != INF {
            self.full.y
        } else {
            self.used.y
        };
        let size = Size { x: size_x, y: size_y };
        proof {
            assert(size == flow_region_size(old(self)@));
        }

        let mut output = Frame::new(size);
        let mut offset: i64 = 0;
        let mut ruler = Align::Start;
        let mut rem_space = remaining;
        let mut rem_weight = self.fr;

        let ghost p0 = FlowPlaceV {
            offset: 0,
            ruler: Align::Start,
            rem_space: remaining,
            rem_weight: self.fr,
            items: Seq::empty(),
        };
        let ghost target_p = flow_place_all(p0, old(self)@.items, size, used_y);
        proof {
            assert(output@.items =~= p0.items);
        }

        while self.items.len() > 0
            invariant
                output@.size == size,
                flow_place_all(
                    FlowPlaceV { offset, ruler, rem_space, rem_weight, items: output@.items },
                    self@.items,
                    size,
                    used_y,
                ) == target_p,
                self.expand == old(self).expand,
                self.regions@ == old(self)@.regions,
                self.full == old(self).full,
                self.used == old(self).used,
                self.fr == old(self).fr,
                self.finished@.map_values(|c: Constrained| c@) == old(self)@.finished,
            decreases self.items.len(),
        {
            let ghost pre_p = FlowPlaceV { offset, ruler, rem_space, rem_weight, items: output@.items };
            let ghost pre_items = self@.items;
            let it = self.items.remove(0);
            proof {
                assert(self@.items =~= pre_items.drop_first());
                assert(it@ == pre_items[0]);
            }
            match it {
                FlowItem::Absolute(v) => {
                    offset = len_add(offset, v);
                },
                FlowItem::Fractional(f) => {
                    let share = fr_part(f.weight(), rem_weight, rem_space);
                    offset = len_add(offset, share);
                    rem_space = len_sub(rem_space, share);
                    rem_weight = weight_sub(rem_weight, f.weight());
                },
                FlowItem::Frame(frame, aligns) => {
                    ruler = ruler.join(aligns.y);
                    let x = aligns.x.resolve(len_sub(size.x, frame.size.x));
                    let y = len_add(offset, ruler.resolve(len_sub(size.y, used_y)));
                    let pos = Point::new(x, y);
                    offset = len_add(offset, frame.size.y);
                    output.push_frame(pos, frame);
                },
                FlowItem::Placed(frame) => {
                    output.push_frame(Point::with_y(offset), frame);
                },
            }
            proof {
                assert(FlowPlaceV { offset, ruler, rem_space, rem_weight, items: output@.items }
                    =~= flow_place_item(pre_p, pre_items[0], size, used_y));
            }
        }
        proof {
            assert(self@.items =~= Seq::<FlowItemV>::empty());
            assert(FlowPlaceV { offset, ruler, rem_space, rem_weight, items: output@.items } == target_p);
        }

        let cts = Constraints {
            min: Axes::new(None, None),
            max: Axes::new(None, None),
            exact: Axes::new(Some(self.full.x), Some(self.full.y)),
            base: Axes::new(Some(self.regions.base.x), Some(self.regions.base.y)),
            expand: self.expand,
        };
        self.finished.push(output.constrain(cts));
        self.regions.next();
        self.full = self.regions.current;
        self.used = Size::zero();
        self.fr = 0;
        proof {
            assert(self@ =~= flow_finish(old(self)@));
        }
    }

    /// Lay out all children, finishing the last region at the end.
    pub fn layout(self, children: &Vec<FlowChild>) -> (r: Vec<Constrained>)
        ensures
            r@.map_values(|c: Constrained| c@) == flow_finish(
                flow_run_from(self@, children@.map_values(|c: FlowChild| c@), 0),
            ).finished,
    {
        let ghost cs = children@.map_values(|c: FlowChild| c@);
        let ghost target = flow_finish(flow_run_from(self@, cs, 0)).finished;
        let mut this = self;
        let mut i: usize = 0;
        while i < children.len()
            invariant
                i <= children.len(),
                cs == children@.map_values(|c: FlowChild| c@),
                flow_finish(flow_run_from(this@, cs, i as int)).finished == target,
            decreases children.len() - i,
        {
            let ghost pre = this@;
            match &children[i] {
                FlowChild::Spacing(s) => {
                    match *s {
                        Spacing::Linear(v) => {
                            this.layout_absolute(v);
                        },
                        Spacing::Fractional(f) => {
                            this.layout_fractional(f);
                        },
                    }
                },
                FlowChild::Node(n) => {
                    if this.regions.is_full() {
                        this.finish_region();
                    }
                    this.layout_node(n);
                },
            }
            proof {
                assert(cs[i as int] == children@[i as int]@);
                assert(this@ == flow_child_step(pre, cs[i as int]));
            }
            i = i + 1;
        }
        let mut this2 = this;
        this2.finish_region();
        let FlowLayouter { finished, .. } = this2;
        finished
    }
}

impl FlowNode {
    /// Lay out the flow against a region sequence: one constrained frame
    /// per consumed region.
    pub fn layout(&self, regions: &Regions) -> (r: Vec<Constrained>)
        ensures
            r@.map_values(|c: Constrained| c@) == flow_layout_spec(self@, regions@),
    {
        let l = FlowLayouter::new(regions);
        l.layout(&self.0)
    }
}

/// A spacing child of zero amount: no absolute part, no relative part.
pub open spec fn zero_spacing() -> FlowChildV {
    FlowChildV::Spacing(Spacing::Linear(Linear { abs: 0, rel: 0 }))
}

proof fn lemma_run_push(s: FlowStateV, cs: Seq<FlowChildV>, c: FlowChildV, i: int)
    requires
        0 <= i <= cs.len(),
    ensures
        flow_run_from(s, cs.push(c), i) == flow_child_step(flow_run_from(s, cs, i), c),
    decreases cs.len() - i,
{
    if i == cs.len() {
        assert(cs.push(c)[i] == c);
    } else {
        assert(cs.push(c)[i] == cs[i]);
        lemma_run_push(flow_child_step(s, cs[i]), cs, c, i + 1);
    }
}

proof fn lemma_place_push(p: FlowPlaceV, items: Seq<FlowItemV>, it: FlowItemV, size: Size, used_y: i64)
    ensures
        flow_place_all(p, items.push(it), size, used_y) == flow_place_item(
            flow_place_all(p, items, size, used_y),
            it,
            size,
            used_y,
        ),
    decreases items.len(),
{
    if items.len() == 0 {
        assert(items.push(it)[0] == it);
        assert(items.push(it).drop_first() =~= items);
        assert(flow_place_all(p, items, size, used_y) == p);
        assert(flow_place_all(p, items.push(it), size, used_y) == flow_place_all(
            flow_place_item(p, it, size, used_y),
            items,
            size,
            used_y,
        ));
        assert(flow_place_all(flow_place_item(p, it, size, used_y), items, size, used_y)
            == flow_place_item(p, it, size, used_y));
    } else {
        assert(items.push(it)[0] == items[0]);
        assert(items.push(it).drop_first() =~= items.drop_first().push(it));
        let p1 = flow_place_item(p, items[0], size, used_y);
        assert(flow_place_all(p, items.push(it), size, used_y) == flow_place_all(
            p1,
            items.drop_first().push(it),
            size,
            used_y,
        ));
        lemma_place_push(p1, items.drop_first(), it, size, used_y);
        assert(flow_place_all(p, items, size, used_y) == flow_place_all(
            p1,
            items.drop_first(),
            size,
            used_y,
        ));
    }
}

/// Appending a zero-amount spacing item to a flow is a no-op: the frames
/// produced, their geometry and their constraints are identical.
pub proof fn lemma_zero_spacing_no_op(children: Seq<FlowChildV>, regions: RegionsV)
    ensures
        flow_layout_spec(children.push(zero_spacing()), regions) == flow_layout_spec(
            children,
            regions,
        ),
{
    let init = flow_init(regions);
    lemma_run_push(init, children, zero_spacing(), 0);
    let s = flow_run_from(init, children, 0);
    let s2 = flow_child_step(s, zero_spacing());
    assert(lin_resolve(Linear { abs: 0, rel: 0 }, s.full.y) == 0) by {
        let b = s.full.y;
        if !(b == INF || b <= 0) {
            assert((b as int) * (0u32 as int) == 0) by (nonlinear_arith);
        }
    };
    assert(s2 =~= (FlowStateV { items: s.items.push(FlowItemV::Absolute(0)), ..s }));
    let size = flow_region_size(s);
    let used_y = if s.fr > 0 && s.full.y != INF {
        s.full.y
    } else {
        s.used.y
    };
    let p0 = FlowPlaceV {
        offset: 0,
        ruler: Align::Start,
        rem_space: sub_l(s.full.y, s.used.y),
        rem_weight: s.fr,
        items: Seq::empty(),
    };
    lemma_place_push(p0, s.items, FlowItemV::Absolute(0), size, used_y);
    assert(flow_place_all(p0, s2.items, size, used_y) =~= flow_place_all(
        p0,
        s.items,
        size,
        used_y,
    ));
    assert(flow_finish(s2) =~= flow_finish(s));
}

/// Laying out identical children against an identical region sequence
/// yields identical frames and constraints: the result is a function of
/// the inputs alone.
pub proof fn lemma_flow_layout_deterministic(
    c1: Seq<FlowChildV>,
    c2: Seq<FlowChildV>,
    r1: RegionsV,
    r2: RegionsV,
)
    requires
        c1 == c2,
        r1 == r2,
    ensures
        flow_layout_spec(c1, r1) == flow_layout_spec(c2, r2),
{
}

} // verus!
