use layout::flow::{flow, FlowChild, Spacing};
use layout::frame::Element;
use layout::geom::{Align, Axes, Fraction, Linear, Point, Size};
use layout::node::PackedNode;
use layout::regions::Regions;

fn no_expand() -> Axes<bool> {
    Axes::splat(false)
}

#[test]
fn spacing_then_node_stacks_vertically() {
    // A flow with 10 units of spacing and a 30 x 50 node in a 200 x 100
    // region without expansion: the frame is as large as its contents and
    // the node sits below the spacing.
    let node = flow(vec![
        FlowChild::Spacing(Spacing::Linear(Linear::from_abs(10))),
        FlowChild::Node(PackedNode::sized(Size::new(30, 50))),
    ]);
    let regions = Regions::one(Size::new(200, 100), Size::new(200, 100), no_expand());
    let out = node.layout(&regions);
    assert_eq!(out.len(), 1);
    let frame = &out[0].item;
    assert_eq!(frame.size, Size::new(30, 60));
    assert_eq!(frame.items.len(), 1);
    assert_eq!(frame.items[0].pos, Point::new(0, 10));
    assert_eq!(frame.items[0].element, Element::Group(Size::new(30, 50)));
    // The constraints record the exact region and base size.
    assert_eq!(out[0].cts.exact.x, Some(200));
    assert_eq!(out[0].cts.exact.y, Some(100));
    assert_eq!(out[0].cts.base.x, Some(200));
    assert_eq!(out[0].cts.base.y, Some(100));
}

#[test]
fn zero_spacing_is_a_no_op() {
    let children = vec![
        FlowChild::Spacing(Spacing::Linear(Linear::from_abs(10))),
        FlowChild::Node(PackedNode::sized(Size::new(30, 50))),
    ];
    let with_zero = vec![
        FlowChild::Spacing(Spacing::Linear(Linear::from_abs(10))),
        FlowChild::Node(PackedNode::sized(Size::new(30, 50))),
        FlowChild::Spacing(Spacing::Linear(Linear::zero())),
    ];
    let regions = Regions::one(Size::new(200, 100), Size::new(200, 100), no_expand());
    let a = flow(children).layout(&regions);
    let b = flow(with_zero).layout(&regions);
    assert_eq!(a, b);
}

#[test]
fn identical_input_layouts_identically() {
    let make = || {
        flow(vec![
            FlowChild::Spacing(Spacing::Fractional(Fraction::new(1))),
            FlowChild::Node(PackedNode::sized(Size::new(40, 30))),
        ])
    };
    let regions = Regions::one(Size::new(100, 100), Size::new(100, 100), no_expand());
    let a = make().layout(&regions);
    let b = make().layout(&regions);
    assert_eq!(a, b);
}

#[test]
fn fractional_spacing_fills_bounded_region() {
    // With fractional spacing in a bounded region the frame takes the full
    // height and the spacing takes the whole leftover.
    let node = flow(vec![
        FlowChild::Node(PackedNode::sized(Size::new(30, 20))),
        FlowChild::Spacing(Spacing::Fractional(Fraction::new(1))),
        FlowChild::Node(PackedNode::sized(Size::new(30, 30))),
    ]);
    let regions = Regions::one(Size::new(100, 100), Size::new(100, 100), no_expand());
    let out = node.layout(&regions);
    assert_eq!(out.len(), 1);
    let frame = &out[0].item;
    assert_eq!(frame.size, Size::new(30, 100));
    assert_eq!(frame.items[0].pos, Point::new(0, 0));
    // 100 full - 50 used = 50 leftover, all of it to the one weight.
    assert_eq!(frame.items[1].pos, Point::new(0, 70));
}

#[test]
fn node_spanning_regions_breaks_pages() {
    // A node with two frames consumes two regions.
    let node = flow(vec![FlowChild::Node(PackedNode::multi(vec![
        Size::new(50, 80),
        Size::new(50, 70),
    ]))]);
    let mut regions = Regions::one(Size::new(100, 100), Size::new(100, 100), no_expand());
    regions.backlog = vec![Size::new(100, 90)];
    let out = node.layout(&regions);
    assert_eq!(out.len(), 2);
    assert_eq!(out[0].item.size, Size::new(50, 80));
    assert_eq!(out[1].item.size, Size::new(50, 70));
}

#[test]
fn open_ended_regions_repeat_the_last_size() {
    // A node with three frames paginates through an open-ended sequence of
    // equal regions.
    let node = flow(vec![FlowChild::Node(PackedNode::multi(vec![
        Size::new(50, 80),
        Size::new(50, 70),
        Size::new(50, 60),
    ]))]);
    let regions = Regions::repeat(Size::new(100, 100), Size::new(100, 100), no_expand());
    let out = node.layout(&regions);
    assert_eq!(out.len(), 3);
    assert_eq!(out[2].item.size, Size::new(50, 60));
}

#[test]
fn out_of_flow_node_consumes_no_space() {
    let node = flow(vec![
        FlowChild::Node(PackedNode::sized(Size::new(20, 20)).placed()),
        FlowChild::Node(PackedNode::sized(Size::new(30, 50))),
    ]);
    let regions = Regions::one(Size::new(100, 100), Size::new(100, 100), no_expand());
    let out = node.layout(&regions);
    assert_eq!(out.len(), 1);
    let frame = &out[0].item;
    // The placed node does not grow the flow.
    assert_eq!(frame.size, Size::new(30, 50));
    assert_eq!(frame.items[0].pos, Point::new(0, 0));
    assert_eq!(frame.items[0].element, Element::Group(Size::new(20, 20)));
    assert_eq!(frame.items[1].pos, Point::new(0, 0));
    assert_eq!(frame.items[1].element, Element::Group(Size::new(30, 50)));
}

#[test]
fn vertical_alignment_moves_node_in_expanded_region() {
    let node = flow(vec![FlowChild::Node(
        PackedNode::sized(Size::new(30, 20)).aligned(Align::End),
    )]);
    let regions = Regions::one(
        Size::new(100, 100),
        Size::new(100, 100),
        Axes::new(false, true),
    );
    let out = node.layout(&regions);
    assert_eq!(out.len(), 1);
    let frame = &out[0].item;
    assert_eq!(frame.size, Size::new(30, 100));
    // The node sits at the bottom of the leftover space.
    assert_eq!(frame.items[0].pos, Point::new(0, 80));
}

#[test]
fn exhausted_region_breaks_before_next_node() {
    let node = flow(vec![
        FlowChild::Node(PackedNode::sized(Size::new(30, 100))),
        FlowChild::Node(PackedNode::sized(Size::new(30, 40))),
    ]);
    let mut regions = Regions::one(Size::new(100, 100), Size::new(100, 100), no_expand());
    regions.backlog = vec![Size::new(100, 60)];
    let out = node.layout(&regions);
    assert_eq!(out.len(), 2);
    assert_eq!(out[0].item.size, Size::new(30, 100));
    assert_eq!(out[1].item.size, Size::new(30, 40));
}
