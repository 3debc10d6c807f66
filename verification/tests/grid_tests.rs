use layout::frame::Element;
use layout::geom::{Axes, Fraction, Linear, Point, Size};
use layout::grid::{grid, TrackSizing};
use layout::node::PackedNode;
use layout::regions::Regions;

fn no_expand() -> Axes<bool> {
    Axes::new(false, false)
}

fn no_gutter() -> Axes<Vec<TrackSizing>> {
    Axes::new(vec![], vec![])
}

#[test]
fn auto_and_fractional_columns_share_width() {
    // Columns [Auto, 1fr] in a region 200 wide: the auto column measures
    // its 40-wide cell, the fractional column takes the remaining 160.
    let node = grid(
        Axes::new(
            vec![TrackSizing::Auto, TrackSizing::Fractional(Fraction::new(1))],
            vec![],
        ),
        no_gutter(),
        vec![
            PackedNode::sized(Size::new(40, 20)),
            PackedNode::sized(Size::new(10, 5)),
        ],
    );
    let regions = Regions::one(Size::new(200, 100), Size::new(200, 100), no_expand());
    let out = node.layout(&regions);
    assert_eq!(out.len(), 1);
    let frame = &out[0].item;
    // Column sizes show in the frame width and the cells' positions.
    assert_eq!(frame.size, Size::new(200, 20));
    assert_eq!(frame.items[0].pos, Point::new(0, 0));
    assert_eq!(frame.items[0].element, Element::Group(Size::new(40, 20)));
    assert_eq!(frame.items[1].pos, Point::new(40, 0));
    assert_eq!(frame.items[1].element, Element::Group(Size::new(10, 5)));
    // Fractional columns filled the region exactly.
    assert_eq!(out[0].cts.exact.x, Some(200));
}

#[test]
fn fractional_row_takes_leftover_height() {
    // Three rows [Auto, 1fr, Auto] in a 300-tall region; the auto rows
    // resolve to 50 each, so the fractional row gets 300 - 100 = 200.
    let node = grid(
        Axes::new(
            vec![TrackSizing::Auto],
            vec![
                TrackSizing::Auto,
                TrackSizing::Fractional(Fraction::new(1)),
                TrackSizing::Auto,
            ],
        ),
        no_gutter(),
        vec![
            PackedNode::sized(Size::new(40, 50)),
            PackedNode::sized(Size::new(40, 50)),
            PackedNode::sized(Size::new(40, 50)),
        ],
    );
    let regions = Regions::one(Size::new(100, 300), Size::new(100, 300), no_expand());
    let out = node.layout(&regions);
    assert_eq!(out.len(), 1);
    let frame = &out[0].item;
    assert_eq!(frame.size, Size::new(40, 300));
    // First auto row at 0, fractional row content at 50, last auto row
    // after the 200-tall fractional row.
    assert_eq!(frame.items[0].pos, Point::new(0, 0));
    assert_eq!(frame.items[1].pos, Point::new(0, 50));
    assert_eq!(frame.items[2].pos, Point::new(0, 250));
    assert_eq!(out[0].cts.exact.y, Some(300));
}

#[test]
fn fractional_columns_split_leftover_exactly() {
    // Columns [1fr, 2fr] over 100 units: the first share is carved as
    // 100 / 3 = 33, the second takes all 67 that remain — nothing is left
    // behind to rounding.
    let node = grid(
        Axes::new(
            vec![
                TrackSizing::Fractional(Fraction::new(1)),
                TrackSizing::Fractional(Fraction::new(2)),
            ],
            vec![],
        ),
        no_gutter(),
        vec![
            PackedNode::sized(Size::new(5, 10)),
            PackedNode::sized(Size::new(5, 10)),
        ],
    );
    let regions = Regions::one(Size::new(100, 100), Size::new(100, 100), no_expand());
    let out = node.layout(&regions);
    let frame = &out[0].item;
    assert_eq!(frame.size.x, 100);
    assert_eq!(frame.items[0].pos, Point::new(0, 0));
    assert_eq!(frame.items[1].pos, Point::new(33, 0));
}

#[test]
fn purely_linear_columns_ignore_region_width() {
    let make = |width: i64| {
        let node = grid(
            Axes::new(
                vec![
                    TrackSizing::Linear(Linear::from_abs(50)),
                    TrackSizing::Linear(Linear::from_abs(70)),
                ],
                vec![],
            ),
            no_gutter(),
            vec![
                PackedNode::sized(Size::new(10, 10)),
                PackedNode::sized(Size::new(10, 10)),
            ],
        );
        let regions = Regions::one(Size::new(width, 100), Size::new(width, 100), no_expand());
        node.layout(&regions)
    };
    let narrow = make(120);
    let wide = make(300);
    // The width is the sum of the linear values either way.
    assert_eq!(narrow[0].item.size.x, 120);
    assert_eq!(wide[0].item.size.x, 120);
    assert_eq!(narrow[0].cts.exact.x, None);
    assert_eq!(narrow[0].cts.min.x, None);
    assert_eq!(narrow[0].cts.max.x, None);
}

#[test]
fn overlarge_auto_columns_shrink_to_available() {
    // Two auto columns measuring 80 and 60 must share 100 units: both are
    // over the fair share of 50, so each gets exactly 50.
    let node = grid(
        Axes::new(vec![TrackSizing::Auto, TrackSizing::Auto], vec![]),
        no_gutter(),
        vec![
            PackedNode::sized(Size::new(80, 10)),
            PackedNode::sized(Size::new(60, 10)),
        ],
    );
    let regions = Regions::one(Size::new(100, 100), Size::new(100, 100), no_expand());
    let out = node.layout(&regions);
    let frame = &out[0].item;
    // The columns sum to the available space exactly.
    assert_eq!(frame.size.x, 100);
    assert_eq!(frame.items[0].pos, Point::new(0, 0));
    assert_eq!(frame.items[1].pos, Point::new(50, 0));
    assert_eq!(out[0].cts.exact.x, Some(100));
}

#[test]
fn linear_row_defers_to_fitting_region() {
    // An 80-tall linear row in a region with only 50 units left moves to
    // the next region, which fits it.
    let node = grid(
        Axes::new(
            vec![TrackSizing::Auto],
            vec![TrackSizing::Linear(Linear::from_abs(80))],
        ),
        no_gutter(),
        vec![PackedNode::sized(Size::new(40, 10))],
    );
    let mut regions = Regions::one(Size::new(100, 50), Size::new(100, 100), no_expand());
    regions.backlog = vec![Size::new(100, 100)];
    let out = node.layout(&regions);
    assert_eq!(out.len(), 2);
    // The first region was finished without the row, recording how much
    // height would have been needed.
    assert_eq!(out[0].item.size.y, 0);
    assert_eq!(out[0].cts.max.y, Some(80));
    assert_eq!(out[1].item.size.y, 80);
}

#[test]
fn linear_row_is_forced_into_last_region() {
    // The same row with no further region is placed regardless.
    let node = grid(
        Axes::new(
            vec![TrackSizing::Auto],
            vec![TrackSizing::Linear(Linear::from_abs(80))],
        ),
        no_gutter(),
        vec![PackedNode::sized(Size::new(40, 10))],
    );
    let regions = Regions::one(Size::new(100, 50), Size::new(100, 100), no_expand());
    let out = node.layout(&regions);
    assert_eq!(out.len(), 1);
    assert_eq!(out[0].item.size.y, 80);
}

#[test]
fn gutter_tracks_space_out_cells() {
    let node = grid(
        Axes::new(vec![TrackSizing::Auto, TrackSizing::Auto], vec![]),
        Axes::new(vec![TrackSizing::Linear(Linear::from_abs(10))], vec![]),
        vec![
            PackedNode::sized(Size::new(20, 10)),
            PackedNode::sized(Size::new(30, 10)),
        ],
    );
    let regions = Regions::one(Size::new(200, 100), Size::new(200, 100), no_expand());
    let out = node.layout(&regions);
    let frame = &out[0].item;
    // 20 + 10 gutter + 30.
    assert_eq!(frame.size.x, 60);
    assert_eq!(frame.items[0].pos, Point::new(0, 0));
    assert_eq!(frame.items[1].pos, Point::new(30, 0));
}

#[test]
fn identical_grid_layouts_identically() {
    let make = || {
        grid(
            Axes::new(vec![TrackSizing::Auto, TrackSizing::Fractional(Fraction::new(2))], vec![]),
            no_gutter(),
            vec![
                PackedNode::sized(Size::new(40, 20)),
                PackedNode::sized(Size::new(10, 5)),
            ],
        )
    };
    let regions = Regions::one(Size::new(200, 100), Size::new(200, 100), no_expand());
    let a = make().layout(&regions);
    let b = make().layout(&regions);
    assert_eq!(a, b);
}

#[test]
fn more_children_than_cells_add_rows() {
    // Three children in two columns need two rows.
    let node = grid(
        Axes::new(vec![TrackSizing::Auto, TrackSizing::Auto], vec![]),
        no_gutter(),
        vec![
            PackedNode::sized(Size::new(10, 10)),
            PackedNode::sized(Size::new(10, 10)),
            PackedNode::sized(Size::new(10, 15)),
        ],
    );
    let regions = Regions::one(Size::new(100, 100), Size::new(100, 100), no_expand());
    let out = node.layout(&regions);
    assert_eq!(out.len(), 1);
    assert_eq!(out[0].item.size.y, 25);
}
