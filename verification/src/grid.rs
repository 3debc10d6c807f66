//! The grid layouter: children arranged into two-dimensional tracks.
//!
//! Content and gutter tracks are interleaved into one list per axis.
//! Columns are sized once globally — linear columns by resolution, automatic
//! columns by measuring their cells, fractional columns from the leftover —
//! and rows are then laid out one by one, breaking into further regions as
//! they run out of room.

use vstd::prelude::*;
use crate::constraints::{Constraints, cts_new};
use crate::frame::{Constrained, ConstrainedV, Frame, FrameItemV, FrameV, merged_frame_items, pushed_frame_items};
use crate::geom::{Axes, Fraction, Linear, Point, Size, lin_resolve};
use crate::node::{PackedNode, PackedNodeV, node_frames, node_heights, node_first_width};
use crate::num::{INF, add_l, add_w, fr_share, max_l, min_l, sub_l, sub_w, len_add, len_max, len_min, len_sub, weight_add, weight_sub, fr_part, lemma_fr_share_le_space, lemma_fr_share_full};
use crate::regions::{Regions, RegionsV, regions_is_full, regions_in_last, regions_next, region_nth_y};

verus! {

/// How to size a grid cell along one axis.
#[derive(Debug, Copy, Clone, Eq, PartialEq, Structural)]
pub enum TrackSizing {
    /// Fit the track to its contents.
    Auto,
    /// An absolute length, possibly relative to the base size.
    Linear(Linear),
    /// A share of the remaining space in the region.
    Fractional(Fraction),
}

/// A node that arranges its children in a grid.
pub struct GridNode {
    /// Sizing for content columns and rows.
    pub tracks: Axes<Vec<TrackSizing>>,
    /// Sizing for the gutter tracks between content tracks.
    pub gutter: Axes<Vec<TrackSizing>>,
    /// The nodes to arrange, row-major.
    pub children: Vec<PackedNode>,
}

#[verifier::ext_equal]
pub ghost struct GridNodeV {
    pub tracks: Axes<Seq<TrackSizing>>,
    pub gutter: Axes<Seq<TrackSizing>>,
    pub children: Seq<PackedNodeV>,
}

impl View for GridNode {
    type V = GridNodeV;

    open spec fn view(&self) -> GridNodeV {
        GridNodeV {
            tracks: Axes { x: self.tracks.x@, y: self.tracks.y@ },
            gutter: Axes { x: self.gutter.x@, y: self.gutter.y@ },
            children: self.children@.map_values(|n: PackedNode| n@),
        }
    }
}

/// `grid`: arrange the given children into a grid with the given tracks.
pub fn grid(tracks: Axes<Vec<TrackSizing>>, gutter: Axes<Vec<TrackSizing>>, children: Vec<PackedNode>) -> (r: GridNode)
    ensures
        r@ == (GridNodeV {
            tracks: Axes { x: tracks.x@, y: tracks.y@ },
            gutter: Axes { x: gutter.x@, y: gutter.y@ },
            children: children@.map_values(|n: PackedNode| n@),
        }),
{
    GridNode { tracks, gutter, children }
}

/// A row's layout result before its region is finished: automatic and
/// linear rows are finished frames, fractional rows wait for the leftover.
pub enum Row {
    /// A finished frame of an automatic or linear row.
    Frame(Frame),
    /// The weight of a fractional row and the row's track index.
    Fr(Fraction, usize),
}

pub ghost enum RowV {
    Frame(FrameV),
    Fr(Fraction, int),
}

impl View for Row {
    type V = RowV;

    open spec fn view(&self) -> RowV {
        match self {
            Row::Frame(f) => RowV::Frame(f@),
            Row::Fr(v, y) => RowV::Fr(*v, *y as int),
        }
    }
}

/// The full state of a grid layout in progress. The children are not part
/// of the state; they are handed to each step alongside it.
#[verifier::ext_equal]
pub ghost struct GridStateV {
    pub expand: Axes<bool>,
    pub cols: Seq<TrackSizing>,
    pub rows: Seq<TrackSizing>,
    pub regions: RegionsV,
    pub rcols: Seq<i64>,
    pub full: i64,
    pub used: Size,
    pub fr: u64,
    pub lrows: Seq<RowV>,
    pub cts: Constraints,
    pub finished: Seq<ConstrainedV>,
}

/// A zero-sized gutter track, the default where none is given.
pub open spec fn zero_gutter() -> TrackSizing {
    TrackSizing::Linear(Linear { abs: 0, rel: 0 })
}

/// The track at `idx`, repeating the last given entry, or the default
/// where none is given at all.
pub open spec fn track_get(tracks: Seq<TrackSizing>, idx: int, default: TrackSizing) -> TrackSizing {
    if 0 <= idx < tracks.len() {
        tracks[idx]
    } else if tracks.len() > 0 {
        tracks.last()
    } else {
        default
    }
}

/// `n` content tracks interleaved with gutter tracks, the trailing gutter
/// trimmed: content at even indices, gutter at odd ones.
pub open spec fn interleave(
    content: Seq<TrackSizing>,
    gutter: Seq<TrackSizing>,
    n: int,
    cdef: TrackSizing,
) -> Seq<TrackSizing> {
    if n <= 0 {
        Seq::empty()
    } else {
        Seq::new((2 * n - 1) as nat, |i: int|
            if i % 2 == 0 {
                track_get(content, i / 2, cdef)
            } else {
                track_get(gutter, i / 2, zero_gutter())
            })
    }
}

/// The number of content columns: always at least one.
pub open spec fn content_cols(g: GridNodeV) -> int {
    if g.tracks.x.len() >= 1 {
        g.tracks.x.len() as int
    } else {
        1
    }
}

/// The number of content rows: as many as given, and at least as many as
/// needed to place every child.
pub open spec fn content_rows(g: GridNodeV) -> int {
    let c = content_cols(g);
    let len = g.children.len() as int;
    let needed = len / c + if len % c > 0 {
        1int
    } else {
        0int
    };
    if g.tracks.y.len() >= needed {
        g.tracks.y.len() as int
    } else {
        needed
    }
}

pub open spec fn grid_cols(g: GridNodeV) -> Seq<TrackSizing> {
    interleave(g.tracks.x, g.gutter.x, content_cols(g), TrackSizing::Auto)
}

pub open spec fn grid_rows(g: GridNodeV) -> Seq<TrackSizing> {
    interleave(g.tracks.y, g.gutter.y, content_rows(g), TrackSizing::Auto)
}

/// The starting state: tracks interleaved, column sizes zeroed, horizontal
/// expansion enabled on the working regions for row measurement.
pub open spec fn grid_init(g: GridNodeV, regions: RegionsV) -> GridStateV {
    GridStateV {
        expand: regions.expand,
        cols: grid_cols(g),
        rows: grid_rows(g),
        regions: RegionsV { expand: Axes { x: true, y: false }, ..regions },
        rcols: Seq::new(grid_cols(g).len(), |i: int| 0i64),
        full: regions.current.y,
        used: Size { x: 0, y: 0 },
        fr: 0,
        lrows: Seq::empty(),
        cts: cts_new(regions.expand),
        finished: Seq::empty(),
    }
}

/// The number of content columns in an interleaved track list.
pub open spec fn n_content_cols(cols_len: int) -> int {
    1 + cols_len / 2
}

/// The node in the cell at column `x` and row `y` of the interleaved
/// lists; nothing at gutter positions or past the children.
pub open spec fn grid_cell(children: Seq<PackedNodeV>, cols_len: int, x: int, y: int) -> Option<
    PackedNodeV,
> {
    if x % 2 == 0 && y % 2 == 0 {
        let idx = (y / 2) * n_content_cols(cols_len) + x / 2;
        if 0 <= idx < children.len() {
            Some(children[idx])
        } else {
            None
        }
    } else {
        None
    }
}

/// Sum of resolved sizes of the linear tracks alone.
pub open spec fn lin_sum(cols: Seq<TrackSizing>, base_x: i64) -> i64
    decreases cols.len(),
{
    if cols.len() == 0 {
        0
    } else {
        let rest = lin_sum(cols.drop_last(), base_x);
        match cols.last() {
            TrackSizing::Linear(v) => add_l(rest, lin_resolve(v, base_x)),
            _ => rest,
        }
    }
}

/// Sum of the weights of the fractional tracks.
pub open spec fn fr_total(cols: Seq<TrackSizing>) -> u64
    decreases cols.len(),
{
    if cols.len() == 0 {
        0
    } else {
        let rest = fr_total(cols.drop_last());
        match cols.last() {
            TrackSizing::Fractional(f) => add_w(rest, f.0 as u64),
            _ => rest,
        }
    }
}

/// Whether any track is automatic or fractional, so that the region size
/// can influence the sizing at all.
pub open spec fn has_flex(cols: Seq<TrackSizing>) -> bool {
    exists|i: int| 0 <= i < cols.len() && (cols[i] is Auto || cols[i] is Fractional)
}

/// The number of automatic tracks.
pub open spec fn auto_count(cols: Seq<TrackSizing>) -> int
    decreases cols.len(),
{
    if cols.len() == 0 {
        0
    } else {
        auto_count(cols.drop_last()) + if cols.last() is Auto {
            1int
        } else {
            0int
        }
    }
}

/// Column sizes after resolving the linear tracks; all else keeps its
/// previous value.
pub open spec fn rcols_linear(cols: Seq<TrackSizing>, base_x: i64, rcols: Seq<i64>) -> Seq<i64> {
    Seq::new(rcols.len(), |i: int|
        match cols[i] {
            TrackSizing::Linear(v) => lin_resolve(v, base_x),
            _ => rcols[i],
        })
}

/// The measured width of one automatic column: the widest first frame
/// among the cells of the first `rows_len` rows in that column.
pub open spec fn auto_col_width(children: Seq<PackedNodeV>, cols_len: int, rows_len: int, x: int) -> i64
    decreases rows_len,
{
    if rows_len <= 0 {
        0
    } else {
        let rest = auto_col_width(children, cols_len, rows_len - 1, x);
        match grid_cell(children, cols_len, x, rows_len - 1) {
            Some(n) => max_l(rest, node_first_width(n)),
            None => rest,
        }
    }
}

/// Column sizes with each automatic column set to its measured width.
pub open spec fn rcols_auto(
    children: Seq<PackedNodeV>,
    cols: Seq<TrackSizing>,
    rows_len: int,
    rcols: Seq<i64>,
) -> Seq<i64> {
    Seq::new(rcols.len(), |i: int|
        if cols[i] is Auto {
            auto_col_width(children, cols.len() as int, rows_len, i)
        } else {
            rcols[i]
        })
}

/// Sum of the measured widths of the first `k` columns that are automatic.
pub open spec fn auto_sum_to(children: Seq<PackedNodeV>, cols: Seq<TrackSizing>, rows_len: int, k: int) -> i64
    decreases k,
{
    if k <= 0 {
        0
    } else {
        let rest = auto_sum_to(children, cols, rows_len, k - 1);
        if 0 <= k - 1 < cols.len() && cols[k - 1] is Auto {
            add_l(rest, auto_col_width(children, cols.len() as int, rows_len, k - 1))
        } else {
            rest
        }
    }
}

/// Saturating sum of a sequence of lengths.
pub open spec fn rcols_sum(rcols: Seq<i64>) -> i64
    decreases rcols.len(),
{
    if rcols.len() == 0 {
        0
    } else {
        add_l(rcols_sum(rcols.drop_last()), rcols.last())
    }
}

/// Distribute `rem_space` to the fractional columns from index `i` on, each
/// share carved out of what is still undistributed so that the whole space
/// is handed out exactly.
pub open spec fn grow_fr_from(
    cols: Seq<TrackSizing>,
    rcols: Seq<i64>,
    i: int,
    rem_space: i64,
    rem_weight: u64,
) -> Seq<i64>
    decreases cols.len() - i,
{
    if i < 0 || i >= cols.len() {
        rcols
    } else {
        match cols[i] {
            TrackSizing::Fractional(f) => {
                let share = fr_share(f.0 as u64, rem_weight, rem_space);
                grow_fr_from(
                    cols,
                    rcols.update(i, share),
                    i + 1,
                    sub_l(rem_space, share),
                    sub_w(rem_weight, f.0 as u64),
                )
            },
            _ => grow_fr_from(cols, rcols, i + 1, rem_space, rem_weight),
        }
    }
}

/// The fair share of one automatic column.
pub open spec fn fair_of(available: i64, count: int) -> i64 {
    ((available as int) / count) as i64
}

/// The number of automatic columns over the fair share among the first `k`.
pub open spec fn overlarge_to(cols: Seq<TrackSizing>, rcols: Seq<i64>, fair: i64, k: int) -> int
    decreases k,
{
    if k <= 0 {
        0
    } else {
        overlarge_to(cols, rcols, fair, k - 1) + if 0 <= k - 1 < cols.len() && cols[k - 1] is Auto
            && rcols[k - 1] > fair {
            1int
        } else {
            0int
        }
    }
}

/// The space left to redistribute once the automatic columns at or below
/// the fair share keep their measured width.
pub open spec fn redistribute_to(
    cols: Seq<TrackSizing>,
    rcols: Seq<i64>,
    fair: i64,
    available: i64,
    k: int,
) -> i64
    decreases k,
{
    if k <= 0 {
        available
    } else {
        let rest = redistribute_to(cols, rcols, fair, available, k - 1);
        if 0 <= k - 1 < cols.len() && cols[k - 1] is Auto && !(rcols[k - 1] > fair) {
            sub_l(rest, rcols[k - 1])
        } else {
            rest
        }
    }
}

/// Hand the redistributed space to the overlarge columns from `i` on, in
/// equal shares carved from what is left.
pub open spec fn shrink_from(
    cols: Seq<TrackSizing>,
    rcols: Seq<i64>,
    fair: i64,
    i: int,
    rem_space: i64,
    rem_count: u64,
) -> Seq<i64>
    decreases cols.len() - i,
{
    if i < 0 || i >= cols.len() {
        rcols
    } else if cols[i] is Auto && rcols[i] > fair {
        let share = fr_share(1, rem_count, rem_space);
        shrink_from(cols, rcols.update(i, share), fair, i + 1, sub_l(rem_space, share), sub_w(rem_count, 1))
    } else {
        shrink_from(cols, rcols, fair, i + 1, rem_space, rem_count)
    }
}

/// Shrink the automatic columns to a fair share of the available space:
/// columns at or below the fair share are unchanged, the rest split what
/// remains equally. Nothing happens without an overlarge column.
pub open spec fn shrink_result(cols: Seq<TrackSizing>, rcols: Seq<i64>, available: i64) -> Seq<i64> {
    let count = auto_count(cols);
    if count == 0 {
        rcols
    } else {
        let fair = fair_of(available, count);
        let k = overlarge_to(cols, rcols, fair, cols.len() as int);
        if k == 0 {
            rcols
        } else {
            let redistribute = redistribute_to(cols, rcols, fair, available, cols.len() as int);
            shrink_from(cols, rcols, fair, 0, redistribute, k as u64)
        }
    }
}

/// Put measured columns into the state: the used width is their sum.
pub open spec fn grid_measured(s: GridStateV, rcols: Seq<i64>, cts: Constraints) -> GridStateV {
    GridStateV { rcols, used: Size { x: rcols_sum(rcols), y: s.used.y }, cts, ..s }
}

/// The column-measurement result: resolved column sizes, their sum as the
/// used width, and a width constraint for the case that applied — nothing
/// for purely linear columns, a minimum when flexible columns fit, an
/// exact width when they fill it or shrink, a maximum on overflow.
pub open spec fn grid_measure(s: GridStateV, children: Seq<PackedNodeV>) -> GridStateV {
    let base_x = s.regions.base.x;
    let linear = lin_sum(s.cols, base_x);
    let fr = fr_total(s.cols);
    let flex = has_flex(s.cols);
    let rcols1 = rcols_linear(s.cols, base_x, s.rcols);
    let available = sub_l(s.regions.current.x, linear);
    let cts0 = Constraints {
        base: Axes { x: Some(s.regions.base.x), y: Some(s.regions.base.y) },
        ..s.cts
    };
    if available >= 0 {
        let rcols2 = rcols_auto(children, s.cols, s.rows.len() as int, rcols1);
        let auto = auto_sum_to(children, s.cols, s.rows.len() as int, s.cols.len() as int);
        let remaining = sub_l(available, auto);
        if remaining >= 0 {
            if fr > 0 {
                let rcols3 = grow_fr_from(s.cols, rcols2, 0, remaining, fr);
                let cts = Constraints {
                    exact: Axes { x: Some(s.regions.current.x), y: cts0.exact.y },
                    ..cts0
                };
                grid_measured(s, rcols3, cts)
            } else if flex {
                let cts = Constraints {
                    min: Axes { x: Some(rcols_sum(rcols2)), y: cts0.min.y },
                    ..cts0
                };
                grid_measured(s, rcols2, cts)
            } else {
                grid_measured(s, rcols2, cts0)
            }
        } else {
            let rcols3 = shrink_result(s.cols, rcols2, available);
            let cts = Constraints {
                exact: Axes { x: Some(s.regions.current.x), y: cts0.exact.y },
                ..cts0
            };
            grid_measured(s, rcols3, cts)
        }
    } else if flex {
        let cts = Constraints { max: Axes { x: Some(linear), y: cts0.max.y }, ..cts0 };
        grid_measured(s, rcols1, cts)
    } else {
        grid_measured(s, rcols1, cts0)
    }
}

/// Performs grid layout.
pub struct GridLayouter {
    /// Whether the grid should expand to fill the region.
    expand: Axes<bool>,
    /// The column tracks, gutter tracks included.
    cols: Vec<TrackSizing>,
    /// The row tracks, gutter tracks included.
    rows: Vec<TrackSizing>,
    /// The regions to lay rows into.
    regions: Regions,
    /// Resolved column sizes.
    rcols: Vec<i64>,
    /// The full height of the current region.
    full: i64,
    /// The used size of the current region; the width is fixed once columns
    /// are measured.
    used: Size,
    /// The sum of fractional row weights in the current region.
    fr: u64,
    /// Rows finished or queued in the current region.
    lrows: Vec<Row>,
    /// Constraints for the active region.
    cts: Constraints,
    /// Frames of finished regions.
    finished: Vec<Constrained>,
}

impl View for GridLayouter {
    type V = GridStateV;

    closed spec fn view(&self) -> GridStateV {
        GridStateV {
            expand: self.expand,
            cols: self.cols@,
            rows: self.rows@,
            regions: self.regions@,
            rcols: self.rcols@,
            full: self.full,
            used: self.used,
            fr: self.fr,
            lrows: self.lrows@.map_values(|r: Row| r@),
            cts: self.cts,
            finished: self.finished@.map_values(|c: Constrained| c@),
        }
    }
}

fn interleave_tracks(content: &Vec<TrackSizing>, gutter: &Vec<TrackSizing>, n: usize, cdef: TrackSizing) -> (r: Vec<TrackSizing>)
    requires
        n >= 1,
    ensures
        r@ == interleave(content@, gutter@, n as int, cdef),
{
    let mut r: Vec<TrackSizing> = Vec::new();
    let zero = TrackSizing::Linear(Linear::zero());
    let mut i: usize = 0;
    while i < n
        invariant
            i <= n,
            zero == zero_gutter(),
            r@.len() == 2 * i,
            forall|j: int|
                0 <= j < 2 * i && j < 2 * (n as int) - 1 ==> r@[j] == #[trigger] interleave(
                    content@,
                    gutter@,
                    n as int,
                    cdef,
                )[j],
        decreases n - i,
    {
        let c = if i < content.len() {
            content[i]
        } else if content.len() > 0 {
            content[content.len() - 1]
        } else {
            cdef
        };
        let g = if i < gutter.len() {
            gutter[i]
        } else if gutter.len() > 0 {
            gutter[gutter.len() - 1]
        } else {
            zero
        };
        r.push(c);
        r.push(g);
        proof {
            assert((2 * i as int) / 2 == i as int);
            assert((2 * i + 1 as int) / 2 == i as int);
            assert(r@[2 * i as int] == track_get(content@, i as int, cdef));
            if i < n - 1 {
                assert(r@[2 * i + 1] == track_get(gutter@, i as int, zero_gutter()));
            }
        }
        i = i + 1;
    }
    let _ = r.pop();
    proof {
        assert(r@ =~= interleave(content@, gutter@, n as int, cdef));
    }
    r
}

impl GridLayouter {
    /// Prepare a grid layout by interleaving content and gutter tracks.
    pub fn new(grid: &GridNode, regions: Regions) -> (l: GridLayouter)
        ensures
            l@ == grid_init(grid@, regions@),
    {
        let ghost orig = regions@;
        let c: usize = if grid.tracks.x.len() >= 1 {
            grid.tracks.x.len()
        } else {
            1
        };
        let len = grid.children.len();
        let rem: usize = len % c;
        let quot: usize = len / c;
        let needed: usize = if rem > 0 {
            proof {
                assert(quot < usize::MAX) by (nonlinear_arith)
                    requires
                        quot == len as int / c as int,
                        rem == len as int % c as int,
                        rem > 0,
                        c >= 1,
                        len <= usize::MAX,
                ;
            }
            quot + 1
        } else {
            quot
        };
        let r: usize = if grid.tracks.y.len() >= needed {
            grid.tracks.y.len()
        } else {
            needed
        };
        let cols = interleave_tracks(&grid.tracks.x, &grid.gutter.x, c, TrackSizing::Auto);
        let rows = if r >= 1 {
            interleave_tracks(&grid.tracks.y, &grid.gutter.y, r, TrackSizing::Auto)
        } else {
            Vec::new()
        };
        let mut rcols: Vec<i64> = Vec::new();
        let mut i: usize = 0;
        while i < cols.len()
            invariant
                i <= cols@.len(),
                rcols@.len() == i,
                forall|j: int| 0 <= j < i ==> rcols@[j] == 0i64,
            decreases cols.len() - i,
        {
            rcols.push(0);
            i = i + 1;
        }
        let expand = regions.expand;
        let full = regions.current.y;
        let mut inner = regions;
        inner.expand = Axes::new(true, false);
        let l = GridLayouter {
            expand,
            cols,
            rows,
            regions: inner,
            rcols,
            full,
            used: Size::zero(),
            fr: 0,
            lrows: Vec::new(),
            cts: Constraints::new(expand),
            finished: Vec::new(),
        };
        proof {
            assert(c as int == content_cols(grid@));
            assert(r as int == content_rows(grid@));
            assert(l@.rows =~= grid_rows(grid@));
            assert(l@.rcols =~= Seq::new(grid_cols(grid@).len(), |i: int| 0i64));
            assert(l@ =~= grid_init(grid@, orig));
        }
        l
    }

    /// The node in the cell at column `x` and row `y`; nothing at gutter
    /// positions or past the children.
    fn cell<'a>(&self, children: &'a Vec<PackedNode>, x: usize, y: usize) -> (r: Option<
        &'a PackedNode,
    >)
        ensures
            match r {
                Some(n) => grid_cell(
                    children@.map_values(|n: PackedNode| n@),
                    self@.cols.len() as int,
                    x as int,
                    y as int,
                ) == Some(n@),
                None => grid_cell(
                    children@.map_values(|n: PackedNode| n@),
                    self@.cols.len() as int,
                    x as int,
                    y as int,
                ) is None,
            },
    {
        if x % 2 == 0 && y % 2 == 0 {
            let yy: usize = y / 2;
            let xx: usize = x / 2;
            let c: usize = 1 + self.cols.len() / 2;
            proof {
                assert((yy as u128) * (c as u128) + (xx as u128) < u128::MAX) by (nonlinear_arith)
                    requires
                        yy as u128 <= u64::MAX as u128,
                        c as u128 <= u64::MAX as u128,
                        xx as u128 <= u64::MAX as u128,
                ;
            }
            let idx: u128 = (yy as u128) * (c as u128) + (xx as u128);
            proof {
                assert(idx as int == (y as int / 2) * n_content_cols(self@.cols.len() as int)
                    + x as int / 2) by (nonlinear_arith)
                    requires
                        idx as int == (yy as int) * (c as int) + xx as int,
                        c as int == 1 + (self@.cols.len() as int) / 2,
                        yy as int == y as int / 2,
                        xx as int == x as int / 2,
                ;
            }
            if idx < children.len() as u128 {
                let iu: usize = idx as usize;
                Some(&children[iu])
            } else {
                None
            }
        } else {
            None
        }
    }

    /// Sum up the resolved column sizes.
    fn sum_rcols(&self) -> (s: i64)
        ensures
            s == rcols_sum(self@.rcols),
    {
        let mut s: i64 = 0;
        let mut i: usize = 0;
        while i < self.rcols.len()
            invariant
                i <= self.rcols@.len(),
                s == rcols_sum(self.rcols@.take(i as int)),
            decreases self.rcols.len() - i,
        {
            let ghost pre = self.rcols@.take(i as int);
            s = len_add(s, self.rcols[i]);
            proof {
                assert(self.rcols@.take(i + 1 as int).drop_last() =~= pre);
                assert(self.rcols@.take(i + 1 as int).last() == self.rcols@[i as int]);
            }
            i = i + 1;
        }
        proof {
            assert(self.rcols@.take(self.rcols@.len() as int) =~= self.rcols@);
        }
        s
    }

    /// Measure the automatic columns by laying out their cells, and report
    /// their total width and count.
    fn measure_auto_columns(&mut self, children: &Vec<PackedNode>) -> (r: (i64, usize))
        requires
            old(self)@.rcols.len() == old(self)@.cols.len(),
        ensures
            final(self)@ == (GridStateV {
                rcols: rcols_auto(
                    children@.map_values(|n: PackedNode| n@),
                    old(self)@.cols,
                    old(self)@.rows.len() as int,
                    old(self)@.rcols,
                ),
                ..old(self)@
            }),
            r.0 == auto_sum_to(
                children@.map_values(|n: PackedNode| n@),
                old(self)@.cols,
                old(self)@.rows.len() as int,
                old(self)@.cols.len() as int,
            ),
            r.1 as int == auto_count(old(self)@.cols),
    {
        let ghost cv = children@.map_values(|n: PackedNode| n@);
        let ghost rows_len = self@.rows.len() as int;
        let mut auto: i64 = 0;
        let mut count: usize = 0;
        let mut x: usize = 0;
        while x < self.cols.len()
            invariant
                x <= self.cols@.len(),
                self.rcols@.len() == self.cols@.len(),
                old(self)@.rcols.len() == self.cols@.len(),
                cv == children@.map_values(|n: PackedNode| n@),
                rows_len == self.rows@.len() as int,
                auto == auto_sum_to(cv, self.cols@, rows_len, x as int),
                count as int == auto_count(self.cols@.take(x as int)),
                count <= x,
                forall|j: int|
                    0 <= j < x ==> self.rcols@[j] == #[trigger] rcols_auto(
                        cv,
                        self.cols@,
                        rows_len,
                        old(self)@.rcols,
                    )[j],
                forall|j: int|
                    x <= j < self.rcols@.len() ==> self.rcols@[j] == old(self)@.rcols[j],
                self.cols@ == old(self)@.cols,
                self.rows@ == old(self)@.rows,
                self.expand == old(self)@.expand,
                self.regions@ == old(self)@.regions,
                self.full == old(self)@.full,
                self.used == old(self)@.used,
                self.fr == old(self)@.fr,
                self.lrows@.map_values(|r: Row| r@) == old(self)@.lrows,
                self.cts == old(self)@.cts,
                self.finished@.map_values(|cc: Constrained| cc@) == old(self)@.finished,
            decreases self.cols.len() - x,
        {
            let ghost pre_cols = self.cols@.take(x as int);
            let is_auto = match self.cols[x] {
                TrackSizing::Auto => true,
                _ => false,
            };
            if is_auto {
                let mut resolved: i64 = 0;
                let mut y: usize = 0;
                while y < self.rows.len()
                    invariant
                        y <= self.rows@.len(),
                        cv == children@.map_values(|n: PackedNode| n@),
                        x < self.cols@.len(),
                        resolved == auto_col_width(cv, self.cols@.len() as int, y as int, x as int),
                    decreases self.rows.len() - y,
                {
                    match self.cell(children, x, y) {
                        Some(node) => {
                            let frames = node.layout();
                            let w: i64 = if frames.len() > 0 {
                                let ghost fv = frames@.map_values(|f: Frame| f@);
                                proof {
                                    assert(fv[0] == node_frames(node@)[0]);
                                }
                                frames[0].size.x
                            } else {
                                0
                            };
                            proof {
                                assert(w == node_first_width(node@));
                            }
                            resolved = len_max(resolved, w);
                        },
                        None => {},
                    }
                    y = y + 1;
                }
                self.rcols[x] = resolved;
                auto = len_add(auto, resolved);
                count = count + 1;
            }
            proof {
                assert(self.cols@.take(x + 1 as int).drop_last() =~= pre_cols);
                assert(self.cols@.take(x + 1 as int).last() == self.cols@[x as int]);
                assert forall|j: int| 0 <= j < x + 1 implies self.rcols@[j]
                    == #[trigger] rcols_auto(cv, self.cols@, rows_len, old(self)@.rcols)[j] by {
                    if j == x {
                        assert(rcols_auto(cv, self.cols@, rows_len, old(self)@.rcols)[j]
                            == if self.cols@[j] is Auto {
                                auto_col_width(cv, self.cols@.len() as int, rows_len, j)
                            } else {
                                old(self)@.rcols[j]
                            });
                    }
                }
            }
            x = x + 1;
        }
        proof {
            assert(self.cols@.take(self.cols@.len() as int) =~= self.cols@);
            assert(self.rcols@ =~= rcols_auto(cv, old(self)@.cols, rows_len, old(self)@.rcols));
            assert(self@ =~= (GridStateV {
                rcols: rcols_auto(cv, old(self)@.cols, rows_len, old(self)@.rcols),
                ..old(self)@
            }));
        }
        (auto, count)
    }

    /// Distribute the remaining space to the fractional columns.
    fn grow_fractional_columns(&mut self, remaining: i64, fr: u64)
        requires
            old(self)@.rcols.len() == old(self)@.cols.len(),
        ensures
            final(self)@ == (GridStateV {
                rcols: grow_fr_from(old(self)@.cols, old(self)@.rcols, 0, remaining, fr),
                ..old(self)@
            }),
    {
        let ghost target = grow_fr_from(self@.cols, self@.rcols, 0, remaining, fr);
        let mut rem_space = remaining;
        let mut rem_weight = fr;
        let mut i: usize = 0;
        while i < self.cols.len()
            invariant
                i <= self.cols@.len(),
                self.rcols@.len() == self.cols@.len(),
                grow_fr_from(self.cols@, self.rcols@, i as int, rem_space, rem_weight) == target,
                self.cols@ == old(self)@.cols,
                self.rows@ == old(self)@.rows,
                self.expand == old(self)@.expand,
                self.regions@ == old(self)@.regions,
                self.full == old(self)@.full,
                self.used == old(self)@.used,
                self.fr == old(self)@.fr,
                self.lrows@.map_values(|r: Row| r@) == old(self)@.lrows,
                self.cts == old(self)@.cts,
                self.finished@.map_values(|cc: Constrained| cc@) == old(self)@.finished,
            decreases self.cols.len() - i,
        {
            match self.cols[i] {
                TrackSizing::Fractional(f) => {
                    let share = fr_part(f.weight(), rem_weight, rem_space);
                    self.rcols[i] = share;
                    rem_space = len_sub(rem_space, share);
                    rem_weight = weight_sub(rem_weight, f.weight());
                },
                _ => {},
            }
            i = i + 1;
        }
        proof {
            assert(self@ =~= (GridStateV { rcols: target, ..old(self)@ }));
        }
    }

    /// Redistribute space so that each automatic column gets a fair share.
    fn shrink_auto_columns(&mut self, available: i64, count: usize)
        requires
            old(self)@.rcols.len() == old(self)@.cols.len(),
            available >= 0,
            count as int == auto_count(old(self)@.cols),
        ensures
            final(self)@ == (GridStateV {
                rcols: shrink_result(old(self)@.cols, old(self)@.rcols, available),
                ..old(self)@
            }),
    {
        if count == 0 {
            return;
        }
        let fair: i64 = ((available as u64) / (count as u64)) as i64;
        proof {
            assert(fair == fair_of(available, count as int));
        }

        // Find the number of overlarge columns and the space that will be
        // redistributed to them.
        let mut overlarge: usize = 0;
        let mut redistribute: i64 = available;
        let mut i: usize = 0;
        while i < self.cols.len()
            invariant
                i <= self.cols@.len(),
                self.rcols@.len() == self.cols@.len(),
                overlarge <= i,
                overlarge as int == overlarge_to(self.cols@, self.rcols@, fair, i as int),
                redistribute == redistribute_to(self.cols@, self.rcols@, fair, available, i as int),
            decreases self.cols.len() - i,
        {
            let is_auto = match self.cols[i] {
                TrackSizing::Auto => true,
                _ => false,
            };
            if is_auto {
                if self.rcols[i] > fair {
                    overlarge = overlarge + 1;
                } else {
                    redistribute = len_sub(redistribute, self.rcols[i]);
                }
            }
            i = i + 1;
        }
        if overlarge == 0 {
            return;
        }

        // Redistribute the space equally among the overlarge columns.
        let ghost target = shrink_from(
            self@.cols,
            self@.rcols,
            fair,
            0,
            redistribute,
            overlarge as u64,
        );
        let mut rem_space = redistribute;
        let mut rem_count: u64 = overlarge as u64;
        let mut j: usize = 0;
        while j < self.cols.len()
            invariant
                j <= self.cols@.len(),
                self.rcols@.len() == self.cols@.len(),
                shrink_from(self.cols@, self.rcols@, fair, j as int, rem_space, rem_count) == target,
                self.cols@ == old(self)@.cols,
                self.rows@ == old(self)@.rows,
                self.expand == old(self)@.expand,
                self.regions@ == old(self)@.regions,
                self.full == old(self)@.full,
                self.used == old(self)@.used,
                self.fr == old(self)@.fr,
                self.lrows@.map_values(|r: Row| r@) == old(self)@.lrows,
                self.cts == old(self)@.cts,
                self.finished@.map_values(|cc: Constrained| cc@) == old(self)@.finished,
            decreases self.cols.len() - j,
        {
            let is_shrunk = match self.cols[j] {
                TrackSizing::Auto => self.rcols[j] > fair,
                _ => false,
            };
            if is_shrunk {
                let share = fr_part(1, rem_count, rem_space);
                self.rcols[j] = share;
                rem_space = len_sub(rem_space, share);
                rem_count = weight_sub(rem_count, 1);
            }
            j = j + 1;
        }
        proof {
            assert(self@ =~= (GridStateV { rcols: target, ..old(self)@ }));
        }
    }

    /// Determine the size of every column.
    pub fn measure_columns(&mut self, children: &Vec<PackedNode>)
        requires
            old(self)@.rcols.len() == old(self)@.cols.len(),
        ensures
            final(self)@ == grid_measure(old(self)@, children@.map_values(|n: PackedNode| n@)),
    {
        let ghost cv = children@.map_values(|n: PackedNode| n@);
        let base_x = self.regions.base.x;

        // Resolve linear tracks, sum fractional weights, and note whether
        // any flexible track exists.
        let mut linear: i64 = 0;
        let mut fr: u64 = 0;
        let mut fitting: bool = false;
        let mut i: usize = 0;
        while i < self.cols.len()
            invariant
                i <= self.cols@.len(),
                self.rcols@.len() == self.cols@.len(),
                old(self)@.rcols.len() == self.cols@.len(),
                base_x == self.regions@.base.x,
                linear == lin_sum(self.cols@.take(i as int), base_x),
                fr == fr_total(self.cols@.take(i as int)),
                fitting == has_flex(self.cols@.take(i as int)),
                forall|j: int|
                    0 <= j < i ==> self.rcols@[j] == #[trigger] rcols_linear(
                        self.cols@,
                        base_x,
                        old(self)@.rcols,
                    )[j],
                forall|j: int| i <= j < self.rcols@.len() ==> self.rcols@[j] == old(self)@.rcols[j],
                self.cols@ == old(self)@.cols,
                self.rows@ == old(self)@.rows,
                self.expand == old(self)@.expand,
                self.regions@ == old(self)@.regions,
                self.full == old(self)@.full,
                self.used == old(self)@.used,
                self.fr == old(self)@.fr,
                self.lrows@.map_values(|r: Row| r@) == old(self)@.lrows,
                self.cts == old(self)@.cts,
                self.finished@.map_values(|cc: Constrained| cc@) == old(self)@.finished,
            decreases self.cols.len() - i,
        {
            let ghost pre = self.cols@.take(i as int);
            match self.cols[i] {
                TrackSizing::Auto => {
                    fitting = true;
                },
                TrackSizing::Linear(v) => {
                    let resolved = v.resolve(base_x);
                    self.rcols[i] = resolved;
                    linear = len_add(linear, resolved);
                },
                TrackSizing::Fractional(f) => {
                    fitting = true;
                    fr = weight_add(fr, f.weight());
                },
            }
            proof {
                assert(self.cols@.take(i + 1 as int).drop_last() =~= pre);
                assert(self.cols@.take(i + 1 as int).last() == self.cols@[i as int]);
                assert(has_flex(self.cols@.take(i + 1 as int)) == (has_flex(pre) || (
                self.cols@[i as int] is Auto || self.cols@[i as int] is Fractional))) by {
                    let post = self.cols@.take(i + 1 as int);
                    if has_flex(pre) {
                        let w = choose|w: int|
                            0 <= w < pre.len() && (pre[w] is Auto || pre[w] is Fractional);
                        assert(post[w] is Auto || post[w] is Fractional);
                    }
                    if self.cols@[i as int] is Auto || self.cols@[i as int] is Fractional {
                        assert(post[i as int] is Auto || post[i as int] is Fractional);
                    }
                    if has_flex(post) {
                        let w = choose|w: int|
                            0 <= w < post.len() && (post[w] is Auto || post[w] is Fractional);
                        if w < i {
                            assert(pre[w] is Auto || pre[w] is Fractional);
                        }
                    }
                }
                assert forall|j: int| 0 <= j < i + 1 implies self.rcols@[j]
                    == #[trigger] rcols_linear(self.cols@, base_x, old(self)@.rcols)[j] by {
                    if j == i {
                        assert(rcols_linear(self.cols@, base_x, old(self)@.rcols)[j]
                            == match self.cols@[j] {
                                TrackSizing::Linear(v) => lin_resolve(v, base_x),
                                _ => old(self)@.rcols[j],
                            });
                    }
                }
            }
            i = i + 1;
        }
        proof {
            assert(self.cols@.take(self.cols@.len() as int) =~= self.cols@);
            assert(self.rcols@ =~= rcols_linear(self.cols@, base_x, old(self)@.rcols));
        }

        // Record that children could depend on the base size.
        self.cts.base = Axes::new(Some(self.regions.base.x), Some(self.regions.base.y));

        // The space not used by fixed-size columns.
        let available = len_sub(self.regions.current.x, linear);
        if available >= 0 {
            let measured = self.measure_auto_columns(children);
            let auto = measured.0;
            let count = measured.1;
            let remaining = len_sub(available, auto);
            if remaining >= 0 {
                if fr > 0 {
                    self.grow_fractional_columns(remaining, fr);
                    self.cts.exact.x = Some(self.regions.current.x);
                } else if fitting {
                    let total = self.sum_rcols();
                    self.cts.min.x = Some(total);
                }
            } else {
                self.shrink_auto_columns(available, count);
                self.cts.exact.x = Some(self.regions.current.x);
            }
        } else if fitting {
            self.cts.max.x = Some(linear);
        }
        let total = self.sum_rcols();
        self.used.x = total;
        proof {
            assert(self@ =~= grid_measure(old(self)@, cv));
        }
    }
}

/// One row frame enters the current region: consume its height and queue it.
pub open spec fn grid_push_row(s: GridStateV, f: FrameV) -> GridStateV {
    GridStateV {
        regions: RegionsV {
            current: Size { x: s.regions.current.x, y: sub_l(s.regions.current.y, f.size.y) },
            ..s.regions
        },
        used: Size { x: s.used.x, y: add_l(s.used.y, f.size.y) },
        lrows: s.lrows.push(RowV::Frame(f)),
        ..s
    }
}

/// The items of one region's share of a row, taken from the first `k`
/// columns: each cell's frame for that region at the column's offset.
pub open spec fn region_row_items(
    children: Seq<PackedNodeV>,
    cols_len: int,
    rcols: Seq<i64>,
    y: int,
    region: int,
    k: int,
) -> Seq<FrameItemV>
    decreases k,
{
    if k <= 0 {
        Seq::empty()
    } else {
        let rest = region_row_items(children, cols_len, rcols, y, region, k - 1);
        let posx = rcols_sum(rcols.take(k - 1));
        match grid_cell(children, cols_len, k - 1, y) {
            Some(n) => if region < node_frames(n).len() {
                pushed_frame_items(rest, Point { x: posx, y: 0 }, node_frames(n)[region])
            } else {
                rest
            },
            None => rest,
        }
    }
}

/// A row of fixed height: each cell's first frame side by side.
pub open spec fn single_row_frame(
    children: Seq<PackedNodeV>,
    cols_len: int,
    rcols: Seq<i64>,
    used_x: i64,
    height: i64,
    y: int,
) -> FrameV {
    FrameV {
        size: Size { x: used_x, y: height },
        items: region_row_items(children, cols_len, rcols, y, 0, rcols.len() as int),
    }
}

/// The frames of a row spanning several regions, one per given height.
pub open spec fn multi_row_frames(
    children: Seq<PackedNodeV>,
    cols_len: int,
    rcols: Seq<i64>,
    used_x: i64,
    heights: Seq<i64>,
    y: int,
) -> Seq<FrameV> {
    Seq::new(heights.len(), |i: int| FrameV {
        size: Size { x: used_x, y: heights[i] },
        items: region_row_items(children, cols_len, rcols, y, i, rcols.len() as int),
    })
}

/// Pointwise maximum of two height lists, the longer tail kept.
pub open spec fn merge_heights(a: Seq<i64>, b: Seq<i64>) -> Seq<i64> {
    Seq::new(if a.len() >= b.len() {
        a.len()
    } else {
        b.len()
    }, |i: int|
        if i < a.len() && i < b.len() {
            max_l(a[i], b[i])
        } else if i < a.len() {
            a[i]
        } else {
            b[i]
        })
}

/// The heights an automatic row needs, one per region it spans: the
/// pointwise maximum over the frame heights of the cells in the first `k`
/// columns.
pub open spec fn row_heights(children: Seq<PackedNodeV>, cols_len: int, y: int, k: int) -> Seq<i64>
    decreases k,
{
    if k <= 0 {
        Seq::empty()
    } else {
        let rest = row_heights(children, cols_len, y, k - 1);
        match grid_cell(children, cols_len, k - 1, y) {
            Some(n) => merge_heights(rest, node_heights(n)),
            None => rest,
        }
    }
}

/// Heights widened to fill each region the row passes through, except the
/// last one, so the row visually fills the regions it crosses.
pub open spec fn expanded_heights(heights: Seq<i64>, regions: RegionsV) -> Seq<i64> {
    Seq::new(heights.len(), |i: int|
        if i < heights.len() - 1 {
            match region_nth_y(regions, i) {
                Some(ry) => max_l(heights[i], ry),
                None => heights[i],
            }
        } else {
            heights[i]
        })
}

/// Queue a multi-region row's frames in order, finishing the region
/// between two consecutive frames with an exact height constraint.
pub open spec fn push_rows_rest(s: GridStateV, children: Seq<PackedNodeV>, frames: Seq<FrameV>) -> GridStateV
    decreases frames.len(),
{
    if frames.len() == 0 {
        s
    } else if frames.len() == 1 {
        grid_push_row(s, frames[0])
    } else {
        let s1 = grid_push_row(s, frames[0]);
        let s2 = GridStateV {
            cts: Constraints { exact: Axes { x: s1.cts.exact.x, y: Some(s1.full) }, ..s1.cts },
            ..s1
        };
        push_rows_rest(grid_finish(s2, children), children, frames.drop_first())
    }
}

/// Lay out a row with automatic height, which may span several regions.
pub open spec fn grid_auto_row(s: GridStateV, children: Seq<PackedNodeV>, y: int) -> GridStateV {
    let heights = row_heights(children, s.cols.len() as int, y, s.rcols.len() as int);
    if heights.len() == 0 {
        s
    } else if heights.len() == 1 {
        grid_push_row(
            s,
            single_row_frame(children, s.cols.len() as int, s.rcols, s.used.x, heights[0], y),
        )
    } else {
        let hs = if s.fr == 0 {
            expanded_heights(heights, s.regions)
        } else {
            heights
        };
        push_rows_rest(
            s,
            children,
            multi_row_frames(children, s.cols.len() as int, s.rcols, s.used.x, hs, y),
        )
    }
}

/// How far the region sequence is from its last region, for termination of
/// the pagination loop.
pub open spec fn skip_measure(r: RegionsV) -> int {
    r.backlog.len() + if regions_in_last(r) {
        0int
    } else {
        1int
    }
}

/// Skip to a region that can hold the row: while the row does not fit and
/// a different region is still to come, finish the current region with a
/// maximum-height constraint. A gutter row never skips more than once and
/// is never queued; a content row is queued where it fits, or in the last
/// region regardless.
pub open spec fn grid_linear_skip(s: GridStateV, children: Seq<PackedNodeV>, frame: FrameV, y: int) -> GridStateV
    decreases skip_measure(s.regions),
{
    if s.regions.current.y >= frame.size.y || regions_in_last(s.regions) {
        grid_push_row(s, frame)
    } else {
        let s1 = GridStateV {
            cts: Constraints {
                max: Axes { x: s.cts.max.x, y: Some(add_l(s.used.y, frame.size.y)) },
                ..s.cts
            },
            ..s
        };
        let s2 = grid_finish(s1, children);
        if y % 2 == 1 {
            s2
        } else {
            grid_linear_skip(s2, children, frame, y)
        }
    }
}

/// Lay out a row with linear height: resolve it against the base, then
/// place it in the first region that fits.
pub open spec fn grid_linear_row(s: GridStateV, children: Seq<PackedNodeV>, v: Linear, y: int) -> GridStateV {
    let resolved = lin_resolve(v, s.regions.base.y);
    let frame = single_row_frame(children, s.cols.len() as int, s.rcols, s.used.x, resolved, y);
    grid_linear_skip(s, children, frame, y)
}

/// The state of placing queued rows while a region is finished.
#[verifier::ext_equal]
pub ghost struct GridPlaceV {
    pub pos_y: i64,
    pub rem_space: i64,
    pub rem_weight: u64,
    pub items: Seq<FrameItemV>,
}

/// Place one queued row: a finished frame merges at the running offset; a
/// fractional row is laid out now with its share of the leftover space.
pub open spec fn grid_place_row(p: GridPlaceV, row: RowV, s: GridStateV, children: Seq<PackedNodeV>) -> GridPlaceV {
    match row {
        RowV::Frame(f) => GridPlaceV {
            pos_y: add_l(p.pos_y, f.size.y),
            items: merged_frame_items(p.items, Point { x: 0, y: p.pos_y }, f),
            ..p
        },
        RowV::Fr(v, y) => {
            let share = fr_share(v.0 as u64, p.rem_weight, p.rem_space);
            let f = single_row_frame(children, s.cols.len() as int, s.rcols, s.used.x, share, y);
            GridPlaceV {
                pos_y: add_l(p.pos_y, f.size.y),
                rem_space: sub_l(p.rem_space, share),
                rem_weight: sub_w(p.rem_weight, v.0 as u64),
                items: merged_frame_items(p.items, Point { x: 0, y: p.pos_y }, f),
            }
        },
    }
}

pub open spec fn grid_place_rows(p: GridPlaceV, rows: Seq<RowV>, s: GridStateV, children: Seq<PackedNodeV>) -> GridPlaceV
    decreases rows.len(),
{
    if rows.len() == 0 {
        p
    } else {
        grid_place_rows(grid_place_row(p, rows[0], s, children), rows.drop_first(), s, children)
    }
}

/// Finish the current region: the frame fills the region vertically when
/// fractional rows are present and the region is bounded, else it takes
/// the used height with a minimum constraint; queued rows are placed in
/// order and fractional rows resolve their share of the leftover now.
pub open spec fn grid_finish(s: GridStateV, children: Seq<PackedNodeV>) -> GridStateV {
    let fr_active = s.fr > 0 && s.full != INF;
    let size = Size { x: s.used.x, y: if fr_active {
        s.full
    } else {
        s.used.y
    } };
    let cts1 = if fr_active {
        Constraints { exact: Axes { x: s.cts.exact.x, y: Some(s.full) }, ..s.cts }
    } else {
        Constraints { min: Axes { x: s.cts.min.x, y: Some(min_l(s.used.y, s.full)) }, ..s.cts }
    };
    let p0 = GridPlaceV {
        pos_y: 0,
        rem_space: sub_l(s.full, s.used.y),
        rem_weight: s.fr,
        items: Seq::empty(),
    };
    let p = grid_place_rows(p0, s.lrows, s, children);
    let frame = FrameV { size, items: p.items };
    let cts2 = Constraints {
        base: Axes { x: Some(s.regions.base.x), y: Some(s.regions.base.y) },
        ..cts1
    };
    let regions2 = regions_next(s.regions);
    GridStateV {
        regions: regions2,
        full: regions2.current.y,
        used: Size { x: s.used.x, y: 0 },
        fr: 0,
        lrows: Seq::empty(),
        cts: cts_new(s.expand),
        finished: s.finished.push(ConstrainedV { item: frame, cts: cts2 }),
        ..s
    }
}

/// Process one row track: finish the region first if it is already full —
/// for a content row only, never for a gutter row.
pub open spec fn grid_row_step(s: GridStateV, children: Seq<PackedNodeV>, rows: Seq<TrackSizing>, y: int) -> GridStateV {
    let s0 = if y % 2 == 0 && regions_is_full(s.regions) {
        grid_finish(s, children)
    } else {
        s
    };
    match rows[y] {
        TrackSizing::Auto => grid_auto_row(s0, children, y),
        TrackSizing::Linear(v) => grid_linear_row(s0, children, v, y),
        TrackSizing::Fractional(f) => GridStateV {
            cts: Constraints { exact: Axes { x: s0.cts.exact.x, y: Some(s0.full) }, ..s0.cts },
            lrows: s0.lrows.push(RowV::Fr(f, y)),
            fr: add_w(s0.fr, f.0 as u64),
            ..s0
        },
    }
}

pub open spec fn grid_rows_from(s: GridStateV, children: Seq<PackedNodeV>, rows: Seq<TrackSizing>, i: int) -> GridStateV
    decreases rows.len() - i,
{
    if i < 0 || i >= rows.len() {
        s
    } else {
        grid_rows_from(grid_row_step(s, children, rows, i), children, rows, i + 1)
    }
}

/// What laying out a grid yields: columns measured once, rows laid out in
/// order, and a final region finish after the last row.
pub open spec fn grid_layout_spec(g: GridNodeV, regions: RegionsV) -> Seq<ConstrainedV> {
    let s0 = grid_init(g, regions);
    let s1 = grid_measure(s0, g.children);
    grid_finish(grid_rows_from(s1, g.children, grid_rows(g), 0), g.children).finished
}

impl GridLayouter {
    /// Push a row frame into the current region.
    fn push_row(&mut self, frame: Frame)
        ensures
            final(self)@ == grid_push_row(old(self)@, frame@),
    {
        let h = frame.size.y;
        self.regions.current.y = len_sub(self.regions.current.y, h);
        self.used.y = len_add(self.used.y, h);
        self.lrows.push(Row::Frame(frame));
        proof {
            assert(self@ =~= grid_push_row(old(self)@, frame@));
        }
    }

    /// Lay out a row with a fixed height and return its frame.
    fn layout_single_row(&self, children: &Vec<PackedNode>, height: i64, y: usize) -> (f: Frame)
        ensures
            f@ == single_row_frame(
                children@.map_values(|n: PackedNode| n@),
                self@.cols.len() as int,
                self@.rcols,
                self@.used.x,
                height,
                y as int,
            ),
    {
        let ghost cv = children@.map_values(|n: PackedNode| n@);
        let mut output = Frame::new(Size::new(self.used.x, height));
        let mut pos_x: i64 = 0;
        let mut x: usize = 0;
        while x < self.rcols.len()
            invariant
                x <= self.rcols@.len(),
                cv == children@.map_values(|n: PackedNode| n@),
                pos_x == rcols_sum(self.rcols@.take(x as int)),
                output@.size == (Size { x: self.used.x, y: height }),
                output@.items == region_row_items(
                    cv,
                    self@.cols.len() as int,
                    self.rcols@,
                    y as int,
                    0,
                    x as int,
                ),
            decreases self.rcols.len() - x,
        {
            match self.cell(children, x, y) {
                Some(node) => {
                    let mut frames = node.layout();
                    if frames.len() > 0 {
                        let f0 = frames.remove(0);
                        proof {
                            assert(f0@ == node_frames(node@)[0]);
                        }
                        output.push_frame(Point::new(pos_x, 0), f0);
                    }
                },
                None => {},
            }
            proof {
                assert(self.rcols@.take(x + 1 as int).drop_last() =~= self.rcols@.take(x as int));
                assert(self.rcols@.take(x + 1 as int).last() == self.rcols@[x as int]);
                assert(output@.items == region_row_items(
                    cv,
                    self@.cols.len() as int,
                    self.rcols@,
                    y as int,
                    0,
                    x + 1 as int,
                ));
            }
            pos_x = len_add(pos_x, self.rcols[x]);
            x = x + 1;
        }
        proof {
            assert(self.rcols@.take(self.rcols@.len() as int) =~= self.rcols@);
        }
        output
    }

    /// Lay out a row spanning several regions, one frame per given height.
    fn layout_multi_row(&self, children: &Vec<PackedNode>, heights: &Vec<i64>, y: usize) -> (frames: Vec<Frame>)
        ensures
            frames@.map_values(|f: Frame| f@) == multi_row_frames(
                children@.map_values(|n: PackedNode| n@),
                self@.cols.len() as int,
                self@.rcols,
                self@.used.x,
                heights@,
                y as int,
            ),
    {
        let ghost cv = children@.map_values(|n: PackedNode| n@);
        let ghost target = multi_row_frames(
            cv,
            self@.cols.len() as int,
            self@.rcols,
            self@.used.x,
            heights@,
            y as int,
        );
        let mut outputs: Vec<Frame> = Vec::new();
        let mut i: usize = 0;
        while i < heights.len()
            invariant
                i <= heights@.len(),
                cv == children@.map_values(|n: PackedNode| n@),
                target == multi_row_frames(
                    cv,
                    self@.cols.len() as int,
                    self@.rcols,
                    self@.used.x,
                    heights@,
                    y as int,
                ),
                outputs@.len() == i,
                forall|j: int|
                    0 <= j < i ==> outputs@.map_values(|f: Frame| f@)[j] == #[trigger] target[j],
            decreases heights.len() - i,
        {
            let mut output = Frame::new(Size::new(self.used.x, heights[i]));
            let mut pos_x: i64 = 0;
            let mut x: usize = 0;
            while x < self.rcols.len()
                invariant
                    x <= self.rcols@.len(),
                    i < heights@.len(),
                    cv == children@.map_values(|n: PackedNode| n@),
                    pos_x == rcols_sum(self.rcols@.take(x as int)),
                    output@.size == (Size { x: self.used.x, y: heights@[i as int] }),
                    output@.items == region_row_items(
                        cv,
                        self@.cols.len() as int,
                        self.rcols@,
                        y as int,
                        i as int,
                        x as int,
                    ),
                decreases self.rcols.len() - x,
            {
                match self.cell(children, x, y) {
                    Some(node) => {
                        let mut nf = node.layout();
                        if i < nf.len() {
                            let fi = nf.remove(i);
                            proof {
                                assert(fi@ == node_frames(node@)[i as int]);
                            }
                            output.push_frame(Point::new(pos_x, 0), fi);
                        }
                    },
                    None => {},
                }
                proof {
                    assert(self.rcols@.take(x + 1 as int).drop_last() =~= self.rcols@.take(
                        x as int,
                    ));
                    assert(self.rcols@.take(x + 1 as int).last() == self.rcols@[x as int]);
                    assert(output@.items == region_row_items(
                        cv,
                        self@.cols.len() as int,
                        self.rcols@,
                        y as int,
                        i as int,
                        x + 1 as int,
                    ));
                }
                pos_x = len_add(pos_x, self.rcols[x]);
                x = x + 1;
            }
            proof {
                assert(self.rcols@.take(self.rcols@.len() as int) =~= self.rcols@);
            }
            outputs.push(output);
            proof {
                assert(outputs@.map_values(|f: Frame| f@)[i as int] == target[i as int]);
            }
            i = i + 1;
        }
        proof {
            assert(outputs@.map_values(|f: Frame| f@) =~= target);
        }
        outputs
    }

    /// Lay out a row with automatic height, which may break across regions.
    fn layout_auto_row(&mut self, children: &Vec<PackedNode>, y: usize)
        ensures
            final(self)@ == grid_auto_row(
                old(self)@,
                children@.map_values(|n: PackedNode| n@),
                y as int,
            ),
            final(self)@.rows == old(self)@.rows,
    {
        let ghost cv = children@.map_values(|n: PackedNode| n@);

        // Determine the height the row needs in each region it spans.
        let mut resolved: Vec<i64> = Vec::new();
        let mut x: usize = 0;
        while x < self.rcols.len()
            invariant
                x <= self.rcols@.len(),
                cv == children@.map_values(|n: PackedNode| n@),
                resolved@ == row_heights(cv, self@.cols.len() as int, y as int, x as int),
            decreases self.rcols.len() - x,
        {
            let ghost pre_heights = resolved@;
            match self.cell(children, x, y) {
                Some(node) => {
                    let frames = node.layout();
                    let ghost hb = node_heights(node@);
                    proof {
                        assert(forall|j: int|
                            0 <= j < hb.len() ==> #[trigger] hb[j] == frames@.map_values(
                                |f: Frame| f@,
                            )[j].size.y);
                        assert(hb.len() == frames@.len());
                    }
                    let total = if resolved.len() >= frames.len() {
                        resolved.len()
                    } else {
                        frames.len()
                    };
                    let mut merged: Vec<i64> = Vec::new();
                    let mut k: usize = 0;
                    while k < total
                        invariant
                            k <= total,
                            hb == node_heights(node@),
                            hb.len() == frames@.len(),
                            forall|j: int|
                                0 <= j < hb.len() ==> #[trigger] hb[j] == frames@.map_values(
                                    |f: Frame| f@,
                                )[j].size.y,
                            total == if pre_heights.len() >= hb.len() {
                                pre_heights.len()
                            } else {
                                hb.len()
                            },
                            resolved@ == pre_heights,
                            merged@.len() == k,
                            forall|j: int|
                                0 <= j < k ==> merged@[j] == #[trigger] merge_heights(
                                    pre_heights,
                                    hb,
                                )[j],
                        decreases total - k,
                    {
                        let hv: i64 = if k < resolved.len() && k < frames.len() {
                            len_max(resolved[k], frames[k].size.y)
                        } else if k < resolved.len() {
                            resolved[k]
                        } else {
                            frames[k].size.y
                        };
                        merged.push(hv);
                        k = k + 1;
                    }
                    resolved = merged;
                    proof {
                        assert(resolved@ =~= merge_heights(pre_heights, hb));
                    }
                },
                None => {},
            }
            proof {
                assert(resolved@ == row_heights(cv, self@.cols.len() as int, y as int, x + 1 as int));
            }
            x = x + 1;
        }
        proof {
            assert(resolved@ == row_heights(
                cv,
                self@.cols.len() as int,
                y as int,
                self@.rcols.len() as int,
            ));
        }

        // Nothing to lay out.
        if resolved.len() == 0 {
            proof {
                assert(self@ == grid_auto_row(old(self)@, cv, y as int));
            }
            return;
        }

        // The row fits into a single region.
        if resolved.len() == 1 {
            let h = resolved[0];
            let frame = self.layout_single_row(children, h, y);
            self.push_row(frame);
            proof {
                assert(self@ == grid_auto_row(old(self)@, cv, y as int));
            }
            return;
        }

        // Expand all but the last height to fill the region it passes
        // through, unless fractional rows have a claim on that space.
        if self.fr == 0 {
            let ghost pre_resolved = resolved@;
            let mut i: usize = 0;
            while i + 1 < resolved.len()
                invariant
                    resolved@.len() == pre_resolved.len(),
                    i < resolved@.len(),
                    forall|j: int|
                        0 <= j < i ==> resolved@[j] == #[trigger] expanded_heights(
                            pre_resolved,
                            self.regions@,
                        )[j],
                    forall|j: int| i <= j < resolved@.len() ==> resolved@[j] == pre_resolved[j],
                decreases resolved.len() - i,
            {
                match self.regions.nth_y(i) {
                    Some(ry) => {
                        let m = len_max(resolved[i], ry);
                        resolved[i] = m;
                    },
                    None => {},
                }
                proof {
                    assert forall|j: int| 0 <= j < i + 1 implies resolved@[j]
                        == #[trigger] expanded_heights(pre_resolved, self.regions@)[j] by {
                        if j == i {
                            assert(expanded_heights(pre_resolved, self.regions@)[j]
                                == if j < pre_resolved.len() - 1 {
                                    match region_nth_y(self.regions@, j) {
                                        Some(ry) => max_l(pre_resolved[j], ry),
                                        None => pre_resolved[j],
                                    }
                                } else {
                                    pre_resolved[j]
                                });
                        }
                    }
                }
                i = i + 1;
            }
            proof {
                assert(resolved@ =~= expanded_heights(pre_resolved, self.regions@));
            }
        }

        // Lay out the row against those heights, breaking the region
        // between two consecutive frames.
        let mut frames = self.layout_multi_row(children, &resolved, y);
        let ghost target = push_rows_rest(self@, cv, frames@.map_values(|f: Frame| f@));
        proof {
            assert(target == grid_auto_row(old(self)@, cv, y as int));
        }
        while frames.len() > 0
            invariant
                cv == children@.map_values(|n: PackedNode| n@),
                push_rows_rest(self@, cv, frames@.map_values(|f: Frame| f@)) == target,
                self@.rows == old(self)@.rows,
            decreases frames.len(),
        {
            let ghost pre = self@;
            let ghost pre_frames = frames@.map_values(|f: Frame| f@);
            let f = frames.remove(0);
            self.push_row(f);
            if frames.len() > 0 {
                self.cts.exact.y = Some(self.full);
                self.finish_region(children);
            }
            proof {
                assert(frames@.map_values(|fr: Frame| fr@) =~= pre_frames.drop_first());
            }
        }
        proof {
            assert(self@ == target);
        }
    }

    /// Lay out a row with linear height: it cannot break across regions,
    /// but it may force a break before it.
    fn layout_linear_row(&mut self, children: &Vec<PackedNode>, v: Linear, y: usize)
        ensures
            final(self)@ == grid_linear_row(
                old(self)@,
                children@.map_values(|n: PackedNode| n@),
                v,
                y as int,
            ),
            final(self)@.rows == old(self)@.rows,
    {
        let ghost cv = children@.map_values(|n: PackedNode| n@);
        let resolved = v.resolve(self.regions.base.y);
        let frame = self.layout_single_row(children, resolved, y);
        let height = frame.size.y;
        let ghost fv = frame@;
        let ghost target = grid_linear_skip(self@, cv, fv, y as int);

        // Skip to a region that can hold the row.
        while !(self.regions.current.y >= height) && !self.regions.in_last()
            invariant
                cv == children@.map_values(|n: PackedNode| n@),
                height == fv.size.y,
                frame@ == fv,
                grid_linear_skip(self@, cv, fv, y as int) == target,
                target == grid_linear_row(old(self)@, cv, v, y as int),
                self@.rows == old(self)@.rows,
            decreases skip_measure(self.regions@),
        {
            let ghost pre = self@;
            self.cts.max.y = Some(len_add(self.used.y, height));
            self.finish_region(children);
            if y % 2 == 1 {
                // A gutter row neither skips further nor is queued.
                proof {
                    assert(self@ == target);
                }
                return;
            }
        }
        self.push_row(frame);
        proof {
            assert(self@ == target);
        }
    }

    /// Finish the rows of one region.
    pub fn finish_region(&mut self, children: &Vec<PackedNode>)
        ensures
            final(self)@ == grid_finish(old(self)@, children@.map_values(|n: PackedNode| n@)),
            final(self)@.rows == old(self)@.rows,
    {
        let ghost cv = children@.map_values(|n: PackedNode| n@);
        let ghost s0 = self@;

        // The frame fills the region vertically when fractional rows are
        // present and the region is bounded.
        let fr_active = self.fr > 0 && self.full != INF;
        let size = Size::new(self.used.x, if fr_active {
            self.full
        } else {
            self.used.y
        });
        if fr_active {
            self.cts.exact.y = Some(self.full);
        } else {
            self.cts.min.y = Some(len_min(self.used.y, self.full));
        }
        let ghost cts1 = self.cts;

        let mut output = Frame::new(size);
        let mut pos_y: i64 = 0;
        let mut rem_space = len_sub(self.full, self.used.y);
        let mut rem_weight = self.fr;
        let ghost p0 = GridPlaceV {
            pos_y: 0,
            rem_space: sub_l(s0.full, s0.used.y),
            rem_weight: s0.fr,
            items: Seq::empty(),
        };
        let ghost target_p = grid_place_rows(p0, s0.lrows, s0, cv);
        proof {
            assert((GridPlaceV { pos_y, rem_space, rem_weight, items: output@.items }) =~= p0);
        }

        // Place finished rows and lay out fractional rows.
        while self.lrows.len() > 0
            invariant
                cv == children@.map_values(|n: PackedNode| n@),
                grid_place_rows(
                    GridPlaceV { pos_y, rem_space, rem_weight, items: output@.items },
                    self@.lrows,
                    s0,
                    cv,
                ) == target_p,
                output@.size == size,
                self.cols@ == s0.cols,
                self.rows@ == s0.rows,
                self.rcols@ == s0.rcols,
                self.expand == s0.expand,
                self.regions@ == s0.regions,
                self.full == s0.full,
                self.used == s0.used,
                self.fr == s0.fr,
                self.cts == cts1,
                self.finished@.map_values(|c: Constrained| c@) == s0.finished,
            decreases self.lrows.len(),
        {
            let ghost pre_p = GridPlaceV { pos_y, rem_space, rem_weight, items: output@.items };
            let ghost pre_rows = self@.lrows;
            let row = self.lrows.remove(0);
            proof {
                assert(self@.lrows =~= pre_rows.drop_first());
                assert(row@ == pre_rows[0]);
            }
            match row {
                Row::Frame(frame) => {
                    let h = frame.size.y;
                    output.merge_frame(Point::with_y(pos_y), frame);
                    pos_y = len_add(pos_y, h);
                },
                Row::Fr(v, yy) => {
                    let share = fr_part(v.weight(), rem_weight, rem_space);
                    let frame = self.layout_single_row(children, share, yy);
                    proof {
                        assert(frame@ == single_row_frame(
                            cv,
                            s0.cols.len() as int,
                            s0.rcols,
                            s0.used.x,
                            share,
                            yy as int,
                        ));
                    }
                    let h = frame.size.y;
                    output.merge_frame(Point::with_y(pos_y), frame);
                    pos_y = len_add(pos_y, h);
                    rem_space = len_sub(rem_space, share);
                    rem_weight = weight_sub(rem_weight, v.weight());
                },
            }
            proof {
                assert((GridPlaceV { pos_y, rem_space, rem_weight, items: output@.items })
                    =~= grid_place_row(pre_p, pre_rows[0], s0, cv));
            }
        }

        self.cts.base = Axes::new(Some(self.regions.base.x), Some(self.regions.base.y));
        self.finished.push(output.constrain(self.cts));
        self.regions.next();
        self.full = self.regions.current.y;
        self.used.y = 0;
        self.fr = 0;
        self.cts = Constraints::new(self.expand);
        proof {
            assert(self@ =~= grid_finish(s0, cv));
        }
    }

    /// Lay the grid out row by row, finishing the last region at the end.
    pub fn layout(self, children: &Vec<PackedNode>) -> (r: Vec<Constrained>)
        ensures
            r@.map_values(|c: Constrained| c@) == grid_finish(
                grid_rows_from(
                    self@,
                    children@.map_values(|n: PackedNode| n@),
                    self@.rows,
                    0,
                ),
                children@.map_values(|n: PackedNode| n@),
            ).finished,
    {
        let ghost cv = children@.map_values(|n: PackedNode| n@);
        let ghost rows_g = self@.rows;
        let mut this = self;
        let ghost target = grid_finish(grid_rows_from(this@, cv, rows_g, 0), cv).finished;
        let mut y: usize = 0;
        while y < this.rows.len()
            invariant
                y <= this.rows@.len(),
                cv == children@.map_values(|n: PackedNode| n@),
                rows_g == this.rows@,
                grid_finish(grid_rows_from(this@, cv, rows_g, y as int), cv).finished == target,
            decreases this.rows.len() - y,
        {
            let ghost pre = this@;
            if y % 2 == 0 && this.regions.is_full() {
                this.finish_region(children);
            }
            let ghost mid = this@;
            match this.rows[y] {
                TrackSizing::Auto => {
                    this.layout_auto_row(children, y);
                },
                TrackSizing::Linear(v) => {
                    this.layout_linear_row(children, v, y);
                },
                TrackSizing::Fractional(f) => {
                    this.cts.exact.y = Some(this.full);
                    this.lrows.push(Row::Fr(f, y));
                    this.fr = weight_add(this.fr, f.weight());
                    proof {
                        assert(this@ =~= (GridStateV {
                            cts: Constraints {
                                exact: Axes { x: mid.cts.exact.x, y: Some(mid.full) },
                                ..mid.cts
                            },
                            lrows: mid.lrows.push(RowV::Fr(f, y as int)),
                            fr: add_w(mid.fr, f.0 as u64),
                            ..mid
                        }));
                    }
                },
            }
            proof {
                assert(this@ == grid_row_step(pre, cv, rows_g, y as int));
            }
            y = y + 1;
        }
        let mut last = this;
        last.finish_region(children);
        let GridLayouter { finished, .. } = last;
        finished
    }
}

impl GridNode {
    /// Lay out the grid against a region sequence: one constrained frame
    /// per consumed region, columns sized once globally.
    pub fn layout(&self, regions: &Regions) -> (r: Vec<Constrained>)
        ensures
            r@.map_values(|c: Constrained| c@) == grid_layout_spec(self@, regions@),
    {
        let mut layouter = GridLayouter::new(self, regions.clone());
        proof {
            assert(layouter@.rcols.len() == layouter@.cols.len());
        }
        layouter.measure_columns(&self.children);
        proof {
            assert(layouter@.rows == grid_rows(self@));
        }
        layouter.layout(&self.children)
    }
}

/// The linear value of a linear track.
pub open spec fn lin_of(t: TrackSizing) -> Linear {
    match t {
        TrackSizing::Linear(v) => v,
        _ => Linear { abs: 0, rel: 0 },
    }
}

/// The mathematical sum of fractional-track weights from `i` on.
pub open spec fn wsum_from(cols: Seq<TrackSizing>, i: int) -> int
    decreases cols.len() - i,
{
    if i < 0 || i >= cols.len() {
        0
    } else {
        (match cols[i] {
            TrackSizing::Fractional(f) => f.0 as int,
            _ => 0int,
        }) + wsum_from(cols, i + 1)
    }
}

/// The mathematical sum of fractional-track weights among the first `k`.
pub open spec fn wsum_to(cols: Seq<TrackSizing>, k: int) -> int
    decreases k,
{
    if k <= 0 {
        0
    } else {
        wsum_to(cols, k - 1) + (if 0 <= k - 1 < cols.len() {
            match cols[k - 1] {
                TrackSizing::Fractional(f) => f.0 as int,
                _ => 0int,
            }
        } else {
            0int
        })
    }
}

/// The mathematical sum of the fractional columns' widths from `i` on.
pub open spec fn fr_width_sum_from(cols: Seq<TrackSizing>, rcols: Seq<i64>, i: int) -> int
    decreases cols.len() - i,
{
    if i < 0 || i >= cols.len() {
        0
    } else {
        (match cols[i] {
            TrackSizing::Fractional(f) => rcols[i] as int,
            _ => 0int,
        }) + fr_width_sum_from(cols, rcols, i + 1)
    }
}

proof fn lemma_wsum_nonneg(cols: Seq<TrackSizing>, i: int)
    ensures
        wsum_from(cols, i) >= 0,
    decreases cols.len() - i,
{
    if 0 <= i < cols.len() {
        lemma_wsum_nonneg(cols, i + 1);
    }
}

proof fn lemma_wsum_split(cols: Seq<TrackSizing>, i: int)
    requires
        0 <= i <= cols.len(),
    ensures
        wsum_from(cols, i) == wsum_to(cols, cols.len() as int) - wsum_to(cols, i),
    decreases cols.len() - i,
{
    if i == cols.len() {
    } else {
        lemma_wsum_split(cols, i + 1);
    }
}

proof fn lemma_wsum_to_nonneg(cols: Seq<TrackSizing>, k: int)
    ensures
        wsum_to(cols, k) >= 0,
        forall|j: int| 0 <= j <= k ==> #[trigger] wsum_to(cols, j) <= wsum_to(cols, k),
    decreases k,
{
    if k > 0 {
        lemma_wsum_to_nonneg(cols, k - 1);
    }
}

/// The saturating weight total agrees with the mathematical one while the
/// latter stays representable.
proof fn lemma_fr_total_is_wsum(cols: Seq<TrackSizing>, k: int)
    requires
        0 <= k <= cols.len(),
        wsum_to(cols, k) <= u64::MAX,
    ensures
        fr_total(cols.take(k)) as int == wsum_to(cols, k),
    decreases k,
{
    if k == 0 {
        assert(cols.take(0) =~= Seq::<TrackSizing>::empty());
    } else {
        lemma_wsum_to_nonneg(cols, k);
        lemma_fr_total_is_wsum(cols, k - 1);
        assert(cols.take(k).drop_last() =~= cols.take(k - 1));
        assert(cols.take(k).last() == cols[k - 1]);
    }
}

proof fn lemma_grow_preserves(
    cols: Seq<TrackSizing>,
    rcols: Seq<i64>,
    i: int,
    space: i64,
    weight: u64,
    j: int,
)
    requires
        rcols.len() == cols.len(),
        0 <= j < rcols.len(),
        j < i || !(cols[j] is Fractional),
    ensures
        grow_fr_from(cols, rcols, i, space, weight)[j] == rcols[j],
    decreases cols.len() - i,
{
    if 0 <= i < cols.len() {
        match cols[i] {
            TrackSizing::Fractional(f) => {
                let share = fr_share(f.0 as u64, weight, space);
                lemma_grow_preserves(
                    cols,
                    rcols.update(i, share),
                    i + 1,
                    sub_l(space, share),
                    sub_w(weight, f.0 as u64),
                    j,
                );
            },
            _ => {
                lemma_grow_preserves(cols, rcols, i + 1, space, weight, j);
            },
        }
    }
}

proof fn lemma_grow_exact(cols: Seq<TrackSizing>, rcols: Seq<i64>, i: int, space: i64, weight: u64)
    requires
        rcols.len() == cols.len(),
        0 <= i <= cols.len(),
        0 <= space < INF,
        weight as int == wsum_from(cols, i),
    ensures
        fr_width_sum_from(cols, grow_fr_from(cols, rcols, i, space, weight), i) == if weight > 0 {
            space as int
        } else {
            0int
        },
    decreases cols.len() - i,
{
    if i == cols.len() {
    } else {
        match cols[i] {
            TrackSizing::Fractional(f) => {
                lemma_wsum_nonneg(cols, i + 1);
                let share = fr_share(f.0 as u64, weight, space);
                lemma_fr_share_le_space(f.0 as u64, weight, space);
                let rcols2 = rcols.update(i, share);
                let space2 = sub_l(space, share);
                let weight2 = sub_w(weight, f.0 as u64);
                assert(weight2 as int == wsum_from(cols, i + 1));
                lemma_grow_exact(cols, rcols2, i + 1, space2, weight2);
                let grown = grow_fr_from(cols, rcols2, i + 1, space2, weight2);
                lemma_grow_preserves(cols, rcols2, i + 1, space2, weight2, i);
                assert(grown[i] == share);
                if weight2 == 0 && weight > 0 {
                    assert(f.0 as u64 == weight);
                    lemma_fr_share_full(weight, space);
                }
            },
            _ => {
                lemma_grow_exact(cols, rcols, i + 1, space, weight);
            },
        }
    }
}

/// The fractional columns together take the whole finite leftover exactly:
/// distributing a leftover `space` over a positive total weight leaves
/// nothing behind and hands nothing out twice.
pub proof fn lemma_fractional_widths_exact(cols: Seq<TrackSizing>, rcols: Seq<i64>, space: i64)
    requires
        rcols.len() == cols.len(),
        0 <= space < INF,
        0 < wsum_from(cols, 0),
        wsum_to(cols, cols.len() as int) <= u64::MAX,
    ensures
        fr_width_sum_from(cols, grow_fr_from(cols, rcols, 0, space, fr_total(cols)), 0)
            == space as int,
{
    lemma_wsum_split(cols, 0);
    assert(cols.take(cols.len() as int) =~= cols);
    lemma_fr_total_is_wsum(cols, cols.len() as int);
    lemma_grow_exact(cols, rcols, 0, space, fr_total(cols));
}

/// The number of overlarge automatic columns from `i` on.
pub open spec fn over_from(cols: Seq<TrackSizing>, rcols: Seq<i64>, fair: i64, i: int) -> int
    decreases cols.len() - i,
{
    if i < 0 || i >= cols.len() {
        0
    } else {
        (if cols[i] is Auto && rcols[i] > fair {
            1int
        } else {
            0int
        }) + over_from(cols, rcols, fair, i + 1)
    }
}

/// The mathematical sum of the automatic columns' widths from `i` on.
pub open spec fn auto_width_sum_from(cols: Seq<TrackSizing>, rcols: Seq<i64>, i: int) -> int
    decreases cols.len() - i,
{
    if i < 0 || i >= cols.len() {
        0
    } else {
        (if cols[i] is Auto {
            rcols[i] as int
        } else {
            0int
        }) + auto_width_sum_from(cols, rcols, i + 1)
    }
}

/// The sum of the automatic columns at or below the fair share, from `i`.
pub open spec fn small_sum_from(cols: Seq<TrackSizing>, rcols: Seq<i64>, fair: i64, i: int) -> int
    decreases cols.len() - i,
{
    if i < 0 || i >= cols.len() {
        0
    } else {
        (if cols[i] is Auto && !(rcols[i] > fair) {
            rcols[i] as int
        } else {
            0int
        }) + small_sum_from(cols, rcols, fair, i + 1)
    }
}

proof fn lemma_over_nonneg(cols: Seq<TrackSizing>, rcols: Seq<i64>, fair: i64, i: int)
    ensures
        over_from(cols, rcols, fair, i) >= 0,
    decreases cols.len() - i,
{
    if 0 <= i < cols.len() {
        lemma_over_nonneg(cols, rcols, fair, i + 1);
    }
}

proof fn lemma_over_split(cols: Seq<TrackSizing>, rcols: Seq<i64>, fair: i64, i: int)
    requires
        0 <= i <= cols.len(),
    ensures
        over_from(cols, rcols, fair, i) == overlarge_to(cols, rcols, fair, cols.len() as int)
            - overlarge_to(cols, rcols, fair, i),
    decreases cols.len() - i,
{
    if i == cols.len() {
    } else {
        lemma_over_split(cols, rcols, fair, i + 1);
    }
}

proof fn lemma_shrink_preserves(
    cols: Seq<TrackSizing>,
    rcols: Seq<i64>,
    fair: i64,
    i: int,
    rem: i64,
    k: u64,
    j: int,
)
    requires
        rcols.len() == cols.len(),
        0 <= j < rcols.len(),
        j < i || !(cols[j] is Auto && rcols[j] > fair),
    ensures
        shrink_from(cols, rcols, fair, i, rem, k).len() == rcols.len(),
        shrink_from(cols, rcols, fair, i, rem, k)[j] == rcols[j],
    decreases cols.len() - i,
{
    if 0 <= i < cols.len() {
        if cols[i] is Auto && rcols[i] > fair {
            let share = fr_share(1, k, rem);
            lemma_shrink_preserves(
                cols,
                rcols.update(i, share),
                fair,
                i + 1,
                sub_l(rem, share),
                sub_w(k, 1),
                j,
            );
        } else {
            lemma_shrink_preserves(cols, rcols, fair, i + 1, rem, k, j);
        }
    }
}

proof fn lemma_shrink_len(cols: Seq<TrackSizing>, rcols: Seq<i64>, fair: i64, i: int, rem: i64, k: u64)
    requires
        rcols.len() == cols.len(),
    ensures
        shrink_from(cols, rcols, fair, i, rem, k).len() == rcols.len(),
    decreases cols.len() - i,
{
    if 0 <= i < cols.len() {
        if cols[i] is Auto && rcols[i] > fair {
            let share = fr_share(1, k, rem);
            lemma_shrink_len(cols, rcols.update(i, share), fair, i + 1, sub_l(rem, share), sub_w(k, 1));
        } else {
            lemma_shrink_len(cols, rcols, fair, i + 1, rem, k);
        }
    }
}

/// The redistribution hands the whole remaining space to the overlarge
/// columns and leaves every other column untouched.
proof fn lemma_shrink_dist(cols: Seq<TrackSizing>, rcols: Seq<i64>, fair: i64, i: int, rem: i64, k: u64)
    requires
        rcols.len() == cols.len(),
        0 <= i <= cols.len(),
        0 <= rem < INF,
        k as int == over_from(cols, rcols, fair, i),
    ensures
        auto_width_sum_from(cols, shrink_from(cols, rcols, fair, i, rem, k), i) == small_sum_from(
            cols,
            rcols,
            fair,
            i,
        ) + if k > 0 {
            rem as int
        } else {
            0int
        },
    decreases cols.len() - i,
{
    if i == cols.len() {
    } else {
        lemma_over_nonneg(cols, rcols, fair, i + 1);
        if cols[i] is Auto && rcols[i] > fair {
            let share = fr_share(1, k, rem);
            lemma_fr_share_le_space(1, k, rem);
            let rcols2 = rcols.update(i, share);
            let rem2 = sub_l(rem, share);
            let k2 = sub_w(k, 1);
            assert(over_from(cols, rcols2, fair, i + 1) == over_from(cols, rcols, fair, i + 1))
                by {
                lemma_over_congruent(cols, rcols, rcols2, fair, i + 1);
            };
            assert(small_sum_from(cols, rcols2, fair, i + 1) == small_sum_from(
                cols,
                rcols,
                fair,
                i + 1,
            )) by {
                lemma_small_congruent(cols, rcols, rcols2, fair, i + 1);
            };
            lemma_shrink_dist(cols, rcols2, fair, i + 1, rem2, k2);
            lemma_shrink_preserves(cols, rcols2, fair, i + 1, rem2, k2, i);
            if k2 == 0 {
                lemma_fr_share_full(1u64, rem);
                assert(share == rem);
            }
        } else {
            lemma_shrink_dist(cols, rcols, fair, i + 1, rem, k);
            if i < cols.len() {
                lemma_shrink_preserves(cols, rcols, fair, i + 1, rem, k, i);
            }
        }
    }
}

proof fn lemma_over_congruent(cols: Seq<TrackSizing>, a: Seq<i64>, b: Seq<i64>, fair: i64, i: int)
    requires
        a.len() == cols.len(),
        a.len() == b.len(),
        forall|j: int| i <= j < a.len() ==> a[j] == b[j],
    ensures
        over_from(cols, a, fair, i) == over_from(cols, b, fair, i),
    decreases cols.len() - i,
{
    if 0 <= i < cols.len() {
        lemma_over_congruent(cols, a, b, fair, i + 1);
    }
}

proof fn lemma_small_congruent(cols: Seq<TrackSizing>, a: Seq<i64>, b: Seq<i64>, fair: i64, i: int)
    requires
        a.len() == cols.len(),
        a.len() == b.len(),
        forall|j: int| i <= j < a.len() ==> a[j] == b[j],
    ensures
        small_sum_from(cols, a, fair, i) == small_sum_from(cols, b, fair, i),
    decreases cols.len() - i,
{
    if 0 <= i < cols.len() {
        lemma_small_congruent(cols, a, b, fair, i + 1);
    }
}

proof fn lemma_fr_total_zero(cols: Seq<TrackSizing>)
    requires
        forall|i: int| 0 <= i < cols.len() ==> cols[i] is Linear,
    ensures
        fr_total(cols) == 0,
    decreases cols.len(),
{
    if cols.len() > 0 {
        assert(forall|i: int|
            0 <= i < cols.drop_last().len() ==> cols.drop_last()[i] == cols[i]);
        lemma_fr_total_zero(cols.drop_last());
    }
}

proof fn lemma_auto_sum_zero(children: Seq<PackedNodeV>, cols: Seq<TrackSizing>, rows_len: int, k: int)
    requires
        forall|i: int| 0 <= i < cols.len() ==> cols[i] is Linear,
        k <= cols.len(),
    ensures
        auto_sum_to(children, cols, rows_len, k) == 0,
    decreases k,
{
    if k > 0 {
        lemma_auto_sum_zero(children, cols, rows_len, k - 1);
    }
}

/// With no automatic or fractional columns, each resolved column width is
/// exactly its resolved linear value and the used width is their sum: the
/// region's own width plays no part in the outcome.
pub proof fn lemma_purely_linear_columns(s: GridStateV, children: Seq<PackedNodeV>)
    requires
        s.rcols.len() == s.cols.len(),
        forall|i: int| 0 <= i < s.cols.len() ==> s.cols[i] is Linear,
    ensures
        grid_measure(s, children).rcols == rcols_linear(s.cols, s.regions.base.x, s.rcols),
        forall|i: int|
            0 <= i < s.cols.len() ==> #[trigger] grid_measure(s, children).rcols[i] == lin_resolve(
                lin_of(s.cols[i]),
                s.regions.base.x,
            ),
        grid_measure(s, children).used.x == rcols_sum(
            rcols_linear(s.cols, s.regions.base.x, s.rcols),
        ),
{
    lemma_fr_total_zero(s.cols);
    assert(!has_flex(s.cols));
    let base_x = s.regions.base.x;
    let rcols1 = rcols_linear(s.cols, base_x, s.rcols);
    let available = sub_l(s.regions.current.x, lin_sum(s.cols, base_x));
    if available >= 0 {
        lemma_auto_sum_zero(children, s.cols, s.rows.len() as int, s.cols.len() as int);
        assert(rcols_auto(children, s.cols, s.rows.len() as int, rcols1) =~= rcols1);
    }
}

/// Laying out an identical grid against an identical region sequence
/// yields identical frames and constraints: the result is a function of
/// the inputs alone.
pub proof fn lemma_grid_layout_deterministic(g1: GridNodeV, g2: GridNodeV, r1: RegionsV, r2: RegionsV)
    requires
        g1 == g2,
        r1 == r2,
    ensures
        grid_layout_spec(g1, r1) == grid_layout_spec(g2, r2),
{
}

/// Prefix sum of the automatic columns at or below the fair share.
pub open spec fn small_sum_to(cols: Seq<TrackSizing>, rcols: Seq<i64>, fair: i64, k: int) -> int
    decreases k,
{
    if k <= 0 {
        0
    } else {
        small_sum_to(cols, rcols, fair, k - 1) + (if 0 <= k - 1 < cols.len() && cols[k - 1] is Auto
            && !(rcols[k - 1] > fair) {
            rcols[k - 1] as int
        } else {
            0int
        })
    }
}

/// Prefix count of the automatic columns at or below the fair share.
pub open spec fn small_count_to(cols: Seq<TrackSizing>, rcols: Seq<i64>, fair: i64, k: int) -> int
    decreases k,
{
    if k <= 0 {
        0
    } else {
        small_count_to(cols, rcols, fair, k - 1) + (if 0 <= k - 1 < cols.len() && cols[k - 1] is Auto
            && !(rcols[k - 1] > fair) {
            1int
        } else {
            0int
        })
    }
}

proof fn lemma_small_split(cols: Seq<TrackSizing>, rcols: Seq<i64>, fair: i64, i: int)
    requires
        0 <= i <= cols.len(),
    ensures
        small_sum_from(cols, rcols, fair, i) == small_sum_to(cols, rcols, fair, cols.len() as int)
            - small_sum_to(cols, rcols, fair, i),
    decreases cols.len() - i,
{
    if i == cols.len() {
    } else {
        lemma_small_split(cols, rcols, fair, i + 1);
    }
}

proof fn lemma_small_count_mono(cols: Seq<TrackSizing>, rcols: Seq<i64>, fair: i64, k1: int, k2: int)
    requires
        k1 <= k2,
    ensures
        small_count_to(cols, rcols, fair, k1) <= small_count_to(cols, rcols, fair, k2),
        small_count_to(cols, rcols, fair, k2) >= 0,
    decreases k2,
{
    if k2 > 0 && k1 < k2 {
        lemma_small_count_mono(cols, rcols, fair, k1, k2 - 1);
    } else if k2 > 0 {
        lemma_small_count_mono(cols, rcols, fair, 0, k2 - 1);
    }
}

proof fn lemma_small_count_le_auto(cols: Seq<TrackSizing>, rcols: Seq<i64>, fair: i64, k: int)
    requires
        0 <= k <= cols.len(),
    ensures
        small_count_to(cols, rcols, fair, k) <= auto_count(cols.take(k)),
    decreases k,
{
    if k == 0 {
        assert(cols.take(0) =~= Seq::<TrackSizing>::empty());
    } else {
        lemma_small_count_le_auto(cols, rcols, fair, k - 1);
        assert(cols.take(k).drop_last() =~= cols.take(k - 1));
        assert(cols.take(k).last() == cols[k - 1]);
    }
}

proof fn lemma_redistribute_exact(
    cols: Seq<TrackSizing>,
    rcols: Seq<i64>,
    fair: i64,
    available: i64,
    k: int,
)
    requires
        rcols.len() == cols.len(),
        0 <= k <= cols.len(),
        fair >= 0,
        0 <= available < INF,
        forall|j: int|
            0 <= j < cols.len() && cols[j] is Auto && !(rcols[j] > fair) ==> rcols[j] >= 0,
        small_count_to(cols, rcols, fair, cols.len() as int) * fair <= available as int,
    ensures
        redistribute_to(cols, rcols, fair, available, k) as int == available as int - small_sum_to(
            cols,
            rcols,
            fair,
            k,
        ),
        0 <= small_sum_to(cols, rcols, fair, k) <= small_count_to(cols, rcols, fair, k) * fair,
    decreases k,
{
    if k == 0 {
    } else {
        lemma_redistribute_exact(cols, rcols, fair, available, k - 1);
        let sc_prev = small_count_to(cols, rcols, fair, k - 1);
        let sc_here = small_count_to(cols, rcols, fair, k);
        let ss_prev = small_sum_to(cols, rcols, fair, k - 1);
        if 0 <= k - 1 < cols.len() && cols[k - 1] is Auto && !(rcols[k - 1] > fair) {
            assert(ss_prev + rcols[k - 1] <= sc_prev * fair + fair);
            assert(sc_prev * fair + fair == (sc_prev + 1) * fair) by (nonlinear_arith);
            lemma_small_count_mono(cols, rcols, fair, k, cols.len() as int);
            assert(sc_here * fair <= small_count_to(cols, rcols, fair, cols.len() as int) * fair)
                by (nonlinear_arith)
                requires
                    sc_here <= small_count_to(cols, rcols, fair, cols.len() as int),
                    fair >= 0,
            ;
        } else {
            assert(small_sum_to(cols, rcols, fair, k) == ss_prev);
        }
    }
}

proof fn lemma_overlarge_le(cols: Seq<TrackSizing>, rcols: Seq<i64>, fair: i64, k: int)
    requires
        0 <= k,
    ensures
        0 <= overlarge_to(cols, rcols, fair, k) <= k,
    decreases k,
{
    if k > 0 {
        lemma_overlarge_le(cols, rcols, fair, k - 1);
    }
}

/// After the fair-share shrink, the automatic columns' widths sum to
/// exactly the available space: the columns at or below the fair share
/// keep their measured width, and the overlarge columns split exactly
/// what remains.
pub proof fn lemma_shrink_exact_total(cols: Seq<TrackSizing>, rcols: Seq<i64>, available: i64)
    requires
        rcols.len() == cols.len(),
        cols.len() <= u64::MAX,
        0 <= available < INF,
        auto_count(cols) > 0,
        forall|j: int| 0 <= j < cols.len() && cols[j] is Auto ==> rcols[j] >= 0,
        overlarge_to(cols, rcols, fair_of(available, auto_count(cols)), cols.len() as int) > 0,
    ensures
        auto_width_sum_from(cols, shrink_result(cols, rcols, available), 0) == available as int,
{
    let count = auto_count(cols);
    let fair = fair_of(available, count);
    assert(0 <= available as int / count <= available as int) by (nonlinear_arith)
        requires
            count > 0,
            0 <= available as int,
    ;
    let k = overlarge_to(cols, rcols, fair, cols.len() as int);
    let redistribute = redistribute_to(cols, rcols, fair, available, cols.len() as int);
    lemma_overlarge_le(cols, rcols, fair, cols.len() as int);

    // The small columns keep no more than the fair share each.
    lemma_small_count_le_auto(cols, rcols, fair, cols.len() as int);
    assert(cols.take(cols.len() as int) =~= cols);
    lemma_small_count_mono(cols, rcols, fair, 0, cols.len() as int);
    assert(small_count_to(cols, rcols, fair, cols.len() as int) * fair <= count * fair)
        by (nonlinear_arith)
        requires
            small_count_to(cols, rcols, fair, cols.len() as int) <= count,
            0 <= small_count_to(cols, rcols, fair, cols.len() as int),
            fair >= 0,
    ;
    assert(count * fair <= available as int) by (nonlinear_arith)
        requires
            count > 0,
            0 <= available as int,
            fair as int == available as int / count,
    ;
    lemma_redistribute_exact(cols, rcols, fair, available, cols.len() as int);

    // The overlarge columns split the redistributed space exactly.
    lemma_over_split(cols, rcols, fair, 0);
    lemma_shrink_dist(cols, rcols, fair, 0, redistribute, k as u64);
    lemma_small_split(cols, rcols, fair, 0);
}

/// The maximum-height constraint a region records while a row of height
/// `h` is deferred past it.
pub open spec fn skip_patched(s: GridStateV, h: i64) -> GridStateV {
    GridStateV {
        cts: Constraints { max: Axes { x: s.cts.max.x, y: Some(add_l(s.used.y, h)) }, ..s.cts },
        ..s
    }
}

/// The state after finishing `n` regions while a row of height `h` is
/// deferred.
pub open spec fn skip_iter(s: GridStateV, children: Seq<PackedNodeV>, h: i64, n: nat) -> GridStateV
    decreases n,
{
    if n == 0 {
        s
    } else {
        grid_finish(skip_patched(skip_iter(s, children, h, (n - 1) as nat), h), children)
    }
}

/// A witness that a linear row was deferred for `n` region breaks: no
/// earlier region could hold it, and it is queued in the region reached
/// then, which either fits it or is the last one available.
pub open spec fn deferral_at(
    s: GridStateV,
    children: Seq<PackedNodeV>,
    frame: FrameV,
    y: int,
    n: nat,
) -> bool {
    let t = skip_iter(s, children, frame.size.y, n);
    &&& grid_linear_skip(s, children, frame, y) == grid_push_row(t, frame)
    &&& (t.regions.current.y >= frame.size.y || regions_in_last(t.regions))
    &&& forall|m: nat|
        m < n ==> !(#[trigger] skip_iter(s, children, frame.size.y, m).regions.current.y
            >= frame.size.y)
}

proof fn lemma_skip_shift(s: GridStateV, children: Seq<PackedNodeV>, h: i64, n: nat)
    ensures
        skip_iter(s, children, h, (n + 1) as nat) == skip_iter(
            grid_finish(skip_patched(s, h), children),
            children,
            h,
            n,
        ),
    decreases n,
{
    let s2 = grid_finish(skip_patched(s, h), children);
    if n == 0 {
        assert(skip_iter(s, children, h, 0) == s);
        assert(skip_iter(s2, children, h, 0) == s2);
        assert(skip_iter(s, children, h, 1) == grid_finish(
            skip_patched(skip_iter(s, children, h, 0), h),
            children,
        ));
    } else {
        lemma_skip_shift(s, children, h, (n - 1) as nat);
        assert(skip_iter(s, children, h, (n + 1) as nat) == grid_finish(
            skip_patched(skip_iter(s, children, h, n), h),
            children,
        ));
        assert(skip_iter(s2, children, h, n) == grid_finish(
            skip_patched(skip_iter(s2, children, h, (n - 1) as nat), h),
            children,
        ));
    }
}

/// A linear content row that does not fit the current region is deferred
/// to the first later region that fits it; if none fits, it is placed in
/// the last available region regardless.
pub proof fn lemma_linear_row_deferral(
    s: GridStateV,
    children: Seq<PackedNodeV>,
    frame: FrameV,
    y: int,
)
    requires
        y % 2 == 0,
    ensures
        exists|n: nat| #[trigger] deferral_at(s, children, frame, y, n),
    decreases skip_measure(s.regions),
{
    let h = frame.size.y;
    if s.regions.current.y >= h || regions_in_last(s.regions) {
        assert(skip_iter(s, children, h, 0) == s);
        assert(deferral_at(s, children, frame, y, 0));
    } else {
        let s2 = grid_finish(skip_patched(s, h), children);
        lemma_linear_row_deferral(s2, children, frame, y);
        let n2 = choose|n: nat| #[trigger] deferral_at(s2, children, frame, y, n);
        lemma_skip_shift(s, children, h, n2);
        assert(deferral_at(s, children, frame, y, (n2 + 1) as nat)) by {
            assert(skip_iter(s, children, h, (n2 + 1) as nat) == skip_iter(s2, children, h, n2));
            assert forall|m: nat| m < n2 + 1 implies !(#[trigger] skip_iter(
                s,
                children,
                h,
                m,
            ).regions.current.y >= h) by {
                if m > 0 {
                    lemma_skip_shift(s, children, h, (m - 1) as nat);
                    assert(skip_iter(s, children, h, m) == skip_iter(
                        s2,
                        children,
                        h,
                        (m - 1) as nat,
                    ));
                }
            }
        };
    }
}

/// In a measured grid whose flexible columns fit with leftover space to
/// spare, the fractional columns' resolved widths sum to exactly that
/// leftover.
pub proof fn lemma_measured_fractional_exact(s: GridStateV, children: Seq<PackedNodeV>)
    requires
        s.rcols.len() == s.cols.len(),
        sub_l(s.regions.current.x, lin_sum(s.cols, s.regions.base.x)) >= 0,
        ({
            let available = sub_l(s.regions.current.x, lin_sum(s.cols, s.regions.base.x));
            let auto = auto_sum_to(children, s.cols, s.rows.len() as int, s.cols.len() as int);
            0 <= sub_l(available, auto) < INF
        }),
        0 < wsum_from(s.cols, 0),
        wsum_to(s.cols, s.cols.len() as int) <= u64::MAX,
    ensures
        ({
            let available = sub_l(s.regions.current.x, lin_sum(s.cols, s.regions.base.x));
            let auto = auto_sum_to(children, s.cols, s.rows.len() as int, s.cols.len() as int);
            fr_width_sum_from(s.cols, grid_measure(s, children).rcols, 0) == sub_l(
                available,
                auto,
            ) as int
        }),
{
    let base_x = s.regions.base.x;
    let available = sub_l(s.regions.current.x, lin_sum(s.cols, base_x));
    let auto = auto_sum_to(children, s.cols, s.rows.len() as int, s.cols.len() as int);
    let remaining = sub_l(available, auto);
    let rcols2 = rcols_auto(children, s.cols, s.rows.len() as int, rcols_linear(s.cols, base_x, s.rcols));
    lemma_wsum_split(s.cols, 0);
    assert(s.cols.take(s.cols.len() as int) =~= s.cols);
    lemma_fr_total_is_wsum(s.cols, s.cols.len() as int);
    lemma_fractional_widths_exact(s.cols, rcols2, remaining);
}

/// The number of automatic tracks from `i` on.
pub open spec fn auto_count_from(cols: Seq<TrackSizing>, i: int) -> int
    decreases cols.len() - i,
{
    if i < 0 || i >= cols.len() {
        0
    } else {
        (if cols[i] is Auto {
            1int
        } else {
            0int
        }) + auto_count_from(cols, i + 1)
    }
}

proof fn lemma_auto_count_split(cols: Seq<TrackSizing>, i: int)
    requires
        0 <= i <= cols.len(),
    ensures
        auto_count_from(cols, i) == auto_count(cols) - auto_count(cols.take(i)),
    decreases cols.len() - i,
{
    if i == cols.len() {
        assert(cols.take(i) =~= cols);
    } else {
        lemma_auto_count_split(cols, i + 1);
        assert(cols.take(i + 1).drop_last() =~= cols.take(i));
        assert(cols.take(i + 1).last() == cols[i]);
    }
}

proof fn lemma_over_zero_all_small(cols: Seq<TrackSizing>, rcols: Seq<i64>, fair: i64, i: int)
    requires
        0 <= i,
        over_from(cols, rcols, fair, i) == 0,
    ensures
        forall|j: int|
            i <= j < cols.len() && cols[j] is Auto ==> !(#[trigger] rcols[j] > fair),
    decreases cols.len() - i,
{
    if 0 <= i < cols.len() {
        lemma_over_nonneg(cols, rcols, fair, i + 1);
        assert(over_from(cols, rcols, fair, i + 1) == 0);
        lemma_over_zero_all_small(cols, rcols, fair, i + 1);
        if cols[i] is Auto {
            assert(!(rcols[i] > fair));
        }
    }
}

proof fn lemma_auto_count_from_nonneg(cols: Seq<TrackSizing>, i: int)
    ensures
        auto_count_from(cols, i) >= 0,
    decreases cols.len() - i,
{
    if 0 <= i < cols.len() {
        lemma_auto_count_from_nonneg(cols, i + 1);
    }
}

proof fn lemma_autosum_le_count_fair(cols: Seq<TrackSizing>, rcols: Seq<i64>, fair: i64, i: int)
    requires
        fair >= 0,
        forall|j: int| i <= j < cols.len() && cols[j] is Auto ==> !(#[trigger] rcols[j] > fair),
    ensures
        auto_width_sum_from(cols, rcols, i) <= auto_count_from(cols, i) * fair,
    decreases cols.len() - i,
{
    if 0 <= i < cols.len() {
        lemma_autosum_le_count_fair(cols, rcols, fair, i + 1);
        if cols[i] is Auto {
            let c = auto_count_from(cols, i + 1);
            lemma_auto_count_from_nonneg(cols, i + 1);
            assert(!(rcols[i] > fair));
            assert(rcols[i] as int + c * fair <= (c + 1) * fair) by (nonlinear_arith)
                requires
                    rcols[i] as int <= fair as int,
                    c >= 0,
            ;
        }
    }
}

/// Without an overlarge automatic column, the automatic widths already fit
/// the available space: the fair-share shrink only ever has work to do
/// when at least one column is over its share.
pub proof fn lemma_shrink_guard(cols: Seq<TrackSizing>, rcols: Seq<i64>, available: i64)
    requires
        rcols.len() == cols.len(),
        0 <= available < INF,
        auto_count(cols) > 0,
        overlarge_to(cols, rcols, fair_of(available, auto_count(cols)), cols.len() as int) == 0,
    ensures
        auto_width_sum_from(cols, rcols, 0) <= available as int,
{
    let count = auto_count(cols);
    let fair = fair_of(available, count);
    assert(0 <= available as int / count <= available as int) by (nonlinear_arith)
        requires
            count > 0,
            0 <= available as int,
    ;
    lemma_over_split(cols, rcols, fair, 0);
    lemma_over_zero_all_small(cols, rcols, fair, 0);
    lemma_autosum_le_count_fair(cols, rcols, fair, 0);
    lemma_auto_count_split(cols, 0);
    assert(cols.take(0) =~= Seq::<TrackSizing>::empty());
    assert(auto_count_from(cols, 0) == count);
    assert(count * fair <= available as int) by (nonlinear_arith)
        requires
            count > 0,
            0 <= available as int,
            fair as int == available as int / count,
    ;
}

} // verus!
