//! Constraints recorded with each produced frame: which aspects of the
//! region size the layout actually depended on, so that a caller may reuse
//! the frame when a new region satisfies them.

use vstd::prelude::*;
use crate::geom::{Axes, Size};

verus! {

/// Per-axis optional exact, minimum, maximum and base values, plus the
/// expansion flags the layout was asked for.
#[derive(Clone, Copy, PartialEq, Eq, Debug)]
pub struct Constraints {
    /// The frame is valid only if the region is at least this large.
    pub min: Axes<Option<i64>>,
    /// The frame is valid only if the region is at most this large.
    pub max: Axes<Option<i64>>,
    /// The frame is valid only if the region is exactly this large.
    pub exact: Axes<Option<i64>>,
    /// The frame is valid only against exactly this base size.
    pub base: Axes<Option<i64>>,
    /// The expansion the layout was asked for, which must match as well.
    pub expand: Axes<bool>,
}

/// Fresh constraints: nothing recorded yet beyond the expansion flags.
pub open spec fn cts_new(expand: Axes<bool>) -> Constraints {
    Constraints {
        min: Axes { x: None, y: None },
        max: Axes { x: None, y: None },
        exact: Axes { x: None, y: None },
        base: Axes { x: None, y: None },
        expand,
    }
}

pub open spec fn check_axis(
    min: Option<i64>,
    max: Option<i64>,
    exact: Option<i64>,
    base_c: Option<i64>,
    current: i64,
    base: i64,
) -> bool {
    &&& match min {
        Some(v) => current >= v,
        None => true,
    }
    &&& match max {
        Some(v) => current <= v,
        None => true,
    }
    &&& match exact {
        Some(v) => current == v,
        None => true,
    }
    &&& match base_c {
        Some(v) => base == v,
        None => true,
    }
}

/// Whether a new region satisfies recorded constraints, so that the frame
/// they were recorded with may be reused for it without another layout run.
pub open spec fn cts_check(c: Constraints, current: Size, base: Size, expand: Axes<bool>) -> bool {
    &&& expand == c.expand
    &&& check_axis(c.min.x, c.max.x, c.exact.x, c.base.x, current.x, base.x)
    &&& check_axis(c.min.y, c.max.y, c.exact.y, c.base.y, current.y, base.y)
}

fn axis_ok(
    min: Option<i64>,
    max: Option<i64>,
    exact: Option<i64>,
    base_c: Option<i64>,
    current: i64,
    base: i64,
) -> (r: bool)
    ensures
        r == check_axis(min, max, exact, base_c, current, base),
{
    let min_ok = match min {
        Some(v) => current >= v,
        None => true,
    };
    let max_ok = match max {
        Some(v) => current <= v,
        None => true,
    };
    let exact_ok = match exact {
        Some(v) => current == v,
        None => true,
    };
    let base_ok = match base_c {
        Some(v) => base == v,
        None => true,
    };
    min_ok && max_ok && exact_ok && base_ok
}

impl Constraints {
    pub fn new(expand: Axes<bool>) -> (r: Constraints)
        ensures
            r == cts_new(expand),
    {
        Constraints {
            min: Axes { x: None, y: None },
            max: Axes { x: None, y: None },
            exact: Axes { x: None, y: None },
            base: Axes { x: None, y: None },
            expand,
        }
    }

    /// Whether a region with the given current and base size, laid out with
    /// the given expansion flags, satisfies these constraints.
    pub fn check(&self, current: Size, base: Size, expand: Axes<bool>) -> (r: bool)
        ensures
            r == cts_check(*self, current, base, expand),
    {
        let expand_ok = expand.x == self.expand.x && expand.y == self.expand.y;
        expand_ok && axis_ok(self.min.x, self.max.x, self.exact.x, self.base.x, current.x, base.x)
            && axis_ok(self.min.y, self.max.y, self.exact.y, self.base.y, current.y, base.y)
    }
}

} // verus!
