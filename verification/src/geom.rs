//! Geometry primitives: axis pairs, sizes, points, alignment, and the two
//! relative length forms (linear and fractional).

use vstd::prelude::*;
use crate::num::{INF, add_l, max_l, half_l, len_add, len_max, len_half};

verus! {

/// A pair of values, one for the horizontal and one for the vertical axis.
#[derive(Clone, Copy, PartialEq, Eq, Structural, Debug)]
pub struct Axes<T> {
    pub x: T,
    pub y: T,
}

impl<T> Axes<T> {
    pub fn new(x: T, y: T) -> (r: Axes<T>)
        ensures
            r.x == x,
            r.y == y,
    {
        Axes { x, y }
    }
}

impl<T: Copy> Axes<T> {
    pub fn splat(v: T) -> (r: Axes<T>)
        ensures
            r.x == v,
            r.y == v,
    {
        Axes { x: v, y: v }
    }
}

/// An extent per axis; either coordinate may be `INF` for "unbounded".
#[derive(Clone, Copy, PartialEq, Eq, Structural, Debug)]
pub struct Size {
    pub x: i64,
    pub y: i64,
}

impl Size {
    pub fn new(x: i64, y: i64) -> (r: Size)
        ensures
            r == (Size { x, y }),
    {
        Size { x, y }
    }

    pub fn zero() -> (r: Size)
        ensures
            r == (Size { x: 0, y: 0 }),
    {
        Size { x: 0, y: 0 }
    }
}

/// A position inside a frame, growing rightward and downward.
#[derive(Clone, Copy, PartialEq, Eq, Structural, Debug)]
pub struct Point {
    pub x: i64,
    pub y: i64,
}

/// Displace `p` by the offset `base`.
pub open spec fn pt_offset(base: Point, p: Point) -> Point {
    Point { x: add_l(base.x, p.x), y: add_l(base.y, p.y) }
}

impl Point {
    pub fn new(x: i64, y: i64) -> (r: Point)
        ensures
            r == (Point { x, y }),
    {
        Point { x, y }
    }

    pub fn zero() -> (r: Point)
        ensures
            r == (Point { x: 0, y: 0 }),
    {
        Point { x: 0, y: 0 }
    }

    pub fn with_y(y: i64) -> (r: Point)
        ensures
            r == (Point { x: 0, y }),
    {
        Point { x: 0, y }
    }

    pub fn offset(self, p: Point) -> (r: Point)
        ensures
            r == pt_offset(self, p),
    {
        Point { x: len_add(self.x, p.x), y: len_add(self.y, p.y) }
    }
}

/// Alignment of an item within leftover space along one axis: `Start` is
/// left or top, `End` is right or bottom.
#[derive(Clone, Copy, PartialEq, Eq, Structural, Debug)]
pub enum Align {
    Start,
    Center,
    End,
}

pub open spec fn align_rank(a: Align) -> int {
    match a {
        Align::Start => 0,
        Align::Center => 1,
        Align::End => 2,
    }
}

/// The stronger of two alignments: the one placed further along the axis.
pub open spec fn align_join(a: Align, b: Align) -> Align {
    if align_rank(a) >= align_rank(b) {
        a
    } else {
        b
    }
}

/// The displacement an alignment asks for within `space` leftover units.
/// Negative leftover (overflow) yields no displacement.
pub open spec fn align_shift(a: Align, space: i64) -> i64 {
    match a {
        Align::Start => 0,
        Align::Center => half_l(max_l(space, 0)),
        Align::End => max_l(space, 0),
    }
}

impl Align {
    pub fn join(self, other: Align) -> (r: Align)
        ensures
            r == align_join(self, other),
    {
        let sr: u8 = match self {
            Align::Start => 0,
            Align::Center => 1,
            Align::End => 2,
        };
        let or: u8 = match other {
            Align::Start => 0,
            Align::Center => 1,
            Align::End => 2,
        };
        if sr >= or {
            self
        } else {
            other
        }
    }

    pub fn resolve(self, space: i64) -> (r: i64)
        ensures
            r == align_shift(self, space),
    {
        match self {
            Align::Start => 0,
            Align::Center => len_half(len_max(space, 0)),
            Align::End => len_max(space, 0),
        }
    }
}

/// An absolute length plus a component relative to the parent's base size,
/// the latter in thousandths. The relative component resolves against the
/// positive, finite part of the base only: an unbounded or empty parent
/// contributes nothing.
#[derive(Clone, Copy, PartialEq, Eq, Structural, Debug)]
pub struct Linear {
    pub abs: i64,
    pub rel: u32,
}

pub open spec fn lin_resolve(l: Linear, base: i64) -> i64 {
    if base == INF || base <= 0 {
        l.abs
    } else {
        let q = (base as int) * (l.rel as int) / 1000;
        add_l(l.abs, if q >= INF { INF } else { q as i64 })
    }
}

impl Linear {
    pub fn new(abs: i64, rel: u32) -> (r: Linear)
        ensures
            r == (Linear { abs, rel }),
    {
        Linear { abs, rel }
    }

    pub fn zero() -> (r: Linear)
        ensures
            r == (Linear { abs: 0, rel: 0 }),
    {
        Linear { abs: 0, rel: 0 }
    }

    pub fn from_abs(abs: i64) -> (r: Linear)
        ensures
            r == (Linear { abs, rel: 0 }),
    {
        Linear { abs, rel: 0 }
    }

    /// Resolve against a base size: the absolute part plus the relative
    /// share of the base.
    pub fn resolve(&self, base: i64) -> (r: i64)
        ensures
            r == lin_resolve(*self, base),
    {
        if base == INF || base <= 0 {
            self.abs
        } else {
            let bw: u128 = base as u128;
            let rw: u128 = self.rel as u128;
            assert(bw * rw <= (i64::MAX as u128) * (u32::MAX as u128)) by (nonlinear_arith)
                requires
                    bw <= i64::MAX as u128,
                    rw <= u32::MAX as u128,
            ;
            let q: u128 = bw * rw / 1000;
            let qi: i64 = if q >= INF as u128 {
                INF
            } else {
                q as i64
            };
            len_add(self.abs, qi)
        }
    }
}

/// A fraction weight: a share of the space left over once all absolute and
/// automatic content is placed.
#[derive(Clone, Copy, PartialEq, Eq, Structural, Debug)]
pub struct Fraction(pub u32);

impl Fraction {
    pub fn new(weight: u32) -> (r: Fraction)
        ensures
            r == Fraction(weight),
    {
        Fraction(weight)
    }

    /// The weight widened for summation.
    pub fn weight(self) -> (r: u64)
        ensures
            r == self.0 as u64,
    {
        self.0 as u64
    }
}

} // verus!
