//! Region sequences: the space available to one layout call.
//!
//! A region sequence carries the current region's remaining size, the base
//! size used to resolve relative lengths, per-axis expansion flags, a
//! backlog of further region sizes, and an optional final size that repeats
//! forever for an open-ended sequence.

use vstd::prelude::*;
use crate::geom::{Axes, Size};

verus! {

/// The layout budget handed to a layouter.
pub struct Regions {
    /// The remaining size of the current region.
    pub current: Size,
    /// The base size relative lengths resolve against.
    pub base: Size,
    /// The sizes of regions to come after the current one, in order.
    pub backlog: Vec<Size>,
    /// A size to repeat forever once the backlog is exhausted; `None` makes
    /// the sequence finite.
    pub last: Option<Size>,
    /// Whether the produced frame should fill the region per axis.
    pub expand: Axes<bool>,
}

#[verifier::ext_equal]
pub ghost struct RegionsV {
    pub current: Size,
    pub base: Size,
    pub backlog: Seq<Size>,
    pub last: Option<Size>,
    pub expand: Axes<bool>,
}

impl View for Regions {
    type V = RegionsV;

    open spec fn view(&self) -> RegionsV {
        RegionsV {
            current: self.current,
            base: self.base,
            backlog: self.backlog@,
            last: self.last,
            expand: self.expand,
        }
    }
}

/// Advance to the next region: the front of the backlog if any, else the
/// repeating final size, else the sequence stays where it is.
pub open spec fn regions_next(r: RegionsV) -> RegionsV {
    if r.backlog.len() > 0 {
        RegionsV { current: r.backlog[0], backlog: r.backlog.drop_first(), ..r }
    } else {
        match r.last {
            Some(l) => RegionsV { current: l, ..r },
            None => r,
        }
    }
}

/// Whether the current region has no vertical room left.
pub open spec fn regions_is_full(r: RegionsV) -> bool {
    r.current.y <= 0
}

/// Whether advancing would not reach a different region: the backlog is
/// empty and there is no repeating size of another height.
pub open spec fn regions_in_last(r: RegionsV) -> bool {
    r.backlog.len() == 0 && match r.last {
        None => true,
        Some(l) => l.y == r.current.y,
    }
}

/// The vertical extent of the region `i` steps from now, while one exists.
pub open spec fn region_nth_y(r: RegionsV, i: int) -> Option<i64> {
    if i == 0 {
        Some(r.current.y)
    } else if i - 1 < r.backlog.len() {
        Some(r.backlog[i - 1].y)
    } else {
        match r.last {
            Some(l) => Some(l.y),
            None => None,
        }
    }
}

fn clone_sizes(v: &Vec<Size>) -> (r: Vec<Size>)
    ensures
        r@ == v@,
{
    let mut r: Vec<Size> = Vec::new();
    let mut i: usize = 0;
    while i < v.len()
        invariant
            i <= v.len(),
            r@ == v@.subrange(0, i as int),
        decreases v.len() - i,
    {
        r.push(v[i]);
        proof {
            assert(r@ =~= v@.subrange(0, i + 1 as int));
        }
        i = i + 1;
    }
    proof {
        assert(r@ =~= v@);
    }
    r
}

impl Regions {
    /// A single region, never followed by another.
    pub fn one(size: Size, base: Size, expand: Axes<bool>) -> (r: Regions)
        ensures
            r@ == (RegionsV { current: size, base, backlog: Seq::empty(), last: None, expand }),
    {
        let r = Regions { current: size, base, backlog: Vec::new(), last: None, expand };
        proof {
            assert(r@ =~= RegionsV { current: size, base, backlog: Seq::empty(), last: None, expand });
        }
        r
    }

    /// An open-ended sequence of equal regions.
    pub fn repeat(size: Size, base: Size, expand: Axes<bool>) -> (r: Regions)
        ensures
            r@ == (RegionsV { current: size, base, backlog: Seq::empty(), last: Some(size), expand }),
    {
        let r = Regions { current: size, base, backlog: Vec::new(), last: Some(size), expand };
        proof {
            assert(r@ =~= RegionsV {
                current: size,
                base,
                backlog: Seq::empty(),
                last: Some(size),
                expand,
            });
        }
        r
    }

    /// Advance to the next region.
    pub fn next(&mut self)
        ensures
            final(self)@ == regions_next(old(self)@),
    {
        if self.backlog.len() > 0 {
            let front = self.backlog.remove(0);
            self.current = front;
        } else if let Some(l) = self.last {
            self.current = l;
        }
        proof {
            assert(self@ =~= regions_next(old(self)@));
        }
    }

    /// Whether the current region has no vertical room left.
    pub fn is_full(&self) -> (r: bool)
        ensures
            r == regions_is_full(self@),
    {
        self.current.y <= 0
    }

    /// Whether advancing would not reach a different region.
    pub fn in_last(&self) -> (r: bool)
        ensures
            r == regions_in_last(self@),
    {
        self.backlog.len() == 0 && match self.last {
            None => true,
            Some(l) => l.y == self.current.y,
        }
    }

    /// The vertical extent of the region `i` steps from now, if one exists.
    pub fn nth_y(&self, i: usize) -> (r: Option<i64>)
        ensures
            r == region_nth_y(self@, i as int),
    {
        if i == 0 {
            Some(self.current.y)
        } else if i - 1 < self.backlog.len() {
            Some(self.backlog[i - 1].y)
        } else {
            match self.last {
                Some(l) => Some(l.y),
                None => None,
            }
        }
    }
}

impl Clone for Regions {
    fn clone(&self) -> (r: Self)
        ensures
            r@ == self@,
    {
        let r = Regions {
            current: self.current,
            base: self.base,
            backlog: clone_sizes(&self.backlog),
            last: self.last,
            expand: self.expand,
        };
        proof {
            assert(r@ =~= self@);
        }
        r
    }
}

} // verus!
