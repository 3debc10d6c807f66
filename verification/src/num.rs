//! Saturating length arithmetic.
//!
//! A length is an `i64` number of layout units. The largest value, `INF`,
//! stands for an unbounded extent (an open-ended region axis). Addition and
//! subtraction saturate instead of wrapping, and an unbounded operand is
//! absorbing where that matches its reading as "no bound".

use vstd::prelude::*;

verus! {

/// The largest representable length; it stands for an unbounded extent.
pub const INF: i64 = i64::MAX;

/// Addition of lengths: an unbounded operand is absorbing, the rest saturates.
pub open spec fn add_l(a: i64, b: i64) -> i64 {
    if a == INF || b == INF {
        INF
    } else if a + b > INF {
        INF
    } else if a + b < i64::MIN {
        i64::MIN
    } else {
        (a + b) as i64
    }
}

/// Subtraction of lengths: an unbounded minuend stays unbounded; subtracting
/// an unbounded amount exhausts the budget completely.
pub open spec fn sub_l(a: i64, b: i64) -> i64 {
    if a == INF {
        INF
    } else if b == INF {
        i64::MIN
    } else if a - b > INF {
        INF
    } else if a - b < i64::MIN {
        i64::MIN
    } else {
        (a - b) as i64
    }
}

pub open spec fn min_l(a: i64, b: i64) -> i64 {
    if a <= b {
        a
    } else {
        b
    }
}

pub open spec fn max_l(a: i64, b: i64) -> i64 {
    if a >= b {
        a
    } else {
        b
    }
}

/// Half of a length, for centering within leftover space; negative or
/// unbounded leftover yields no displacement.
pub open spec fn half_l(x: i64) -> i64 {
    if x <= 0 || x == INF {
        0
    } else {
        ((x as int) / 2) as i64
    }
}

/// The share of `space` owed to the weight `w` out of `total`: the integer
/// part of `space * w / total`. Degenerate inputs (no weight at all, nothing
/// left over, or an unbounded leftover) yield zero.
pub open spec fn fr_share(w: u64, total: u64, space: i64) -> i64 {
    if total == 0 || space <= 0 || space == INF {
        0
    } else {
        let q = (space as int) * (w as int) / (total as int);
        if q >= INF {
            INF
        } else {
            q as i64
        }
    }
}

/// Saturating addition of fraction weights.
pub open spec fn add_w(a: u64, b: u64) -> u64 {
    if a + b > u64::MAX {
        u64::MAX
    } else {
        (a + b) as u64
    }
}

/// Subtraction of fraction weights, stopping at zero.
pub open spec fn sub_w(a: u64, b: u64) -> u64 {
    if b <= a {
        (a - b) as u64
    } else {
        0
    }
}

pub fn weight_sub(a: u64, b: u64) -> (r: u64)
    ensures
        r == sub_w(a, b),
{
    if b <= a {
        a - b
    } else {
        0
    }
}

pub fn len_add(a: i64, b: i64) -> (r: i64)
    ensures
        r == add_l(a, b),
{
    if a == INF || b == INF {
        INF
    } else if b >= 0 {
        if a > i64::MAX - b {
            i64::MAX
        } else {
            a + b
        }
    } else {
        if a < i64::MIN - b {
            i64::MIN
        } else {
            a + b
        }
    }
}

pub fn len_sub(a: i64, b: i64) -> (r: i64)
    ensures
        r == sub_l(a, b),
{
    if a == INF {
        INF
    } else if b == INF {
        i64::MIN
    } else if b >= 0 {
        if a < i64::MIN + b {
            i64::MIN
        } else {
            a - b
        }
    } else {
        if a > i64::MAX + b {
            i64::MAX
        } else {
            a - b
        }
    }
}

pub fn len_min(a: i64, b: i64) -> (r: i64)
    ensures
        r == min_l(a, b),
{
    if a <= b {
        a
    } else {
        b
    }
}

pub fn len_max(a: i64, b: i64) -> (r: i64)
    ensures
        r == max_l(a, b),
{
    if a >= b {
        a
    } else {
        b
    }
}

pub fn len_half(x: i64) -> (r: i64)
    ensures
        r == half_l(x),
{
    if x <= 0 || x == INF {
        0
    } else {
        let h: u64 = (x as u64) / 2;
        h as i64
    }
}

pub fn weight_add(a: u64, b: u64) -> (r: u64)
    ensures
        r == add_w(a, b),
{
    if a > u64::MAX - b {
        u64::MAX
    } else {
        a + b
    }
}

pub fn fr_part(w: u64, total: u64, space: i64) -> (r: i64)
    ensures
        r == fr_share(w, total, space),
{
    if total == 0 || space <= 0 || space == INF {
        0
    } else {
        let sw: u128 = space as u128;
        let ww: u128 = w as u128;
        assert(sw * ww <= (i64::MAX as u128) * (u64::MAX as u128)) by (nonlinear_arith)
            requires
                sw <= i64::MAX as u128,
                ww <= u64::MAX as u128,
        ;
        let p: u128 = sw * ww / (total as u128);
        if p >= INF as u128 {
            INF
        } else {
            p as i64
        }
    }
}

/// A share never exceeds the space it is carved from when the weight is
/// within the total.
pub proof fn lemma_fr_share_le_space(w: u64, total: u64, space: i64)
    requires
        w <= total,
        0 <= space,
    ensures
        0 <= fr_share(w, total, space) <= space,
{
    if total > 0 && space > 0 && space != INF {
        assert(0 <= (space as int) * (w as int) / (total as int) <= space as int)
            by (nonlinear_arith)
            requires
                0 <= w as int <= total as int,
                0 < space as int,
                0 < total as int,
        ;
    }
}

/// The whole of the total takes the whole of the space.
pub proof fn lemma_fr_share_full(total: u64, space: i64)
    requires
        0 < total,
        0 <= space < INF,
    ensures
        fr_share(total, total, space) == space,
{
    if space > 0 {
        assert((space as int) * (total as int) / (total as int) == space as int)
            by (nonlinear_arith)
            requires
                0 < total as int,
                0 < space as int,
        ;
    }
}

} // verus!
