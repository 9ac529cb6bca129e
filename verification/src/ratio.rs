//! Exact rational ray parameters: a numerator over a positive denominator,
//! compared by cross-multiplication in `i128`.

use vstd::prelude::*;
use crate::math::{iabs, RMAX};

verus! {

#[derive(Clone, Copy, Debug, PartialEq, Eq, Structural)]
pub struct Rat {
    pub num: i64,
    pub den: i64,
}

/// A well-formed ray parameter: positive denominator, both parts small
/// enough that cross-multiplying two of them stays within `i128`.
pub open spec fn rat_wf(a: Rat) -> bool {
    0 < a.den <= RMAX && -RMAX <= a.num <= RMAX
}

/// `a <= b` as rationals (denominators positive).
pub open spec fn rat_le(a: Rat, b: Rat) -> bool {
    a.num * b.den <= b.num * a.den
}

/// `a < b` as rationals (denominators positive).
pub open spec fn rat_lt(a: Rat, b: Rat) -> bool {
    a.num * b.den < b.num * a.den
}

pub proof fn lemma_mul_bound(x: int, y: int, m1: int, m2: int)
    requires
        iabs(x) <= m1,
        iabs(y) <= m2,
    ensures
        iabs(x * y) <= m1 * m2,
    {
    assert(iabs(x * y) <= m1 * m2) by (nonlinear_arith)
        requires iabs(x) <= m1, iabs(y) <= m2;
}

pub proof fn lemma_rat_le_trans(a: Rat, b: Rat, c: Rat)
    requires
        rat_wf(a) && rat_wf(b) && rat_wf(c),
        rat_le(a, b),
        rat_le(b, c),
    ensures
        rat_le(a, c),
{
    assert(a.num * c.den <= c.num * a.den) by (nonlinear_arith)
        requires
            a.num * b.den <= b.num * a.den,
            b.num * c.den <= c.num * b.den,
            a.den > 0, b.den > 0, c.den > 0,
    ;
}

/// `tmin < num/den < tmax`, all denominators positive.
pub open spec fn in_open_range(num: int, den: int, tmin: Rat, tmax: Rat) -> bool {
    &&& tmin.num * den < num * tmin.den
    &&& num * tmax.den < tmax.num * den
}

/// Decides the open-window test for an exact rational candidate.
pub fn check_open_range(num: i64, den: i64, tmin: &Rat, tmax: &Rat) -> (res: bool)
    requires
        rat_wf(*tmin),
        rat_wf(*tmax),
        -RMAX <= num <= RMAX,
        0 < den <= RMAX,
    ensures
        res == in_open_range(num as int, den as int, *tmin, *tmax),
{
    proof {
        lemma_mul_bound(tmin.num as int, den as int, RMAX as int, RMAX as int);
        lemma_mul_bound(num as int, tmin.den as int, RMAX as int, RMAX as int);
        lemma_mul_bound(num as int, tmax.den as int, RMAX as int, RMAX as int);
        lemma_mul_bound(tmax.num as int, den as int, RMAX as int, RMAX as int);
    }
    (tmin.num as i128) * (den as i128) < (num as i128) * (tmin.den as i128)
        && (num as i128) * (tmax.den as i128) < (tmax.num as i128) * (den as i128)
}

impl Rat {
    pub fn new(num: i64, den: i64) -> (r: Rat)
        requires
            1 <= den <= RMAX,
            -RMAX <= num <= RMAX,
        ensures
            r.num == num,
            r.den == den,
            rat_wf(r),
    {
        Rat { num, den }
    }

    /// The rational with value `n`.
    pub fn from_int(n: i64) -> (r: Rat)
        requires
            -RMAX <= n <= RMAX,
        ensures
            r.num == n,
            r.den == 1,
            rat_wf(r),
    {
        Rat { num: n, den: 1 }
    }

    pub fn le(&self, other: &Rat) -> (r: bool)
        requires
            rat_wf(*self),
            rat_wf(*other),
        ensures
            r == rat_le(*self, *other),
    {
        proof {
            lemma_mul_bound(self.num as int, other.den as int, RMAX as int, RMAX as int);
            lemma_mul_bound(other.num as int, self.den as int, RMAX as int, RMAX as int);
        }
        (self.num as i128) * (other.den as i128) <= (other.num as i128) * (self.den as i128)
    }

    pub fn lt(&self, other: &Rat) -> (r: bool)
        requires
            rat_wf(*self),
            rat_wf(*other),
        ensures
            r == rat_lt(*self, *other),
    {
        proof {
            lemma_mul_bound(self.num as int, other.den as int, RMAX as int, RMAX as int);
            lemma_mul_bound(other.num as int, self.den as int, RMAX as int, RMAX as int);
        }
        (self.num as i128) * (other.den as i128) < (other.num as i128) * (self.den as i128)
    }

    /// The larger of the two parameters (the left one on ties).
    pub fn max(&self, other: &Rat) -> (r: Rat)
        requires
            rat_wf(*self),
            rat_wf(*other),
        ensures
            r == if rat_lt(*self, *other) { *other } else { *self },
            rat_wf(r),
            rat_le(*self, r) && rat_le(*other, r),
    {
        if self.lt(other) { *other } else { *self }
    }

    /// The smaller of the two parameters (the left one on ties).
    pub fn min(&self, other: &Rat) -> (r: Rat)
        requires
            rat_wf(*self),
            rat_wf(*other),
        ensures
            r == if rat_lt(*other, *self) { *other } else { *self },
            rat_wf(r),
            rat_le(r, *self) && rat_le(r, *other),
    {
        if other.lt(self) { *other } else { *self }
    }
}

} // verus!
