use vstd::prelude::*;
use crate::vec3::lemma_mul_bound;

verus! {

/// Bound on the numerator magnitude and denominator of every ray parameter:
/// small enough that cross-multiplied comparisons of two parameters fit a
/// 128-bit integer, large enough for the parameter of any planar hit on the
/// coordinate grid.
pub const RAT_LIMIT: i128 = 0x10_0000_0000_0000;

/// Bound on the rationals the shading arithmetic combines (colors in
/// thousandths, densities): small enough that a product of five of them
/// still fits a 128-bit integer.
pub const DENSITY_LIMIT: i128 = 0x10_0000;

/// An exact rational ray parameter, kept with a positive denominator.
#[derive(Clone, Copy, Debug, PartialEq, Eq, Structural)]
pub struct Rat {
    pub num: i128,
    pub den: i128,
}

impl Rat {
    pub open spec fn wf(self) -> bool {
        self.den >= 1
    }

    pub open spec fn bounded(self, bound: int) -> bool {
        &&& -bound <= self.num <= bound
        &&& self.den <= bound
    }

    /// `self` <= `other` as rational numbers.
    pub open spec fn spec_le(self, other: Rat) -> bool {
        self.num * other.den <= other.num * self.den
    }

    /// `self` < `other` as rational numbers.
    pub open spec fn spec_lt(self, other: Rat) -> bool {
        self.num * other.den < other.num * self.den
    }

    /// `self` and `other` denote the same rational number.
    pub open spec fn spec_eq(self, other: Rat) -> bool {
        self.num * other.den == other.num * self.den
    }

    pub fn from_int(n: i64) -> (r: Rat)
        ensures
            r.num == n,
            r.den == 1,
            r.wf(),
    {
        Rat { num: n as i128, den: 1 }
    }

    pub fn le(a: &Rat, b: &Rat) -> (r: bool)
        requires
            a.wf(),
            b.wf(),
            a.bounded(RAT_LIMIT as int),
            b.bounded(RAT_LIMIT as int),
        ensures
            r == a.spec_le(*b),
    {
        proof {
            lemma_mul_bound(a.num as int, b.den as int, RAT_LIMIT as int, RAT_LIMIT as int);
            lemma_mul_bound(b.num as int, a.den as int, RAT_LIMIT as int, RAT_LIMIT as int);
        }
        a.num * b.den <= b.num * a.den
    }

    pub fn lt(a: &Rat, b: &Rat) -> (r: bool)
        requires
            a.wf(),
            b.wf(),
            a.bounded(RAT_LIMIT as int),
            b.bounded(RAT_LIMIT as int),
        ensures
            r == a.spec_lt(*b),
    {
        proof {
            lemma_mul_bound(a.num as int, b.den as int, RAT_LIMIT as int, RAT_LIMIT as int);
            lemma_mul_bound(b.num as int, a.den as int, RAT_LIMIT as int, RAT_LIMIT as int);
        }
        a.num * b.den < b.num * a.den
    }
}

/// Transitivity of `<=` for fractions given as numerator/denominator pairs.
pub proof fn lemma_frac_le_trans(an: int, ad: int, bn: int, bd: int, cn: int, cd: int)
    by (nonlinear_arith)
    requires
        ad >= 1,
        bd >= 1,
        cd >= 1,
        an * bd <= bn * ad,
        bn * cd <= cn * bd,
    ensures
        an * cd <= cn * ad,
{
}

/// Transitivity of rational `<=` on `Rat` values.
pub proof fn lemma_rat_le_trans(a: Rat, b: Rat, c: Rat)
    requires
        a.wf(),
        b.wf(),
        c.wf(),
        a.spec_le(b),
        b.spec_le(c),
    ensures
        a.spec_le(c),
{
    lemma_frac_le_trans(a.num as int, a.den as int, b.num as int, b.den as int, c.num as int,
        c.den as int);
}

/// A point with exact rational coordinates.
#[derive(Clone, Copy, Debug, PartialEq, Eq, Structural)]
pub struct RatPoint {
    pub x: Rat,
    pub y: Rat,
    pub z: Rat,
}

/// The fraction `tn`/`td` (with `td` positive) lies in the closed range
/// between the rationals `lo` and `hi`.
pub open spec fn frac_between(lo: Rat, hi: Rat, tn: int, td: int) -> bool {
    &&& lo.num * td <= tn * lo.den
    &&& tn * hi.den <= hi.num * td
}

/// A closed range of ray parameters.
#[derive(Clone, Copy, Debug, PartialEq, Eq, Structural)]
pub struct TInterval {
    pub min: Rat,
    pub max: Rat,
}

impl TInterval {
    pub open spec fn wf(self) -> bool {
        &&& self.min.wf()
        &&& self.max.wf()
        &&& self.min.bounded(RAT_LIMIT as int)
        &&& self.max.bounded(RAT_LIMIT as int)
    }

    /// The fraction `tn`/`td` lies within the closed range.
    pub open spec fn admits(self, tn: int, td: int) -> bool {
        frac_between(self.min, self.max, tn, td)
    }

    pub fn new(min: Rat, max: Rat) -> (r: TInterval)
        ensures
            r == (TInterval { min, max }),
    {
        TInterval { min, max }
    }

    /// The range of parameters of every forward hit: zero up to the largest
    /// representable parameter.
    pub fn forward() -> (r: TInterval)
        ensures
            r.min.num == 0,
            r.min.den == 1,
            r.max.num == RAT_LIMIT,
            r.max.den == 1,
            r.wf(),
    {
        TInterval { min: Rat { num: 0, den: 1 }, max: Rat { num: RAT_LIMIT, den: 1 } }
    }
}

} // verus!
