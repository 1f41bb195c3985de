use vstd::prelude::*;

verus! {

/// Bound on interval endpoints: wide enough to hold any padded box built
/// from grid coordinates, and to serve as the sentinel endpoints of the
/// empty and universal intervals.
pub const INTERVAL_LIMIT: i64 = 0x10000;

/// A closed scalar interval with integer bounds on one axis.
#[derive(Clone, Copy, Debug, PartialEq, Eq, Structural)]
pub struct Interval {
    pub min: i64,
    pub max: i64,
}

impl Interval {
    pub open spec fn in_bounds(self, bound: int) -> bool {
        &&& -bound <= self.min <= bound
        &&& -bound <= self.max <= bound
    }

    pub open spec fn spec_size(self) -> int {
        self.max - self.min
    }

    pub open spec fn spec_contains(self, x: int) -> bool {
        self.min <= x <= self.max
    }

    /// The first interval encloses the second.
    pub open spec fn encloses(self, other: Interval) -> bool {
        self.min <= other.min && other.max <= self.max
    }

    pub fn new(min: i64, max: i64) -> (r: Interval)
        ensures
            r == (Interval { min, max }),
    {
        Interval { min, max }
    }

    /// The union of two intervals, as picked endpoints.
    pub open spec fn spec_union(a: Interval, b: Interval) -> Interval {
        Interval {
            min: if a.min <= b.min { a.min } else { b.min },
            max: if a.max >= b.max { a.max } else { b.max },
        }
    }

    /// An interval thinner than one grid unit widened by one unit each side;
    /// any other interval is kept as it is.
    pub open spec fn spec_pad(iv: Interval) -> Interval {
        if iv.max - iv.min < 1 {
            Interval { min: (iv.min - 1) as i64, max: (iv.max + 1) as i64 }
        } else {
            iv
        }
    }

    /// Padding never narrows an interval, and any interval that could hold a
    /// point (even a single one) comes out at least one grid unit thick: no
    /// bounding dimension built from real extent is ever degenerate.
    pub proof fn lemma_pad_thickness(iv: Interval)
        requires
            iv.in_bounds(INTERVAL_LIMIT as int),
        ensures
            Interval::spec_pad(iv).spec_size() >= iv.spec_size(),
            Interval::spec_pad(iv).min <= iv.min,
            iv.max <= Interval::spec_pad(iv).max,
            iv.spec_size() >= -1 ==> Interval::spec_pad(iv).spec_size() >= 1,
    {
    }

    /// The inverted interval that no point lies in; the identity of union.
    pub fn empty() -> (r: Interval)
        ensures
            r.min == INTERVAL_LIMIT - 2,
            r.max == -(INTERVAL_LIMIT - 2),
    {
        Interval { min: INTERVAL_LIMIT - 2, max: -(INTERVAL_LIMIT - 2) }
    }

    /// The interval holding every representable coordinate.
    pub fn universe() -> (r: Interval)
        ensures
            r.min == -(INTERVAL_LIMIT - 2),
            r.max == INTERVAL_LIMIT - 2,
    {
        Interval { min: -(INTERVAL_LIMIT - 2), max: INTERVAL_LIMIT - 2 }
    }

    /// The interval tightly enclosing the two inputs.
    pub fn from_interval(a: &Interval, b: &Interval) -> (r: Interval)
        ensures
            r.min == (if a.min <= b.min { a.min } else { b.min }),
            r.max == (if a.max >= b.max { a.max } else { b.max }),
    {
        Interval {
            min: if a.min <= b.min { a.min } else { b.min },
            max: if a.max >= b.max { a.max } else { b.max },
        }
    }

    pub fn size(&self) -> (r: i64)
        requires
            self.in_bounds(INTERVAL_LIMIT as int),
        ensures
            r == self.spec_size(),
    {
        self.max - self.min
    }

    pub fn contains(&self, x: i64) -> (r: bool)
        ensures
            r == self.spec_contains(x as int),
    {
        self.min <= x && x <= self.max
    }

    pub fn surrounds(&self, x: i64) -> (r: bool)
        ensures
            r == (self.min < x && x < self.max),
    {
        self.min < x && x < self.max
    }

    pub fn clamp(&self, x: i64) -> (r: i64)
        ensures
            r == (if x < self.min { self.min } else if x > self.max { self.max } else { x }),
    {
        if x < self.min {
            return self.min;
        }
        if x > self.max {
            return self.max;
        }
        x
    }

    /// Widen the interval by `delta` in total, half to each side (the odd
    /// remainder goes to the upper side).
    pub fn expand(&mut self, delta: i64)
        requires
            0 <= delta <= INTERVAL_LIMIT,
            old(self).in_bounds(INTERVAL_LIMIT as int),
        ensures
            final(self).min == old(self).min - delta / 2,
            final(self).max == old(self).max + (delta - delta / 2),
            final(self).spec_size() == old(self).spec_size() + delta,
    {
        let padding: i64 = delta / 2;
        self.min = self.min - padding;
        self.max = self.max + (delta - padding);
    }

    /// The interval shifted by an offset.
    pub fn add(&self, offset: i64) -> (r: Interval)
        requires
            self.in_bounds(INTERVAL_LIMIT as int),
            -INTERVAL_LIMIT <= offset <= INTERVAL_LIMIT,
        ensures
            r.min == self.min + offset,
            r.max == self.max + offset,
    {
        Interval { min: self.min + offset, max: self.max + offset }
    }
}

} // verus!
