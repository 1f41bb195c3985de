use vstd::prelude::*;
use crate::interval::{Interval, INTERVAL_LIMIT};
use crate::rat::{frac_between, lemma_frac_le_trans, Rat, TInterval, RAT_LIMIT};
use crate::ray::Ray;
use crate::vec3::{Axis, Vec3, COORD_LIMIT};

verus! {

/// An axis-aligned bounding box: one closed interval per axis.
#[derive(Clone, Copy, Debug, PartialEq, Eq, Structural)]
pub struct AABB {
    pub x: Interval,
    pub y: Interval,
    pub z: Interval,
}

/// Multiplying both sides of `a <= b` by a positive factor keeps the order.
pub proof fn lemma_mono_mul(a: int, b: int, c: int)
    by (nonlinear_arith)
    requires
        a <= b,
        c >= 1,
    ensures
        a * c <= b * c,
{
}

/// Multiplying both sides of `a < b` by a positive factor keeps the order.
pub proof fn lemma_mono_mul_strict(a: int, b: int, c: int)
    by (nonlinear_arith)
    requires
        a < b,
        c >= 1,
    ensures
        a * c < b * c,
{
}

impl AABB {
    pub open spec fn in_bounds(self, bound: int) -> bool {
        &&& self.x.in_bounds(bound)
        &&& self.y.in_bounds(bound)
        &&& self.z.in_bounds(bound)
    }

    /// Endpoints small enough for the slab test's products.
    pub open spec fn wf(self) -> bool {
        self.in_bounds((INTERVAL_LIMIT - 1) as int)
    }

    pub open spec fn spec_axis_interval(self, axis: Axis) -> Interval {
        match axis {
            Axis::X => self.x,
            Axis::Y => self.y,
            Axis::Z => self.z,
        }
    }

    pub open spec fn contains_point(self, px: int, py: int, pz: int) -> bool {
        &&& self.x.spec_contains(px)
        &&& self.y.spec_contains(py)
        &&& self.z.spec_contains(pz)
    }

    /// Every point of `other` lies in `self`, axis by axis.
    pub open spec fn encloses(self, other: AABB) -> bool {
        &&& self.x.encloses(other.x)
        &&& self.y.encloses(other.y)
        &&& self.z.encloses(other.z)
    }

    /// At parameter `tn`/`td` the ray's point lies within `iv` on the axis
    /// with origin component `o` and direction component `d` (all scaled by
    /// the positive denominator `td`).
    pub open spec fn axis_through(iv: Interval, o: i64, d: i64, tn: int, td: int) -> bool {
        &&& iv.min * td <= o * td + d * tn
        &&& o * td + d * tn <= iv.max * td
    }

    /// `tn`/`td` is a parameter within the query range at which the ray's
    /// point lies inside the box on every axis.
    pub open spec fn param_through(self, ray: Ray, ray_t: TInterval, tn: int, td: int) -> bool {
        &&& td >= 1
        &&& ray_t.admits(tn, td)
        &&& Self::axis_through(self.x, ray.orig.x, ray.dir.x, tn, td)
        &&& Self::axis_through(self.y, ray.orig.y, ray.dir.y, tn, td)
        &&& Self::axis_through(self.z, ray.orig.z, ray.dir.z, tn, td)
    }

    /// The ray's parametric line passes through the box at some parameter of
    /// the query range.
    pub open spec fn spec_hit(self, ray: Ray, ray_t: TInterval) -> bool {
        exists|tn: int, td: int| #[trigger] self.param_through(ray, ray_t, tn, td)
    }

    /// The box that no point lies in; the identity of box union.
    pub fn empty() -> (r: AABB)
        ensures
            r.x == (Interval { min: (INTERVAL_LIMIT - 2) as i64, max: (-(INTERVAL_LIMIT - 2)) as i64 }),
            r.y == r.x,
            r.z == r.x,
            r.wf(),
    {
        AABB {
            x: Interval::empty(),
            y: Interval::empty(),
            z: Interval::empty(),
        }
    }

    /// Assemble a box from three axis intervals, padded so no axis is
    /// degenerately thin.
    pub fn from_interval(x: Interval, y: Interval, z: Interval) -> (r: AABB)
        requires
            x.in_bounds((INTERVAL_LIMIT - 2) as int),
            y.in_bounds((INTERVAL_LIMIT - 2) as int),
            z.in_bounds((INTERVAL_LIMIT - 2) as int),
        ensures
            r.x == Interval::spec_pad(x),
            r.y == Interval::spec_pad(y),
            r.z == Interval::spec_pad(z),
            r.wf(),
    {
        let mut aabb: AABB = AABB { x, y, z };
        aabb.pad_to_minimums();
        aabb
    }

    /// The padded box whose extremes are the two given points, in either
    /// coordinate order.
    pub fn from_point(a: &Vec3, b: &Vec3) -> (r: AABB)
        requires
            a.in_bounds(COORD_LIMIT as int),
            b.in_bounds(COORD_LIMIT as int),
        ensures
            r.x == Interval::spec_pad(Interval {
                min: (if a.x <= b.x { a.x } else { b.x }),
                max: (if a.x >= b.x { a.x } else { b.x }),
            }),
            r.y == Interval::spec_pad(Interval {
                min: (if a.y <= b.y { a.y } else { b.y }),
                max: (if a.y >= b.y { a.y } else { b.y }),
            }),
            r.z == Interval::spec_pad(Interval {
                min: (if a.z <= b.z { a.z } else { b.z }),
                max: (if a.z >= b.z { a.z } else { b.z }),
            }),
            r.contains_point(a.x as int, a.y as int, a.z as int),
            r.contains_point(b.x as int, b.y as int, b.z as int),
            r.in_bounds((COORD_LIMIT + 1) as int),
            r.x.spec_size() >= 1,
            r.y.spec_size() >= 1,
            r.z.spec_size() >= 1,
            r.wf(),
    {
        let x = Interval {
            min: if a.x <= b.x { a.x } else { b.x },
            max: if a.x >= b.x { a.x } else { b.x },
        };
        let y = Interval {
            min: if a.y <= b.y { a.y } else { b.y },
            max: if a.y >= b.y { a.y } else { b.y },
        };
        let z = Interval {
            min: if a.z <= b.z { a.z } else { b.z },
            max: if a.z >= b.z { a.z } else { b.z },
        };
        Self::from_interval(x, y, z)
    }

    /// The padded union: a box enclosing both inputs, axis by axis.
    pub fn from_bounding_box(box1: &AABB, box2: &AABB) -> (r: AABB)
        requires
            box1.in_bounds((INTERVAL_LIMIT - 2) as int),
            box2.in_bounds((INTERVAL_LIMIT - 2) as int),
        ensures
            r.x == Interval::spec_pad(Interval::spec_union(box1.x, box2.x)),
            r.y == Interval::spec_pad(Interval::spec_union(box1.y, box2.y)),
            r.z == Interval::spec_pad(Interval::spec_union(box1.z, box2.z)),
            r.encloses(*box1),
            r.encloses(*box2),
            r.wf(),
    {
        Self::from_interval(
            Interval::from_interval(&box1.x, &box2.x),
            Interval::from_interval(&box1.y, &box2.y),
            Interval::from_interval(&box1.z, &box2.z),
        )
    }

    pub fn axis_interval(&self, axis: Axis) -> (r: Interval)
        ensures
            r == self.spec_axis_interval(axis),
    {
        match axis {
            Axis::X => self.x,
            Axis::Y => self.y,
            Axis::Z => self.z,
        }
    }

    /// The axis of greatest extent; ties go to X first, then Y.
    pub fn longest_axis(&self) -> (r: Axis)
        requires
            self.in_bounds(INTERVAL_LIMIT as int),
        ensures
            r == (if self.x.spec_size() >= self.y.spec_size() && self.x.spec_size()
                >= self.z.spec_size() {
                Axis::X
            } else if self.y.spec_size() >= self.z.spec_size() {
                Axis::Y
            } else {
                Axis::Z
            }),
    {
        if self.x.size() >= self.y.size() && self.x.size() >= self.z.size() {
            Axis::X
        } else if self.y.size() >= self.z.size() {
            Axis::Y
        } else {
            Axis::Z
        }
    }

    /// The box shifted by an offset vector.
    pub fn add(&self, offset: &Vec3) -> (r: AABB)
        requires
            self.in_bounds(INTERVAL_LIMIT as int),
            offset.in_bounds(INTERVAL_LIMIT as int),
        ensures
            r.x.min == self.x.min + offset.x,
            r.x.max == self.x.max + offset.x,
            r.y.min == self.y.min + offset.y,
            r.y.max == self.y.max + offset.y,
            r.z.min == self.z.min + offset.z,
            r.z.max == self.z.max + offset.z,
    {
        AABB {
            x: self.x.add(offset.x),
            y: self.y.add(offset.y),
            z: self.z.add(offset.z),
        }
    }

    /// Widen any axis thinner than one grid unit, so no slab is degenerate.
    fn pad_to_minimums(&mut self)
        requires
            old(self).in_bounds((INTERVAL_LIMIT - 2) as int),
        ensures
            final(self).x == Interval::spec_pad(old(self).x),
            final(self).y == Interval::spec_pad(old(self).y),
            final(self).z == Interval::spec_pad(old(self).z),
            final(self).wf(),
    {
        if self.x.size() < 1 {
            self.x.expand(2);
        }
        if self.y.size() < 1 {
            self.y.expand(2);
        }
        if self.z.size() < 1 {
            self.z.expand(2);
        }
    }

    /// The slab test: true exactly when the ray's parametric line passes
    /// through the box at some parameter within the query range.
    pub fn hit(&self, ray: &Ray, ray_t: &TInterval) -> (r: bool)
        requires
            self.wf(),
            ray.in_bounds(COORD_LIMIT as int),
            ray_t.wf(),
        ensures
            r == self.spec_hit(*ray, *ray_t),
    {
        let (ok_x, lo_x, hi_x) = slab_narrow(self.x, ray.orig.x, ray.dir.x, ray_t.min, ray_t.max);
        if !ok_x {
            proof {
                assert forall|tn: int, td: int| !self.param_through(*ray, *ray_t, tn, td) by {}
            }
            return false;
        }
        let (ok_y, lo_y, hi_y) = slab_narrow(self.y, ray.orig.y, ray.dir.y, lo_x, hi_x);
        if !ok_y {
            proof {
                assert forall|tn: int, td: int| !self.param_through(*ray, *ray_t, tn, td) by {
                    if self.param_through(*ray, *ray_t, tn, td) {
                        assert(frac_between(lo_x, hi_x, tn, td));
                    }
                }
            }
            return false;
        }
        let (ok_z, lo_z, hi_z) = slab_narrow(self.z, ray.orig.z, ray.dir.z, lo_y, hi_y);
        if !ok_z {
            proof {
                assert forall|tn: int, td: int| !self.param_through(*ray, *ray_t, tn, td) by {
                    if self.param_through(*ray, *ray_t, tn, td) {
                        assert(frac_between(lo_x, hi_x, tn, td));
                        assert(frac_between(lo_y, hi_y, tn, td));
                    }
                }
            }
            return false;
        }
        let r = Rat::le(&lo_z, &hi_z);
        proof {
            if r {
                let tn = lo_z.num as int;
                let td = lo_z.den as int;
                assert(frac_between(lo_z, hi_z, tn, td));
                assert(frac_between(lo_y, hi_y, tn, td));
                assert(frac_between(lo_x, hi_x, tn, td));
                assert(self.param_through(*ray, *ray_t, tn, td));
            } else {
                assert forall|tn: int, td: int| !self.param_through(*ray, *ray_t, tn, td) by {
                    if self.param_through(*ray, *ray_t, tn, td) {
                        assert(frac_between(lo_x, hi_x, tn, td));
                        assert(frac_between(lo_y, hi_y, tn, td));
                        assert(frac_between(lo_z, hi_z, tn, td));
                        lemma_frac_le_trans(lo_z.num as int, lo_z.den as int, tn, td,
                            hi_z.num as int, hi_z.den as int);
                    }
                }
            }
        }
        r
    }
}

/// Every point of an enclosed box lies in the enclosing box, so a ray passing
/// through the inner box also passes through the outer one.
pub proof fn lemma_hit_monotone(outer: AABB, inner: AABB, ray: Ray, ray_t: TInterval)
    requires
        outer.encloses(inner),
        inner.spec_hit(ray, ray_t),
    ensures
        outer.spec_hit(ray, ray_t),
{
    let (tn, td) = choose|tn: int, td: int| inner.param_through(ray, ray_t, tn, td);
    lemma_mono_mul(outer.x.min as int, inner.x.min as int, td);
    lemma_mono_mul(inner.x.max as int, outer.x.max as int, td);
    lemma_mono_mul(outer.y.min as int, inner.y.min as int, td);
    lemma_mono_mul(inner.y.max as int, outer.y.max as int, td);
    lemma_mono_mul(outer.z.min as int, inner.z.min as int, td);
    lemma_mono_mul(inner.z.max as int, outer.z.max as int, td);
    assert(outer.param_through(ray, ray_t, tn, td));
}

/// Fold one axis slab into the running closed parameter range, keeping the
/// range's meaning pointwise: a parameter lies in the narrowed range exactly
/// when it lay in the old range and passes this axis. A `false` result means
/// no parameter can pass.
fn slab_narrow(iv: Interval, o: i64, d: i64, lo: Rat, hi: Rat) -> (res: (bool, Rat, Rat))
    requires
        iv.in_bounds((INTERVAL_LIMIT - 1) as int),
        -COORD_LIMIT <= o <= COORD_LIMIT,
        -COORD_LIMIT <= d <= COORD_LIMIT,
        lo.wf(),
        hi.wf(),
        lo.bounded(RAT_LIMIT as int),
        hi.bounded(RAT_LIMIT as int),
    ensures
        res.1.wf(),
        res.2.wf(),
        res.1.bounded(RAT_LIMIT as int),
        res.2.bounded(RAT_LIMIT as int),
        res.0 ==> forall|tn: int, td: int|
            #![trigger frac_between(res.1, res.2, tn, td)]
            #![trigger frac_between(lo, hi, tn, td)]
            td >= 1 ==> (frac_between(res.1, res.2, tn, td) <==> (frac_between(lo, hi, tn, td)
                && AABB::axis_through(iv, o, d, tn, td))),
        !res.0 ==> forall|tn: int, td: int|
            #![trigger frac_between(lo, hi, tn, td)]
            td >= 1 ==> !(frac_between(lo, hi, tn, td) && AABB::axis_through(iv, o, d, tn, td)),
{
    if d == 0 {
        if iv.min <= o && o <= iv.max {
            proof {
                assert forall|tn: int, td: int| td >= 1 implies AABB::axis_through(iv, o, d, tn,
                    td) by {
                    lemma_mono_mul(iv.min as int, o as int, td);
                    lemma_mono_mul(o as int, iv.max as int, td);
                    assert(d * tn == 0) by (nonlinear_arith)
                        requires
                            d == 0,
                    ;
                }
            }
            (true, lo, hi)
        } else {
            proof {
                assert forall|tn: int, td: int| td >= 1 implies !AABB::axis_through(iv, o, d, tn,
                    td) by {
                    assert(d * tn == 0) by (nonlinear_arith)
                        requires
                            d == 0,
                    ;
                    if o < iv.min {
                        lemma_mono_mul_strict(o as int, iv.min as int, td);
                    } else {
                        lemma_mono_mul_strict(iv.max as int, o as int, td);
                    }
                }
            }
            (false, lo, hi)
        }
    } else {
        let lo_ax: Rat;
        let hi_ax: Rat;
        if d > 0 {
            lo_ax = Rat { num: iv.min as i128 - o as i128, den: d as i128 };
            hi_ax = Rat { num: iv.max as i128 - o as i128, den: d as i128 };
        } else {
            lo_ax = Rat { num: o as i128 - iv.max as i128, den: -(d as i128) };
            hi_ax = Rat { num: o as i128 - iv.min as i128, den: -(d as i128) };
        }
        proof {
            assert forall|tn: int, td: int| td >= 1 implies (AABB::axis_through(iv, o, d, tn, td)
                <==> frac_between(lo_ax, hi_ax, tn, td)) by {
                let ivmin = iv.min as int;
                let ivmax = iv.max as int;
                let oo = o as int;
                let dd = d as int;
                assert((ivmin - oo) * td == ivmin * td - oo * td) by (nonlinear_arith);
                assert((ivmax - oo) * td == ivmax * td - oo * td) by (nonlinear_arith);
                assert((oo - ivmin) * td == oo * td - ivmin * td) by (nonlinear_arith);
                assert((oo - ivmax) * td == oo * td - ivmax * td) by (nonlinear_arith);
                assert(tn * (0 - dd) == 0 - tn * dd) by (nonlinear_arith);
                assert((0 - dd) * td == 0 - dd * td) by (nonlinear_arith);
                assert(tn * dd == dd * tn) by (nonlinear_arith);
            }
        }
        let keep_lo: bool = Rat::lt(&lo, &lo_ax);
        let new_lo: Rat = if keep_lo { lo_ax } else { lo };
        let keep_hi: bool = Rat::lt(&hi_ax, &hi);
        let new_hi: Rat = if keep_hi { hi_ax } else { hi };
        proof {
            assert forall|tn: int, td: int| td >= 1 implies (frac_between(new_lo, new_hi, tn, td)
                <==> (frac_between(lo, hi, tn, td) && frac_between(lo_ax, hi_ax, tn, td))) by {
                if frac_between(new_lo, new_hi, tn, td) {
                    if keep_lo {
                        lemma_frac_le_trans(lo.num as int, lo.den as int, lo_ax.num as int,
                            lo_ax.den as int, tn, td);
                    } else {
                        lemma_frac_le_trans(lo_ax.num as int, lo_ax.den as int, lo.num as int,
                            lo.den as int, tn, td);
                    }
                    if keep_hi {
                        lemma_frac_le_trans(tn, td, hi_ax.num as int, hi_ax.den as int,
                            hi.num as int, hi.den as int);
                    } else {
                        lemma_frac_le_trans(tn, td, hi.num as int, hi.den as int, hi_ax.num as int,
                            hi_ax.den as int);
                    }
                }
            }
        }
        (true, new_lo, new_hi)
    }
}

} // verus!
