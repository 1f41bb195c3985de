use vstd::prelude::*;
use crate::aabb::{lemma_mono_mul, AABB};
use crate::interval::Interval;
use crate::rat::{Rat, RatPoint, TInterval, RAT_LIMIT};
use crate::ray::Ray;
use crate::vec3::{lemma_mul_bound, Vec3, COORD_LIMIT};

verus! {

/// Inner product of two grid vectors, computed exactly in 128 bits.
pub fn dot_wide(a: &Vec3, b: &Vec3) -> (r: i128)
    requires
        a.in_bounds(0x1_0000_0000_0000),
        b.in_bounds(0x1_0000_0000_0000),
    ensures
        r == Vec3::sdot(*a, *b),
{
    proof {
        lemma_mul_bound(a.x as int, b.x as int, 0x1_0000_0000_0000, 0x1_0000_0000_0000);
        lemma_mul_bound(a.y as int, b.y as int, 0x1_0000_0000_0000, 0x1_0000_0000_0000);
        lemma_mul_bound(a.z as int, b.z as int, 0x1_0000_0000_0000, 0x1_0000_0000_0000);
    }
    (a.x as i128) * (b.x as i128) + (a.y as i128) * (b.y as i128) + (a.z as i128) * (b.z as i128)
}

/// Magnitude bound for an inner product of componentwise-bounded vectors.
pub proof fn lemma_sdot_bound(a: Vec3, b: Vec3, am: int, bm: int)
    requires
        a.in_bounds(am),
        b.in_bounds(bm),
        am >= 0,
        bm >= 0,
    ensures
        -(3 * (am * bm)) <= Vec3::sdot(a, b) <= 3 * (am * bm),
{
    lemma_mul_bound(a.x as int, b.x as int, am, bm);
    lemma_mul_bound(a.y as int, b.y as int, am, bm);
    lemma_mul_bound(a.z as int, b.z as int, am, bm);
}

/// Magnitude bound for the components of a cross product.
pub proof fn lemma_scross_bound(a: Vec3, b: Vec3, am: int, bm: int)
    requires
        a.in_bounds(am),
        b.in_bounds(bm),
        am >= 0,
        bm >= 0,
    ensures
        -(2 * (am * bm)) <= Vec3::scross(a, b).0 <= 2 * (am * bm),
        -(2 * (am * bm)) <= Vec3::scross(a, b).1 <= 2 * (am * bm),
        -(2 * (am * bm)) <= Vec3::scross(a, b).2 <= 2 * (am * bm),
{
    lemma_mul_bound(a.y as int, b.z as int, am, bm);
    lemma_mul_bound(a.z as int, b.y as int, am, bm);
    lemma_mul_bound(a.z as int, b.x as int, am, bm);
    lemma_mul_bound(a.x as int, b.z as int, am, bm);
    lemma_mul_bound(a.x as int, b.y as int, am, bm);
    lemma_mul_bound(a.y as int, b.x as int, am, bm);
}

/// Where a ray meets the plane of a planar primitive: the exact parameter,
/// the meeting point, and the point's coordinates in the primitive's basis.
#[derive(Clone, Copy, Debug, PartialEq, Eq, Structural)]
pub struct PlanarHitRecord {
    pub intersection_pt: RatPoint,
    pub t: Rat,
    pub alpha: Rat,
    pub beta: Rat,
}

impl PlanarHitRecord {
    pub open spec fn wf(self) -> bool {
        &&& self.t.wf()
        &&& self.t.bounded(RAT_LIMIT as int)
        &&& self.alpha.wf()
        &&& self.beta.wf()
        &&& self.alpha.den == self.beta.den
        &&& self.alpha.bounded(0x2000_0000_0000_0000_0000_0000_0000_0000)
        &&& self.beta.bounded(0x2000_0000_0000_0000_0000_0000_0000_0000)
        &&& self.intersection_pt.x.wf()
        &&& self.intersection_pt.y.wf()
        &&& self.intersection_pt.z.wf()
    }
}

/// The plane spanned by two side vectors from a corner point. The normal and
/// the plane equation's constant are cached exactly.
#[derive(Clone, Copy, Debug, PartialEq, Eq, Structural)]
pub struct Plane {
    pub corner: Vec3,
    pub side_a: Vec3,
    pub side_b: Vec3,
    pub normal: Vec3,
    pub quad_eq_d: i128,
}

impl Plane {
    /// All four corner points of the spanned cell lie on the grid, the cached
    /// normal is the exact cross product of the sides (and is not zero), and
    /// the cached constant is the exact plane equation constant.
    pub open spec fn wf(self) -> bool {
        &&& self.corner.in_bounds(COORD_LIMIT as int)
        &&& -COORD_LIMIT <= self.corner.x + self.side_a.x <= COORD_LIMIT
        &&& -COORD_LIMIT <= self.corner.y + self.side_a.y <= COORD_LIMIT
        &&& -COORD_LIMIT <= self.corner.z + self.side_a.z <= COORD_LIMIT
        &&& -COORD_LIMIT <= self.corner.x + self.side_b.x <= COORD_LIMIT
        &&& -COORD_LIMIT <= self.corner.y + self.side_b.y <= COORD_LIMIT
        &&& -COORD_LIMIT <= self.corner.z + self.side_b.z <= COORD_LIMIT
        &&& -COORD_LIMIT <= self.corner.x + self.side_a.x + self.side_b.x <= COORD_LIMIT
        &&& -COORD_LIMIT <= self.corner.y + self.side_a.y + self.side_b.y <= COORD_LIMIT
        &&& -COORD_LIMIT <= self.corner.z + self.side_a.z + self.side_b.z <= COORD_LIMIT
        &&& (self.normal.x as int, self.normal.y as int, self.normal.z as int) == Vec3::scross(
            self.side_a,
            self.side_b,
        )
        &&& !self.normal.is_zero()
        &&& self.quad_eq_d == Vec3::sdot(self.normal, self.corner)
    }

    pub fn new(corner: &Vec3, side_a: &Vec3, side_b: &Vec3) -> (r: Plane)
        requires
            corner.in_bounds(COORD_LIMIT as int),
            -COORD_LIMIT <= corner.x + side_a.x <= COORD_LIMIT,
            -COORD_LIMIT <= corner.y + side_a.y <= COORD_LIMIT,
            -COORD_LIMIT <= corner.z + side_a.z <= COORD_LIMIT,
            -COORD_LIMIT <= corner.x + side_b.x <= COORD_LIMIT,
            -COORD_LIMIT <= corner.y + side_b.y <= COORD_LIMIT,
            -COORD_LIMIT <= corner.z + side_b.z <= COORD_LIMIT,
            -COORD_LIMIT <= corner.x + side_a.x + side_b.x <= COORD_LIMIT,
            -COORD_LIMIT <= corner.y + side_a.y + side_b.y <= COORD_LIMIT,
            -COORD_LIMIT <= corner.z + side_a.z + side_b.z <= COORD_LIMIT,
            Vec3::scross(*side_a, *side_b) != (0int, 0int, 0int),
        ensures
            r.wf(),
            r.corner == *corner,
            r.side_a == *side_a,
            r.side_b == *side_b,
    {
        proof {
            lemma_scross_bound(*side_a, *side_b, 2 * COORD_LIMIT as int, 2 * COORD_LIMIT as int);
        }
        let normal: Vec3 = Vec3::cross(side_a, side_b);
        let quad_eq_d: i128 = dot_wide(&normal, corner);
        Plane { corner: *corner, side_a: *side_a, side_b: *side_b, normal, quad_eq_d }
    }
}

/// The inner product of the plane's normal with the ray's direction.
pub open spec fn spec_nd(p: Plane, ray: Ray) -> int {
    Vec3::sdot(p.normal, ray.dir)
}

/// The signed distance numerator of the plane equation at the ray's origin.
pub open spec fn spec_raw(p: Plane, ray: Ray) -> int {
    p.quad_eq_d - Vec3::sdot(p.normal, ray.orig)
}

/// Numerator of the crossing parameter, normalized to a positive denominator.
pub open spec fn spec_tnum(p: Plane, ray: Ray) -> int {
    if spec_nd(p, ray) > 0 {
        spec_raw(p, ray)
    } else {
        -spec_raw(p, ray)
    }
}

/// Denominator of the crossing parameter (positive when the ray crosses).
pub open spec fn spec_tden(p: Plane, ray: Ray) -> int {
    if spec_nd(p, ray) > 0 {
        spec_nd(p, ray)
    } else {
        -spec_nd(p, ray)
    }
}

/// Scaled offset from the plane's corner to the crossing point.
pub open spec fn spec_mx(p: Plane, ray: Ray) -> int {
    (ray.orig.x - p.corner.x) * spec_tden(p, ray) + spec_tnum(p, ray) * ray.dir.x
}

pub open spec fn spec_my(p: Plane, ray: Ray) -> int {
    (ray.orig.y - p.corner.y) * spec_tden(p, ray) + spec_tnum(p, ray) * ray.dir.y
}

pub open spec fn spec_mz(p: Plane, ray: Ray) -> int {
    (ray.orig.z - p.corner.z) * spec_tden(p, ray) + spec_tnum(p, ray) * ray.dir.z
}

/// Squared length of the plane's normal.
pub open spec fn spec_nn(p: Plane) -> int {
    Vec3::sdot(p.normal, p.normal)
}

/// Numerator of the first basis coordinate of the crossing point.
pub open spec fn spec_alpha_num(p: Plane, ray: Ray) -> int {
    p.normal.x * (spec_my(p, ray) * p.side_b.z - spec_mz(p, ray) * p.side_b.y) + p.normal.y * (
    spec_mz(p, ray) * p.side_b.x - spec_mx(p, ray) * p.side_b.z) + p.normal.z * (spec_mx(p, ray)
        * p.side_b.y - spec_my(p, ray) * p.side_b.x)
}

/// Numerator of the second basis coordinate of the crossing point.
pub open spec fn spec_beta_num(p: Plane, ray: Ray) -> int {
    p.normal.x * (p.side_a.y * spec_mz(p, ray) - p.side_a.z * spec_my(p, ray)) + p.normal.y * (
    p.side_a.z * spec_mx(p, ray) - p.side_a.x * spec_mz(p, ray)) + p.normal.z * (p.side_a.x
        * spec_my(p, ray) - p.side_a.y * spec_mx(p, ray))
}

/// Shared denominator of both basis coordinates.
pub open spec fn spec_den(p: Plane, ray: Ray) -> int {
    spec_tden(p, ray) * spec_nn(p)
}

/// The exact intersection data of a ray crossing the plane.
pub open spec fn spec_planar_record(p: Plane, ray: Ray) -> PlanarHitRecord {
    let tnum = spec_tnum(p, ray);
    let tden = spec_tden(p, ray);
    PlanarHitRecord {
        intersection_pt: RatPoint {
            x: Rat { num: (ray.orig.x * tden + tnum * ray.dir.x) as i128, den: tden as i128 },
            y: Rat { num: (ray.orig.y * tden + tnum * ray.dir.y) as i128, den: tden as i128 },
            z: Rat { num: (ray.orig.z * tden + tnum * ray.dir.z) as i128, den: tden as i128 },
        },
        t: Rat { num: tnum as i128, den: tden as i128 },
        alpha: Rat { num: spec_alpha_num(p, ray) as i128, den: spec_den(p, ray) as i128 },
        beta: Rat { num: spec_beta_num(p, ray) as i128, den: spec_den(p, ray) as i128 },
    }
}

/// Exact ray/plane intersection: absent when the ray is parallel to the
/// plane or the crossing parameter falls outside the query range; otherwise
/// the intersection data at the unique crossing parameter.
pub open spec fn spec_planar_hit(p: Plane, ray: Ray, ray_t: TInterval) -> Option<
    PlanarHitRecord,
> {
    if spec_nd(p, ray) == 0 {
        None
    } else if ray_t.admits(spec_tnum(p, ray), spec_tden(p, ray)) {
        Some(spec_planar_record(p, ray))
    } else {
        None
    }
}

/// Bounds of every intermediate value of the plane intersection, from the
/// grid bounds of the plane and the ray.
pub proof fn lemma_planar_ranges(p: Plane, ray: Ray)
    requires
        p.wf(),
        ray.in_bounds(COORD_LIMIT as int),
    ensures
        p.normal.in_bounds(0x2_0000_0000),
        -0x3_0000_0000_0000 <= spec_nd(p, ray) <= 0x3_0000_0000_0000,
        -0x6_0000_0000_0000 <= spec_tnum(p, ray) <= 0x6_0000_0000_0000,
        0 <= spec_tden(p, ray) <= 0x3_0000_0000_0000,
        spec_nd(p, ray) != 0 ==> 1 <= spec_tden(p, ray),
        -0x6_0000_0000_0000_0000 <= spec_mx(p, ray) <= 0x6_0000_0000_0000_0000,
        -0x6_0000_0000_0000_0000 <= spec_my(p, ray) <= 0x6_0000_0000_0000_0000,
        -0x6_0000_0000_0000_0000 <= spec_mz(p, ray) <= 0x6_0000_0000_0000_0000,
        1 <= spec_nn(p) <= 0xC_0000_0000_0000_0000,
        -0x48_0000_0000_0000_0000_0000_0000_0000 <= spec_alpha_num(p, ray)
            <= 0x48_0000_0000_0000_0000_0000_0000_0000,
        -0x48_0000_0000_0000_0000_0000_0000_0000 <= spec_beta_num(p, ray)
            <= 0x48_0000_0000_0000_0000_0000_0000_0000,
        0 <= spec_den(p, ray) <= 0x24_0000_0000_0000_0000_0000_0000_0000,
        spec_nd(p, ray) != 0 ==> 1 <= spec_den(p, ray),
        -0x48_0000_0000_0000_0000 <= ray.orig.x * spec_tden(p, ray) + spec_tnum(p, ray)
            * ray.dir.x <= 0x48_0000_0000_0000_0000,
        -0x48_0000_0000_0000_0000 <= ray.orig.y * spec_tden(p, ray) + spec_tnum(p, ray)
            * ray.dir.y <= 0x48_0000_0000_0000_0000,
        -0x48_0000_0000_0000_0000 <= ray.orig.z * spec_tden(p, ray) + spec_tnum(p, ray)
            * ray.dir.z <= 0x48_0000_0000_0000_0000,
{
    lemma_scross_bound(p.side_a, p.side_b, 2 * COORD_LIMIT as int, 2 * COORD_LIMIT as int);
    lemma_sdot_bound(p.normal, ray.dir, 0x2_0000_0000, COORD_LIMIT as int);
    lemma_sdot_bound(p.normal, ray.orig, 0x2_0000_0000, COORD_LIMIT as int);
    lemma_sdot_bound(p.normal, p.corner, 0x2_0000_0000, COORD_LIMIT as int);
    lemma_sdot_bound(p.normal, p.normal, 0x2_0000_0000, 0x2_0000_0000);
    let td = spec_tden(p, ray);
    let tn = spec_tnum(p, ray);
    lemma_mul_bound(ray.orig.x - p.corner.x, td, 0x1_0000, 0x3_0000_0000_0000);
    lemma_mul_bound(ray.orig.y - p.corner.y, td, 0x1_0000, 0x3_0000_0000_0000);
    lemma_mul_bound(ray.orig.z - p.corner.z, td, 0x1_0000, 0x3_0000_0000_0000);
    lemma_mul_bound(tn, ray.dir.x as int, 0x6_0000_0000_0000, 0x8000);
    lemma_mul_bound(tn, ray.dir.y as int, 0x6_0000_0000_0000, 0x8000);
    lemma_mul_bound(tn, ray.dir.z as int, 0x6_0000_0000_0000, 0x8000);
    lemma_mul_bound(spec_my(p, ray), p.side_b.z as int, 0x6_0000_0000_0000_0000, 0x1_0000);
    lemma_mul_bound(spec_mz(p, ray), p.side_b.y as int, 0x6_0000_0000_0000_0000, 0x1_0000);
    lemma_mul_bound(spec_mz(p, ray), p.side_b.x as int, 0x6_0000_0000_0000_0000, 0x1_0000);
    lemma_mul_bound(spec_mx(p, ray), p.side_b.z as int, 0x6_0000_0000_0000_0000, 0x1_0000);
    lemma_mul_bound(spec_mx(p, ray), p.side_b.y as int, 0x6_0000_0000_0000_0000, 0x1_0000);
    lemma_mul_bound(spec_my(p, ray), p.side_b.x as int, 0x6_0000_0000_0000_0000, 0x1_0000);
    lemma_mul_bound(p.normal.x as int, spec_my(p, ray) * p.side_b.z - spec_mz(p, ray)
        * p.side_b.y, 0x2_0000_0000, 0xC_0000_0000_0000_0000_0000);
    lemma_mul_bound(p.normal.y as int, spec_mz(p, ray) * p.side_b.x - spec_mx(p, ray)
        * p.side_b.z, 0x2_0000_0000, 0xC_0000_0000_0000_0000_0000);
    lemma_mul_bound(p.normal.z as int, spec_mx(p, ray) * p.side_b.y - spec_my(p, ray)
        * p.side_b.x, 0x2_0000_0000, 0xC_0000_0000_0000_0000_0000);
    lemma_mul_bound(p.side_a.y as int, spec_mz(p, ray), 0x1_0000, 0x6_0000_0000_0000_0000);
    lemma_mul_bound(p.side_a.z as int, spec_my(p, ray), 0x1_0000, 0x6_0000_0000_0000_0000);
    lemma_mul_bound(p.side_a.z as int, spec_mx(p, ray), 0x1_0000, 0x6_0000_0000_0000_0000);
    lemma_mul_bound(p.side_a.x as int, spec_mz(p, ray), 0x1_0000, 0x6_0000_0000_0000_0000);
    lemma_mul_bound(p.side_a.x as int, spec_my(p, ray), 0x1_0000, 0x6_0000_0000_0000_0000);
    lemma_mul_bound(p.side_a.y as int, spec_mx(p, ray), 0x1_0000, 0x6_0000_0000_0000_0000);
    lemma_mul_bound(p.normal.x as int, p.side_a.y * spec_mz(p, ray) - p.side_a.z * spec_my(p,
        ray), 0x2_0000_0000, 0xC_0000_0000_0000_0000_0000);
    lemma_mul_bound(p.normal.y as int, p.side_a.z * spec_mx(p, ray) - p.side_a.x * spec_mz(p,
        ray), 0x2_0000_0000, 0xC_0000_0000_0000_0000_0000);
    lemma_mul_bound(p.normal.z as int, p.side_a.x * spec_my(p, ray) - p.side_a.y * spec_mx(p,
        ray), 0x2_0000_0000, 0xC_0000_0000_0000_0000_0000);
    assert(spec_nn(p) >= 1) by (nonlinear_arith)
        requires
            spec_nn(p) == p.normal.x * p.normal.x + p.normal.y * p.normal.y + p.normal.z
                * p.normal.z,
            !(p.normal.x == 0 && p.normal.y == 0 && p.normal.z == 0),
    ;
    lemma_mul_bound(td, spec_nn(p), 0x3_0000_0000_0000, 0xC_0000_0000_0000_0000);
    assert(spec_nd(p, ray) != 0 ==> spec_den(p, ray) >= 1) by (nonlinear_arith)
        requires
            spec_den(p, ray) == td * spec_nn(p),
            spec_nd(p, ray) != 0 ==> td >= 1,
            spec_nn(p) >= 1,
    ;
    lemma_mul_bound(ray.orig.x as int, td, 0x8000, 0x3_0000_0000_0000);
    lemma_mul_bound(ray.orig.y as int, td, 0x8000, 0x3_0000_0000_0000);
    lemma_mul_bound(ray.orig.z as int, td, 0x8000, 0x3_0000_0000_0000);
    assert(spec_den(p, ray) >= 0) by (nonlinear_arith)
        requires
            spec_den(p, ray) == td * spec_nn(p),
            td >= 0,
            spec_nn(p) >= 1,
    ;
}

impl Plane {
    /// Intersect the ray with the plane, exactly.
    pub fn hit(&self, ray: &Ray, ray_t: &TInterval) -> (r: Option<PlanarHitRecord>)
        requires
            self.wf(),
            ray.in_bounds(COORD_LIMIT as int),
            ray_t.wf(),
        ensures
            r == spec_planar_hit(*self, *ray, *ray_t),
            (match r {
                Some(pr) => pr.wf(),
                None => true,
            }),
    {
        proof {
            lemma_planar_ranges(*self, *ray);
        }
        let nd: i128 = dot_wide(&self.normal, ray.direction());
        if nd == 0 {
            return None;
        }
        let n_dot_orig: i128 = dot_wide(&self.normal, ray.origin());
        let raw: i128 = self.quad_eq_d - n_dot_orig;
        let tnum: i128 = if nd > 0 { raw } else { -raw };
        let tden: i128 = if nd > 0 { nd } else { -nd };
        let t = Rat { num: tnum, den: tden };
        if !(Rat::le(&ray_t.min, &t) && Rat::le(&t, &ray_t.max)) {
            return None;
        }
        let ocx: i128 = ray.orig.x as i128 - self.corner.x as i128;
        let ocy: i128 = ray.orig.y as i128 - self.corner.y as i128;
        let ocz: i128 = ray.orig.z as i128 - self.corner.z as i128;
        proof {
            lemma_mul_bound(ocx as int, tden as int, 0x1_0000, 0x3_0000_0000_0000);
            lemma_mul_bound(ocy as int, tden as int, 0x1_0000, 0x3_0000_0000_0000);
            lemma_mul_bound(ocz as int, tden as int, 0x1_0000, 0x3_0000_0000_0000);
            lemma_mul_bound(tnum as int, ray.dir.x as int, 0x6_0000_0000_0000, 0x8000);
            lemma_mul_bound(tnum as int, ray.dir.y as int, 0x6_0000_0000_0000, 0x8000);
            lemma_mul_bound(tnum as int, ray.dir.z as int, 0x6_0000_0000_0000, 0x8000);
        }
        let mx: i128 = ocx * tden + tnum * (ray.dir.x as i128);
        let my: i128 = ocy * tden + tnum * (ray.dir.y as i128);
        let mz: i128 = ocz * tden + tnum * (ray.dir.z as i128);
        proof {
            lemma_mul_bound(my as int, self.side_b.z as int, 0x6_0000_0000_0000_0000, 0x1_0000);
            lemma_mul_bound(mz as int, self.side_b.y as int, 0x6_0000_0000_0000_0000, 0x1_0000);
            lemma_mul_bound(mz as int, self.side_b.x as int, 0x6_0000_0000_0000_0000, 0x1_0000);
            lemma_mul_bound(mx as int, self.side_b.z as int, 0x6_0000_0000_0000_0000, 0x1_0000);
            lemma_mul_bound(mx as int, self.side_b.y as int, 0x6_0000_0000_0000_0000, 0x1_0000);
            lemma_mul_bound(my as int, self.side_b.x as int, 0x6_0000_0000_0000_0000, 0x1_0000);
        }
        let cmx: i128 = my * (self.side_b.z as i128) - mz * (self.side_b.y as i128);
        let cmy: i128 = mz * (self.side_b.x as i128) - mx * (self.side_b.z as i128);
        let cmz: i128 = mx * (self.side_b.y as i128) - my * (self.side_b.x as i128);
        proof {
            lemma_mul_bound(self.normal.x as int, cmx as int, 0x2_0000_0000,
                0xC_0000_0000_0000_0000_0000);
            lemma_mul_bound(self.normal.y as int, cmy as int, 0x2_0000_0000,
                0xC_0000_0000_0000_0000_0000);
            lemma_mul_bound(self.normal.z as int, cmz as int, 0x2_0000_0000,
                0xC_0000_0000_0000_0000_0000);
        }
        let alpha_num: i128 = (self.normal.x as i128) * cmx + (self.normal.y as i128) * cmy + (
        self.normal.z as i128) * cmz;
        proof {
            lemma_mul_bound(self.side_a.y as int, mz as int, 0x1_0000, 0x6_0000_0000_0000_0000);
            lemma_mul_bound(self.side_a.z as int, my as int, 0x1_0000, 0x6_0000_0000_0000_0000);
            lemma_mul_bound(self.side_a.z as int, mx as int, 0x1_0000, 0x6_0000_0000_0000_0000);
            lemma_mul_bound(self.side_a.x as int, mz as int, 0x1_0000, 0x6_0000_0000_0000_0000);
            lemma_mul_bound(self.side_a.x as int, my as int, 0x1_0000, 0x6_0000_0000_0000_0000);
            lemma_mul_bound(self.side_a.y as int, mx as int, 0x1_0000, 0x6_0000_0000_0000_0000);
        }
        let cax: i128 = (self.side_a.y as i128) * mz - (self.side_a.z as i128) * my;
        let cay: i128 = (self.side_a.z as i128) * mx - (self.side_a.x as i128) * mz;
        let caz: i128 = (self.side_a.x as i128) * my - (self.side_a.y as i128) * mx;
        proof {
            lemma_mul_bound(self.normal.x as int, cax as int, 0x2_0000_0000,
                0xC_0000_0000_0000_0000_0000);
            lemma_mul_bound(self.normal.y as int, cay as int, 0x2_0000_0000,
                0xC_0000_0000_0000_0000_0000);
            lemma_mul_bound(self.normal.z as int, caz as int, 0x2_0000_0000,
                0xC_0000_0000_0000_0000_0000);
        }
        let beta_num: i128 = (self.normal.x as i128) * cax + (self.normal.y as i128) * cay + (
        self.normal.z as i128) * caz;
        let nn: i128 = dot_wide(&self.normal, &self.normal);
        proof {
            lemma_mul_bound(tden as int, nn as int, 0x3_0000_0000_0000, 0xC_0000_0000_0000_0000);
            lemma_mul_bound(ray.orig.x as int, tden as int, 0x8000, 0x3_0000_0000_0000);
            lemma_mul_bound(ray.orig.y as int, tden as int, 0x8000, 0x3_0000_0000_0000);
            lemma_mul_bound(ray.orig.z as int, tden as int, 0x8000, 0x3_0000_0000_0000);
        }
        let den: i128 = tden * nn;
        let alpha = Rat { num: alpha_num, den };
        let beta = Rat { num: beta_num, den };
        let px = Rat { num: (ray.orig.x as i128) * tden + tnum * (ray.dir.x as i128), den: tden };
        let py = Rat { num: (ray.orig.y as i128) * tden + tnum * (ray.dir.y as i128), den: tden };
        let pz = Rat { num: (ray.orig.z as i128) * tden + tnum * (ray.dir.z as i128), den: tden };
        Some(PlanarHitRecord { intersection_pt: RatPoint { x: px, y: py, z: pz }, t, alpha, beta })
    }
}

/// The closed interval from the lesser to the greater of two coordinates.
pub open spec fn minmax_interval(u: int, v: int) -> Interval {
    Interval {
        min: (if u <= v { u } else { v }) as i64,
        max: (if u >= v { u } else { v }) as i64,
    }
}

/// The box a planar primitive caches: the padded union of the padded boxes of
/// its two corner diagonals.
pub open spec fn spec_prim_bbox(p: Plane) -> AABB {
    AABB {
        x: Interval::spec_pad(Interval::spec_union(
            Interval::spec_pad(minmax_interval(p.corner.x as int,
                p.corner.x + p.side_a.x + p.side_b.x)),
            Interval::spec_pad(minmax_interval(p.corner.x + p.side_a.x,
                p.corner.x + p.side_b.x)),
        )),
        y: Interval::spec_pad(Interval::spec_union(
            Interval::spec_pad(minmax_interval(p.corner.y as int,
                p.corner.y + p.side_a.y + p.side_b.y)),
            Interval::spec_pad(minmax_interval(p.corner.y + p.side_a.y,
                p.corner.y + p.side_b.y)),
        )),
        z: Interval::spec_pad(Interval::spec_union(
            Interval::spec_pad(minmax_interval(p.corner.z as int,
                p.corner.z + p.side_a.z + p.side_b.z)),
            Interval::spec_pad(minmax_interval(p.corner.z + p.side_a.z,
                p.corner.z + p.side_b.z)),
        )),
    }
}


/// The cached box of a planar primitive contains all four corners of the
/// cell its sides span from its corner point.
pub proof fn lemma_prim_bbox_contains_cell_corners(p: Plane)
    requires
        p.wf(),
    ensures
        spec_prim_bbox(p).contains_point(p.corner.x as int, p.corner.y as int, p.corner.z as int),
        spec_prim_bbox(p).contains_point(p.corner.x + p.side_a.x, p.corner.y + p.side_a.y,
            p.corner.z + p.side_a.z),
        spec_prim_bbox(p).contains_point(p.corner.x + p.side_b.x, p.corner.y + p.side_b.y,
            p.corner.z + p.side_b.z),
        spec_prim_bbox(p).contains_point(p.corner.x + p.side_a.x + p.side_b.x,
            p.corner.y + p.side_a.y + p.side_b.y, p.corner.z + p.side_a.z + p.side_b.z),
{
}

/// The six entries are the faces of the axis-aligned box with opposite
/// corners at the componentwise minimum and maximum of `a` and `b` (so the
/// statement is the same with `a` and `b` swapped), in the construction's
/// order: front, right, back, left, top, bottom.
pub open spec fn box_faces(objects: Seq<crate::hittable::Hittable>, a: Vec3, b: Vec3, mat: usize) -> bool {
    let lox = if a.x <= b.x { a.x } else { b.x };
    let loy = if a.y <= b.y { a.y } else { b.y };
    let loz = if a.z <= b.z { a.z } else { b.z };
    let hix = if a.x >= b.x { a.x } else { b.x };
    let hiy = if a.y >= b.y { a.y } else { b.y };
    let hiz = if a.z >= b.z { a.z } else { b.z };
    let dx = Vec3 { x: (hix - lox) as i64, y: 0, z: 0 };
    let dy = Vec3 { x: 0, y: (hiy - loy) as i64, z: 0 };
    let dz = Vec3 { x: 0, y: 0, z: (hiz - loz) as i64 };
    let ndx = Vec3 { x: (lox - hix) as i64, y: 0, z: 0 };
    let ndz = Vec3 { x: 0, y: 0, z: (loz - hiz) as i64 };
    &&& objects[0].is_face(Vec3 { x: lox, y: loy, z: hiz }, dx, dy, mat)
    &&& objects[1].is_face(Vec3 { x: hix, y: loy, z: hiz }, ndz, dy, mat)
    &&& objects[2].is_face(Vec3 { x: hix, y: loy, z: loz }, ndx, dy, mat)
    &&& objects[3].is_face(Vec3 { x: lox, y: loy, z: loz }, dz, dy, mat)
    &&& objects[4].is_face(Vec3 { x: lox, y: hiy, z: hiz }, dx, ndz, mat)
    &&& objects[5].is_face(Vec3 { x: lox, y: loy, z: loz }, dx, dz, mat)
}

/// A parallelogram: a plane restricted to the unit cell of its basis, with a
/// material handle and a cached bounding box.
#[derive(Clone, Copy, Debug, PartialEq, Eq, Structural)]
pub struct Quad {
    pub plane: Plane,
    pub mat: usize,
    pub bounding_box: AABB,
}

/// A triangle: a plane restricted to the lower-left half of the unit cell,
/// with a material handle and a cached bounding box.
#[derive(Clone, Copy, Debug, PartialEq, Eq, Structural)]
pub struct Tri {
    pub plane: Plane,
    pub mat: usize,
    pub bounding_box: AABB,
}

/// Build the cached box of a planar primitive from its two corner diagonals.
fn build_prim_bbox(plane: &Plane) -> (r: AABB)
    requires
        plane.wf(),
    ensures
        r == spec_prim_bbox(*plane),
        r.wf(),
{
    let c00: Vec3 = plane.corner;
    let c10: Vec3 = plane.corner.add(&plane.side_a);
    let c01: Vec3 = plane.corner.add(&plane.side_b);
    let c11: Vec3 = c10.add(&plane.side_b);
    let diagonal1: AABB = AABB::from_point(&c00, &c11);
    let diagonal2: AABB = AABB::from_point(&c10, &c01);
    AABB::from_bounding_box(&diagonal1, &diagonal2)
}

impl Quad {
    pub open spec fn wf(self) -> bool {
        &&& self.plane.wf()
        &&& self.bounding_box == spec_prim_bbox(self.plane)
        &&& self.bounding_box.wf()
        &&& self.bounding_box.in_bounds((COORD_LIMIT + 2) as int)
        &&& self.bounding_box.x.spec_size() >= 1
        &&& self.bounding_box.y.spec_size() >= 1
        &&& self.bounding_box.z.spec_size() >= 1
    }

    pub fn new(corner: &Vec3, side_a: &Vec3, side_b: &Vec3, mat: usize) -> (r: Quad)
        requires
            corner.in_bounds(COORD_LIMIT as int),
            -COORD_LIMIT <= corner.x + side_a.x <= COORD_LIMIT,
            -COORD_LIMIT <= corner.y + side_a.y <= COORD_LIMIT,
            -COORD_LIMIT <= corner.z + side_a.z <= COORD_LIMIT,
            -COORD_LIMIT <= corner.x + side_b.x <= COORD_LIMIT,
            -COORD_LIMIT <= corner.y + side_b.y <= COORD_LIMIT,
            -COORD_LIMIT <= corner.z + side_b.z <= COORD_LIMIT,
            -COORD_LIMIT <= corner.x + side_a.x + side_b.x <= COORD_LIMIT,
            -COORD_LIMIT <= corner.y + side_a.y + side_b.y <= COORD_LIMIT,
            -COORD_LIMIT <= corner.z + side_a.z + side_b.z <= COORD_LIMIT,
            Vec3::scross(*side_a, *side_b) != (0int, 0int, 0int),
        ensures
            r.wf(),
            r.plane.corner == *corner,
            r.plane.side_a == *side_a,
            r.plane.side_b == *side_b,
            r.mat == mat,
    {
        let plane: Plane = Plane::new(corner, side_a, side_b);
        let bounding_box: AABB = build_prim_bbox(&plane);
        Quad { plane, mat, bounding_box }
    }

    /// The closed box with opposite vertices `a` and `b`, as its six sides:
    /// one quad per face, all sharing one material. Distinct coordinates on
    /// every axis keep each face a true parallelogram.
    #[verifier::rlimit(100)]
    #[verifier::spinoff_prover]
    pub fn new_box(a: &Vec3, b: &Vec3, mat: usize) -> (r: crate::hittable_list::HittableList)
        requires
            a.in_bounds(COORD_LIMIT as int),
            b.in_bounds(COORD_LIMIT as int),
            a.x != b.x,
            a.y != b.y,
            a.z != b.z,
        ensures
            r.wf(),
            r.objects@.len() == 6,
            forall|i: int| 0 <= i < 6 ==> (#[trigger] r.objects@[i]).prim_mat() == mat,
            box_faces(r.objects@, *a, *b, mat),
            r.spec_bbox().contains_point(a.x as int, a.y as int, a.z as int),
            r.spec_bbox().contains_point(b.x as int, b.y as int, b.z as int),
    {
        let min_pt: Vec3 = Vec3::new(
            if a.x <= b.x { a.x } else { b.x },
            if a.y <= b.y { a.y } else { b.y },
            if a.z <= b.z { a.z } else { b.z },
        );
        let max_pt: Vec3 = Vec3::new(
            if a.x >= b.x { a.x } else { b.x },
            if a.y >= b.y { a.y } else { b.y },
            if a.z >= b.z { a.z } else { b.z },
        );
        let dx: Vec3 = Vec3::new(max_pt.x - min_pt.x, 0, 0);
        let dy: Vec3 = Vec3::new(0, max_pt.y - min_pt.y, 0);
        let dz: Vec3 = Vec3::new(0, 0, max_pt.z - min_pt.z);
        proof {
            crate::aabb::lemma_mono_mul_strict(0, dx.x as int, dy.y as int);
            crate::aabb::lemma_mono_mul_strict(0, dy.y as int, dz.z as int);
            crate::aabb::lemma_mono_mul_strict(0, dx.x as int, dz.z as int);
            assert((-(dz.z as int)) * (dy.y as int) < 0) by (nonlinear_arith)
                requires
                    dz.z >= 1,
                    dy.y >= 1,
            ;
            assert((-(dx.x as int)) * (dy.y as int) < 0) by (nonlinear_arith)
                requires
                    dx.x >= 1,
                    dy.y >= 1,
            ;
            assert((dx.x as int) * (-(dz.z as int)) < 0) by (nonlinear_arith)
                requires
                    dx.x >= 1,
                    dz.z >= 1,
            ;
        }
        let ndx: Vec3 = dx.neg();
        let ndz: Vec3 = dz.neg();
        proof {
            assert(Vec3::scross(ndz, dy).0 != 0);
            assert(Vec3::scross(ndx, dy).2 != 0);
            assert(Vec3::scross(dx, ndz).1 != 0);
            assert(Vec3::scross(dx, dy).2 != 0);
            assert(Vec3::scross(dz, dy).0 != 0);
            assert(Vec3::scross(dx, dz).1 != 0);
        }
        let front: Quad = Quad::new(&Vec3::new(min_pt.x, min_pt.y, max_pt.z), &dx, &dy, mat);
        let right: Quad = Quad::new(&Vec3::new(max_pt.x, min_pt.y, max_pt.z), &ndz, &dy, mat);
        let back: Quad = Quad::new(&Vec3::new(max_pt.x, min_pt.y, min_pt.z), &ndx, &dy, mat);
        let left: Quad = Quad::new(&Vec3::new(min_pt.x, min_pt.y, min_pt.z), &dz, &dy, mat);
        let top: Quad = Quad::new(&Vec3::new(min_pt.x, max_pt.y, max_pt.z), &dx, &ndz, mat);
        let bottom: Quad = Quad::new(&Vec3::new(min_pt.x, min_pt.y, min_pt.z), &dx, &dz, mat);
        let mut sides = crate::hittable_list::HittableList::new();
        sides.add(crate::hittable::Hittable::Quad(front));
        sides.add(crate::hittable::Hittable::Quad(right));
        sides.add(crate::hittable::Hittable::Quad(back));
        sides.add(crate::hittable::Hittable::Quad(left));
        sides.add(crate::hittable::Hittable::Quad(top));
        sides.add(crate::hittable::Hittable::Quad(bottom));
        proof {
            assert(sides.objects@ =~= seq![
                crate::hittable::Hittable::Quad(front),
                crate::hittable::Hittable::Quad(right),
                crate::hittable::Hittable::Quad(back),
                crate::hittable::Hittable::Quad(left),
                crate::hittable::Hittable::Quad(top),
                crate::hittable::Hittable::Quad(bottom),
            ]);
            // each input is a corner of the near or far face along z, whose
            // cached box the collection's cached box encloses
            lemma_prim_bbox_contains_cell_corners(front.plane);
            lemma_prim_bbox_contains_cell_corners(back.plane);
            assert(sides.spec_bbox().encloses(sides.objects@[0].spec_bbox()));
            assert(sides.spec_bbox().encloses(sides.objects@[2].spec_bbox()));
            assert(sides.objects@[0].spec_bbox() == front.bounding_box);
            assert(sides.objects@[2].spec_bbox() == back.bounding_box);
            assert(front.bounding_box.contains_point(a.x as int, a.y as int, a.z as int)
                || back.bounding_box.contains_point(a.x as int, a.y as int, a.z as int));
            assert(front.bounding_box.contains_point(b.x as int, b.y as int, b.z as int)
                || back.bounding_box.contains_point(b.x as int, b.y as int, b.z as int));
        }
        sides
    }

    /// Whether basis coordinates land inside the unit cell of the quad.
    pub fn is_interior(alpha: &Rat, beta: &Rat) -> (r: bool)
        requires
            alpha.wf(),
            beta.wf(),
        ensures
            r == (0 <= alpha.num <= alpha.den && 0 <= beta.num <= beta.den),
    {
        0 <= alpha.num && alpha.num <= alpha.den && 0 <= beta.num && beta.num <= beta.den
    }
}

impl Tri {
    pub open spec fn wf(self) -> bool {
        &&& self.plane.wf()
        &&& self.bounding_box == spec_prim_bbox(self.plane)
        &&& self.bounding_box.wf()
        &&& self.bounding_box.in_bounds((COORD_LIMIT + 2) as int)
        &&& self.bounding_box.x.spec_size() >= 1
        &&& self.bounding_box.y.spec_size() >= 1
        &&& self.bounding_box.z.spec_size() >= 1
    }

    pub fn new(corner: &Vec3, side_a: &Vec3, side_b: &Vec3, mat: usize) -> (r: Tri)
        requires
            corner.in_bounds(COORD_LIMIT as int),
            -COORD_LIMIT <= corner.x + side_a.x <= COORD_LIMIT,
            -COORD_LIMIT <= corner.y + side_a.y <= COORD_LIMIT,
            -COORD_LIMIT <= corner.z + side_a.z <= COORD_LIMIT,
            -COORD_LIMIT <= corner.x + side_b.x <= COORD_LIMIT,
            -COORD_LIMIT <= corner.y + side_b.y <= COORD_LIMIT,
            -COORD_LIMIT <= corner.z + side_b.z <= COORD_LIMIT,
            -COORD_LIMIT <= corner.x + side_a.x + side_b.x <= COORD_LIMIT,
            -COORD_LIMIT <= corner.y + side_a.y + side_b.y <= COORD_LIMIT,
            -COORD_LIMIT <= corner.z + side_a.z + side_b.z <= COORD_LIMIT,
            Vec3::scross(*side_a, *side_b) != (0int, 0int, 0int),
        ensures
            r.wf(),
            r.plane.corner == *corner,
            r.plane.side_a == *side_a,
            r.plane.side_b == *side_b,
            r.mat == mat,
    {
        let plane: Plane = Plane::new(corner, side_a, side_b);
        let bounding_box: AABB = build_prim_bbox(&plane);
        Tri { plane, mat, bounding_box }
    }

    /// Whether basis coordinates land inside the triangle's half-cell.
    pub fn is_interior(alpha: &Rat, beta: &Rat) -> (r: bool)
        requires
            alpha.wf(),
            beta.wf(),
            alpha.den == beta.den,
            alpha.bounded(0x2000_0000_0000_0000_0000_0000_0000_0000),
            beta.bounded(0x2000_0000_0000_0000_0000_0000_0000_0000),
        ensures
            r == (alpha.num >= 0 && beta.num >= 0 && alpha.num + beta.num <= alpha.den),
    {
        alpha.num >= 0 && beta.num >= 0 && alpha.num + beta.num <= alpha.den
    }
}

} // verus!


