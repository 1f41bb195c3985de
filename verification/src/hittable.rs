use vstd::prelude::*;
use crate::aabb::AABB;
use crate::interval::INTERVAL_LIMIT;
use crate::plane::{
    dot_wide, lemma_planar_ranges, lemma_scross_bound, spec_nd, spec_planar_hit, spec_tden,
    spec_tnum, PlanarHitRecord, Quad, Tri,
};
use crate::rat::{lemma_frac_le_trans, Rat, RatPoint, TInterval, RAT_LIMIT};
use crate::ray::Ray;
use crate::vec3::{lemma_mul_bound, Vec3, COORD_LIMIT};

verus! {

/// Texture coordinates of a hit: the basis coordinates of the hit point.
#[derive(Clone, Copy, Debug, PartialEq, Eq, Structural)]
pub struct Uv {
    pub u: Rat,
    pub v: Rat,
}

/// The result of a successful intersection: the hit point, the surface
/// normal oriented against the incoming ray, whether the outward face was
/// struck, the ray parameter, the surface coordinates, and the handle of the
/// material of the surface that was hit.
#[derive(Clone, Copy, Debug, PartialEq, Eq, Structural)]
pub struct HitRecord {
    pub point: RatPoint,
    pub normal: Vec3,
    pub mat: usize,
    pub t: Rat,
    pub uv: Uv,
    pub front_face: bool,
}

/// The outward normal if the ray strikes the outward face, else its negation.
pub open spec fn oriented_normal(dir: Vec3, n: Vec3) -> Vec3 {
    if Vec3::sdot(dir, n) < 0 {
        n
    } else {
        Vec3 { x: (-n.x) as i64, y: (-n.y) as i64, z: (-n.z) as i64 }
    }
}

impl HitRecord {
    pub fn new(point: RatPoint, mat: usize, t: Rat, uv: Uv, ray: &Ray, outward_normal: &Vec3) -> (r:
        HitRecord)
        requires
            ray.in_bounds(COORD_LIMIT as int),
            outward_normal.in_bounds(0x2_0000_0000),
        ensures
            r.front_face == (Vec3::sdot(ray.dir, *outward_normal) < 0),
            r.normal == oriented_normal(ray.dir, *outward_normal),
            r.point == point,
            r.mat == mat,
            r.t == t,
            r.uv == uv,
    {
        let d: i128 = dot_wide(ray.direction(), outward_normal);
        let front_face: bool = d < 0;
        let normal: Vec3 = if front_face {
            *outward_normal
        } else {
            outward_normal.neg()
        };
        HitRecord { point, normal, mat, t, uv, front_face }
    }
}

/// The ray parameter `t` takes the ray to a point inside the box, axis by
/// axis (all comparisons scaled by the positive denominator of `t`).
pub open spec fn box_param_ok(bb: AABB, ray: Ray, t: Rat) -> bool {
    &&& AABB::axis_through(bb.x, ray.orig.x, ray.dir.x, t.num as int, t.den as int)
    &&& AABB::axis_through(bb.y, ray.orig.y, ray.dir.y, t.num as int, t.den as int)
    &&& AABB::axis_through(bb.z, ray.orig.z, ray.dir.z, t.num as int, t.den as int)
}

/// Decide `box_param_ok` exactly.
fn param_in_box(bb: &AABB, ray: &Ray, t: &Rat) -> (r: bool)
    requires
        bb.in_bounds(INTERVAL_LIMIT as int),
        ray.in_bounds(COORD_LIMIT as int),
        t.wf(),
        t.bounded(RAT_LIMIT as int),
    ensures
        r == box_param_ok(*bb, *ray, *t),
{
    proof {
        lemma_mul_bound(bb.x.min as int, t.den as int, 0x1_0000, RAT_LIMIT as int);
        lemma_mul_bound(bb.x.max as int, t.den as int, 0x1_0000, RAT_LIMIT as int);
        lemma_mul_bound(bb.y.min as int, t.den as int, 0x1_0000, RAT_LIMIT as int);
        lemma_mul_bound(bb.y.max as int, t.den as int, 0x1_0000, RAT_LIMIT as int);
        lemma_mul_bound(bb.z.min as int, t.den as int, 0x1_0000, RAT_LIMIT as int);
        lemma_mul_bound(bb.z.max as int, t.den as int, 0x1_0000, RAT_LIMIT as int);
        lemma_mul_bound(ray.orig.x as int, t.den as int, 0x8000, RAT_LIMIT as int);
        lemma_mul_bound(ray.orig.y as int, t.den as int, 0x8000, RAT_LIMIT as int);
        lemma_mul_bound(ray.orig.z as int, t.den as int, 0x8000, RAT_LIMIT as int);
        lemma_mul_bound(ray.dir.x as int, t.num as int, 0x8000, RAT_LIMIT as int);
        lemma_mul_bound(ray.dir.y as int, t.num as int, 0x8000, RAT_LIMIT as int);
        lemma_mul_bound(ray.dir.z as int, t.num as int, 0x8000, RAT_LIMIT as int);
    }
    let vx: i128 = (ray.orig.x as i128) * t.den + (ray.dir.x as i128) * t.num;
    let vy: i128 = (ray.orig.y as i128) * t.den + (ray.dir.y as i128) * t.num;
    let vz: i128 = (ray.orig.z as i128) * t.den + (ray.dir.z as i128) * t.num;
    (bb.x.min as i128) * t.den <= vx && vx <= (bb.x.max as i128) * t.den
        && (bb.y.min as i128) * t.den <= vy && vy <= (bb.y.max as i128) * t.den
        && (bb.z.min as i128) * t.den <= vz && vz <= (bb.z.max as i128) * t.den
}

/// A scene primitive: the closed set of intersectable shapes.
#[derive(Clone, Copy, Debug, PartialEq, Eq, Structural)]
pub enum Hittable {
    Quad(Quad),
    Tri(Tri),
}

impl Hittable {
    pub open spec fn wf(self) -> bool {
        match self {
            Hittable::Quad(q) => q.wf(),
            Hittable::Tri(t) => t.wf(),
        }
    }

    /// The plane the primitive lies in.
    pub open spec fn prim_plane(self) -> crate::plane::Plane {
        match self {
            Hittable::Quad(q) => q.plane,
            Hittable::Tri(t) => t.plane,
        }
    }

    /// The material handle of the primitive.
    pub open spec fn prim_mat(self) -> usize {
        match self {
            Hittable::Quad(q) => q.mat,
            Hittable::Tri(t) => t.mat,
        }
    }

    /// The primitive is the quad face spanned by the two sides from the
    /// corner, carrying the given material (its cached normal, plane constant
    /// and box are then pinned by well-formedness).
    pub open spec fn is_face(self, corner: Vec3, side_a: Vec3, side_b: Vec3, mat: usize) -> bool {
        &&& self is Quad
        &&& self.prim_plane().corner == corner
        &&& self.prim_plane().side_a == side_a
        &&& self.prim_plane().side_b == side_b
        &&& self.prim_mat() == mat
    }

    /// The cached bounding box of the primitive.
    pub open spec fn spec_bbox(self) -> AABB {
        match self {
            Hittable::Quad(q) => q.bounding_box,
            Hittable::Tri(t) => t.bounding_box,
        }
    }

    /// The basis coordinates land inside the primitive's footprint.
    pub open spec fn interior_ok(self, pr: PlanarHitRecord) -> bool {
        match self {
            Hittable::Quad(_) => 0 <= pr.alpha.num <= pr.alpha.den && 0 <= pr.beta.num
                <= pr.beta.den,
            Hittable::Tri(_) => pr.alpha.num >= 0 && pr.beta.num >= 0 && pr.alpha.num + pr.beta.num
                <= pr.alpha.den,
        }
    }

    /// The record the primitive reports for a crossing of its plane.
    pub open spec fn spec_record(self, ray: Ray, pr: PlanarHitRecord) -> HitRecord {
        HitRecord {
            point: pr.intersection_pt,
            normal: oriented_normal(ray.dir, self.prim_plane().normal),
            mat: self.prim_mat(),
            t: pr.t,
            uv: Uv { u: pr.alpha, v: pr.beta },
            front_face: Vec3::sdot(ray.dir, self.prim_plane().normal) < 0,
        }
    }

    /// The nearest (indeed only) intersection of the ray with the primitive
    /// within the parameter range: present exactly when the ray crosses the
    /// primitive's plane inside its footprint (and so inside its cached box)
    /// at a parameter the range admits.
    pub open spec fn spec_hit(self, ray: Ray, ray_t: TInterval) -> Option<HitRecord> {
        match spec_planar_hit(self.prim_plane(), ray, ray_t) {
            None => None,
            Some(pr) => if self.interior_ok(pr) && box_param_ok(self.spec_bbox(), ray, pr.t) {
                Some(self.spec_record(ray, pr))
            } else {
                None
            },
        }
    }

    pub fn bounding_box(&self) -> (r: &AABB)
        ensures
            r == self.spec_bbox(),
    {
        match self {
            Hittable::Quad(q) => &q.bounding_box,
            Hittable::Tri(t) => &t.bounding_box,
        }
    }

    /// Intersect the ray with the primitive over the closed parameter range.
    pub fn hit(&self, ray: &Ray, ray_t: &TInterval) -> (r: Option<HitRecord>)
        requires
            self.wf(),
            ray.in_bounds(COORD_LIMIT as int),
            ray_t.wf(),
        ensures
            r == self.spec_hit(*ray, *ray_t),
    {
        let plane: &crate::plane::Plane = match self {
            Hittable::Quad(q) => &q.plane,
            Hittable::Tri(t) => &t.plane,
        };
        let pr_opt = plane.hit(ray, ray_t);
        match pr_opt {
            None => None,
            Some(pr) => {
                let interior: bool = match self {
                    Hittable::Quad(_) => Quad::is_interior(&pr.alpha, &pr.beta),
                    Hittable::Tri(_) => Tri::is_interior(&pr.alpha, &pr.beta),
                };
                if interior && param_in_box(self.bounding_box(), ray, &pr.t) {
                    proof {
                        lemma_scross_bound(plane.side_a, plane.side_b, 2 * COORD_LIMIT as int,
                            2 * COORD_LIMIT as int);
                    }
                    let rec = HitRecord::new(pr.intersection_pt, self.mat_handle(), pr.t,
                        Uv { u: pr.alpha, v: pr.beta }, ray, &plane.normal);
                    Some(rec)
                } else {
                    None
                }
            },
        }
    }

    /// The handle of the primitive's material in the caller's material arena.
    pub fn mat_handle(&self) -> (r: usize)
        ensures
            r == self.prim_mat(),
    {
        match self {
            Hittable::Quad(q) => q.mat,
            Hittable::Tri(t) => t.mat,
        }
    }
}

/// A reported hit carries a well-formed parameter that the query range
/// admits, and happens inside the primitive's cached bounding box.
pub proof fn lemma_hit_record_props(h: Hittable, ray: Ray, ray_t: TInterval, rec: HitRecord)
    requires
        h.wf(),
        ray.in_bounds(COORD_LIMIT as int),
        ray_t.wf(),
        h.spec_hit(ray, ray_t) == Some(rec),
    ensures
        rec.t.wf(),
        rec.t.bounded(RAT_LIMIT as int),
        ray_t.min.spec_le(rec.t),
        rec.t.spec_le(ray_t.max),
        h.spec_bbox().param_through(ray, ray_t, rec.t.num as int, rec.t.den as int),
{
    lemma_planar_ranges(h.prim_plane(), ray);
}

/// Shrinking only the upper end of the query range keeps a hit exactly when
/// its parameter still lies below the new upper end, and cannot create a hit
/// that the wider range did not have.
pub proof fn lemma_hit_narrow(h: Hittable, ray: Ray, wide: TInterval, narrow: TInterval)
    requires
        h.wf(),
        ray.in_bounds(COORD_LIMIT as int),
        wide.wf(),
        narrow.wf(),
        narrow.min == wide.min,
        narrow.max.spec_le(wide.max),
    ensures
        h.spec_hit(ray, wide) is None ==> h.spec_hit(ray, narrow) is None,
        (match h.spec_hit(ray, wide) {
            Some(rec) => h.spec_hit(ray, narrow) == (if rec.t.spec_le(narrow.max) {
                Some(rec)
            } else {
                None::<HitRecord>
            }),
            None => true,
        }),
{
    let p = h.prim_plane();
    lemma_planar_ranges(p, ray);
    if spec_nd(p, ray) != 0 {
        let tn = spec_tnum(p, ray);
        let td = spec_tden(p, ray);
        if wide.admits(tn, td) {
            if tn * narrow.max.den <= narrow.max.num * td {
                assert(narrow.admits(tn, td));
            }
        } else {
            if narrow.admits(tn, td) {
                lemma_frac_le_trans(tn, td, narrow.max.num as int, narrow.max.den as int,
                    wide.max.num as int, wide.max.den as int);
                assert(false);
            }
        }
    }
}

} // verus!
